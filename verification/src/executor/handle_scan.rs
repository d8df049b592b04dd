//! Scans of tables, with and without a predicate.

use crate::executor::any_operator;
use crate::executor::any_operator::AnyOperator;
use crate::executor::index_lookup;
use crate::executor::index_lookup::IndexRangeSpec;
use crate::executor::operator::Relation;
use crate::executor::query::Executor;
use crate::executor::scan::ScanOperator;
use crate::executor::semantics;
use crate::executor::semantics::ScanNode;
use crate::executor::sources;
use crate::executor::sources::{CteData, ScanSource};
use crate::executor::storage_view::StorageView;
use crate::executor::subquery;
use crate::logical_plan;
use crate::logical_plan::{AsOfClause, LogicalExpr, LogicalPlan};
use crate::schema;
use crate::schema::{Error, ErrorModel, Schema, Tuple};
use crate::value;
use std::sync::Arc;
use vstd::prelude::*;

verus! {

/// The parts of a scan.
pub struct ScanParts<'p> {
    pub table: &'p String,
    pub alias: &'p Option<String>,
    pub schema: &'p Arc<Schema>,
    pub projection: &'p Option<Vec<usize>>,
    pub as_of: &'p Option<AsOfClause>,
}

impl<'p> View for ScanParts<'p> {
    type V = ScanNode;

    open spec fn view(&self) -> ScanNode {
        ScanNode {
            table: self.table@,
            alias: schema::opt_text(*self.alias),
            cols: self.schema@,
            projection: logical_plan::opt_positions(*self.projection),
            as_of: logical_plan::opt_as_of(*self.as_of),
        }
    }
}

pub open spec fn opt_parts(p: Option<ScanParts<'_>>) -> Option<ScanNode> {
    match p {
        Some(x) => Some(x@),
        None => None,
    }
}

/// The scan that a plan is.
pub fn scan_parts(plan: &LogicalPlan) -> (r: Option<ScanParts<'_>>)
    ensures
        opt_parts(r) == semantics::scan_node(plan@),
{
    match plan {
        LogicalPlan::Scan { table_name, alias, schema, projection, as_of } => Some(
            ScanParts { table: table_name, alias, schema, projection, as_of },
        ),
        _ => None,
    }
}

/// The scan that a plan is, or that a `SELECT` list stands on.
pub fn scan_parts_below(plan: &LogicalPlan) -> (r: Option<ScanParts<'_>>)
    ensures
        opt_parts(r) == semantics::scan_below(plan@),
{
    match plan {
        LogicalPlan::Project { input, .. } => scan_parts(input),
        _ => scan_parts(plan),
    }
}

/// Whether an attempt to build a relation came to what it should.
pub open spec fn opt_builds(
    r: Result<Option<AnyOperator>, Error>,
    expected: Result<Option<Relation>, ErrorModel>,
    limit: Option<u64>,
) -> bool {
    match r {
        Ok(Some(op)) => expected matches Ok(Some(rel)) && op.gives(rel, limit),
        Ok(None) => expected == Ok::<Option<Relation>, ErrorModel>(None),
        Err(e) => expected == Err::<Option<Relation>, ErrorModel>(e@),
    }
}

impl<'a> Executor<'a> {
    /// A scan of rows at hand.
    pub(crate) fn scan_of_rows(&self, n: &ScanParts<'_>, schema: Arc<Schema>, rows: Vec<Tuple>) -> (r:
        AnyOperator)
        ensures
            r.gives(
                semantics::scanned(n@, schema@, schema::rows_model(rows@)),
                self.limit(),
            ),
    {
        let op: ScanOperator = ScanOperator::new(
            n.table.clone(),
            schema,
            logical_plan::clone_positions(n.projection),
            rows,
            value::clone_values(self.parameters()),
        );
        AnyOperator::of_scan(op.with_timeout(self.timeout_ctx()))
    }

    /// A scan.
    pub fn handle_scan(&self, n: &ScanParts<'_>) -> (r: Result<AnyOperator, Error>)
        ensures
            any_operator::builds(
                r,
                semantics::scan_rows(n@, self.env(), self.ctes()),
                self.limit(),
            ),
    {
        let cte: Option<&CteData> = self.get_cte(n.table.as_str());
        match sources::find_scan_source(
            n.table.as_str(),
            n.alias,
            n.schema,
            n.as_of,
            self.context(),
            cte,
        ) {
            Ok(s) => {
                let op: ScanOperator = ScanOperator::new_shared(
                    n.table.clone(),
                    s.schema,
                    logical_plan::clone_positions(n.projection),
                    s.rows,
                    value::clone_values(self.parameters()),
                );
                Ok(AnyOperator::of_scan(op.with_timeout(self.timeout_ctx())))
            },
            Err(e) => Err(e),
        }
    }

    /// The columns of a scan, as a stored table gives them.
    fn looked_up_scan(&self, n: &ScanParts<'_>, rows: Vec<Tuple>) -> (r: AnyOperator)
        ensures
            r.gives(
                semantics::scanned(
                    n@,
                    sources::sourced(
                        n@.cols,
                        sources::source_name(n@.alias, n@.table),
                        n@.table,
                    ),
                    schema::rows_model(rows@),
                ),
                self.limit(),
            ),
    {
        let source: &str = sources::pick_source(n.alias, n.table.as_str());
        let schema: Schema = sources::schema_with_source(n.schema, source, n.table.as_str());
        self.scan_of_rows(n, Arc::new(schema), rows)
    }

    /// What an index has for the value that a predicate asks for.
    pub fn try_index_point_lookup_for_scan(&self, n: &ScanParts<'_>, predicate: &LogicalExpr) -> (r: Result<
        Option<AnyOperator>,
        Error,
    >)
        ensures
            opt_builds(
                r,
                semantics::pointed(n@, predicate@, self.env(), self.ctes()),
                self.limit(),
            ),
        decreases subquery::expr_size(predicate@), 2nat, 0nat,
    {
        let cte: Option<&CteData> = self.get_cte(n.table.as_str());
        if !sources::table_can_be_looked_up(self.context(), cte, n.table.as_str(), n.as_of) {
            return Ok(None);
        }
        let m: LogicalExpr = match self.materialize_subqueries(predicate) {
            Ok(m) => m,
            Err(e) => {
                return Err(e);
            },
        };
        let store: &StorageView = match self.storage() {
            Some(s) => s,
            None => {
                return Ok(None);
            },
        };
        match sources::look_up_point(
            store,
            self.parameters(),
            n.table.as_str(),
            n.alias,
            n.schema,
            &m,
        ) {
            Ok(Some(rows)) => Ok(Some(self.looked_up_scan(n, rows))),
            Ok(None) => Ok(None),
            Err(e) => Err(e),
        }
    }

    /// What an index has in the range that a predicate asks for.
    pub fn try_index_range_scan_for_scan(&self, n: &ScanParts<'_>, predicate: &LogicalExpr) -> (r: Result<
        Option<AnyOperator>,
        Error,
    >)
        ensures
            opt_builds(
                r,
                semantics::ranged(n@, predicate@, self.env(), self.ctes()),
                self.limit(),
            ),
        decreases subquery::expr_size(predicate@), 2nat, 0nat,
    {
        let cte: Option<&CteData> = self.get_cte(n.table.as_str());
        if self.settings().index_range_off || !sources::table_can_be_looked_up(
            self.context(),
            cte,
            n.table.as_str(),
            n.as_of,
        ) {
            return Ok(None);
        }
        let store: &StorageView = match self.storage() {
            Some(s) => s,
            None => {
                return Ok(None);
            },
        };
        let range: IndexRangeSpec = match index_lookup::indexed_range_lookup(
            &store.indexes,
            n.table.as_str(),
            n.schema,
            predicate,
            self.parameters(),
        ) {
            Some(range) => range,
            None => {
                return Ok(None);
            },
        };
        let m: LogicalExpr = match self.materialize_subqueries(predicate) {
            Ok(m) => m,
            Err(e) => {
                return Err(e);
            },
        };
        match sources::look_up_range(
            store,
            self.parameters(),
            n.table.as_str(),
            n.alias,
            n.schema,
            &range,
            &m,
        ) {
            Ok(Some(rows)) => Ok(Some(self.looked_up_scan(n, rows))),
            Ok(None) => Ok(None),
            Err(e) => Err(e),
        }
    }

    /// What an index gives for a predicate on a scan, where it can serve it.
    pub fn try_indexed(&self, n: &ScanParts<'_>, predicate: &LogicalExpr) -> (r: Result<
        Option<AnyOperator>,
        Error,
    >)
        ensures
            opt_builds(
                r,
                semantics::indexed(n@, predicate@, self.env(), self.ctes()),
                self.limit(),
            ),
        decreases subquery::expr_size(predicate@), 3nat, 0nat,
    {
        match self.try_index_point_lookup_for_scan(n, predicate) {
            Ok(None) => self.try_index_range_scan_for_scan(n, predicate),
            r => r,
        }
    }

    /// A scan with a predicate.
    pub fn handle_filtered_scan(&self, n: &ScanParts<'_>, predicate: &LogicalExpr) -> (r: Result<
        AnyOperator,
        Error,
    >)
        ensures
            any_operator::builds(
                r,
                semantics::run_filtered_scan(n@, predicate@, self.env(), self.ctes()),
                self.limit(),
            ),
        decreases subquery::expr_size(predicate@), 4nat, 0nat,
    {
        match self.try_indexed(n, predicate) {
            Ok(Some(op)) => {
                return Ok(op);
            },
            Ok(None) => {},
            Err(e) => {
                return Err(e);
            },
        }
        let m: LogicalExpr = match self.materialize_subqueries(predicate) {
            Ok(m) => m,
            Err(e) => {
                return Err(e);
            },
        };
        let cte: Option<&CteData> = self.get_cte(n.table.as_str());
        let s: ScanSource = match sources::find_scan_source(
            n.table.as_str(),
            n.alias,
            n.schema,
            n.as_of,
            self.context(),
            cte,
        ) {
            Ok(s) => s,
            Err(e) => {
                return Err(e);
            },
        };
        match sources::filter_tuples_with_evaluator(
            schema::clone_tuples(&s.rows),
            s.schema.clone(),
            &m,
            self.parameters(),
        ) {
            Ok(rows) => Ok(self.scan_of_rows(n, s.schema, rows)),
            Err(e) => Err(e),
        }
    }
}

} // verus!
