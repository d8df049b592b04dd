//! `COUNT(*)`.

use crate::evaluator::Evaluator;
use crate::executor::any_operator;
use crate::executor::any_operator::AnyOperator;
use crate::executor::handle_rows;
use crate::executor::handle_scan;
use crate::executor::handle_scan::ScanParts;
use crate::executor::key_range;
use crate::executor::operator;
use crate::executor::operator::{PhysicalOperator, Relation, TimeoutContext};
use crate::executor::query;
use crate::executor::query::Executor;
use crate::executor::scan;
use crate::executor::semantics;
use crate::executor::sources;
use crate::executor::sources::CteData;
use crate::executor::storage_view;
use crate::executor::storage_view::StorageView;
use crate::executor::subquery;
use crate::logical_plan;
use crate::logical_plan::{AggregateFunction, LogicalExpr, LogicalPlan};
use crate::schema;
use crate::schema::{Column, Error, ErrorModel, Schema, Tuple};
use crate::text;
use crate::tree_text;
use crate::value;
use crate::value::{DataType, Value};
use std::sync::Arc;
use vstd::prelude::*;

verus! {

/// The columns of a count.
pub fn count_star_schema() -> (r: Arc<Schema>)
    ensures
        r@ == seq![semantics::count_column()],
{
    let mut c: Column = Column::new("agg_0", DataType::Int8);
    c.nullable = false;
    let ghost m = c@;
    let mut columns: Vec<Column> = Vec::new();
    columns.push(c);
    let s: Schema = Schema { columns };
    assert(m == semantics::count_column());
    assert(s@ =~= seq![semantics::count_column()]);
    Arc::new(s)
}

/// A count as the one row of an operator.
pub fn count_star_operator(count: usize) -> (r: AnyOperator)
    ensures
        r.gives(semantics::counted(count as nat), None),
{
    let mut values: Vec<Value> = Vec::new();
    values.push(Value::Int8(count as i64));
    let t: Tuple = Tuple::new(values);
    assert(t@ =~= scan::number_row(count as int));
    let mut rows: Vec<Tuple> = Vec::new();
    rows.push(t);
    assert(schema::rows_model(rows@) =~= seq![scan::number_row(count as int)]);
    handle_rows::rows_at_hand(count_star_schema(), rows)
}

/// Whether an aggregation is `COUNT(*)` and nothing else.
pub fn is_count_star(
    group_by: &Vec<LogicalExpr>,
    aggr_exprs: &Vec<LogicalExpr>,
    having: &Option<LogicalExpr>,
) -> (r: bool)
    ensures
        r == semantics::is_count_star(
            logical_plan::exprs_model(group_by@),
            logical_plan::exprs_model(aggr_exprs@),
            logical_plan::opt_expr(*having),
        ),
{
    proof {
        logical_plan::lemma_exprs_model(group_by@);
        logical_plan::lemma_exprs_model(aggr_exprs@);
    }
    if group_by.len() != 0 || having.is_some() || aggr_exprs.len() != 1 {
        return false;
    }
    assert(logical_plan::exprs_model(aggr_exprs@)[0] == aggr_exprs@[0]@);
    match &aggr_exprs[0] {
        LogicalExpr::AggregateFunction { fun, args, distinct } => {
            proof {
                logical_plan::lemma_exprs_model(args@);
            }
            if !matches!(fun, AggregateFunction::Count) || *distinct || args.len() == 0 {
                return false;
            }
            assert(logical_plan::exprs_model(args@)[0] == args@[0]@);
            matches!(&args[0], LogicalExpr::Wildcard)
        },
        _ => false,
    }
}

/// The error for a plan that no operator exists for.
pub(crate) fn not_implemented_error(plan: &LogicalPlan) -> (r: Error)
    ensures
        r@ == semantics::not_implemented(plan@),
{
    let head: String = "Operator not yet implemented: ".to_owned();
    Error::query_execution(head.concat(tree_text::show_plan(plan).as_str()))
}

/// The answer to a plan that is left to the database around the executor.
pub(crate) fn left_unanswered_error(plan: &LogicalPlan) -> (r: Error)
    ensures
        r@ == semantics::left_unanswered(plan@),
{
    let head: String = "Operator not yet implemented: ".to_owned();
    Error::unsupported(head.concat(tree_text::show_plan(plan).as_str()))
}

/// How many rows a stored table or materialized view has.
fn count_stored(store: &StorageView, table: &str) -> (r: Result<usize, Error>)
    ensures
        match r {
            Ok(n) => semantics::stored_count(table@, store@) == Ok::<nat, ErrorModel>(n as nat),
            Err(e) => semantics::stored_count(table@, store@) == Err::<nat, ErrorModel>(e@),
        },
{
    let name: String = match sources::fast_path_storage_table_name(Some(store), table) {
        Ok(n) => n,
        Err(e) => {
            return Err(e);
        },
    };
    match storage_view::find_table(&store.tables, name.as_str()) {
        Some(t) => Ok(t.rows.len()),
        None => Err(
            Error::storage(text::concat3("Table '", name.as_str(), "' does not exist")),
        ),
    }
}

impl<'a> Executor<'a> {
    /// How many rows a predicate on the primary key of a table asks for.
    pub fn count_by_primary_key(&self, n: &ScanParts<'_>, predicate: &LogicalExpr) -> (r: Result<
        Option<usize>,
        Error,
    >)
        ensures
            ({
                let expected = semantics::keyed(n@, predicate@, self.env(), self.ctes());
                match r {
                    Ok(Some(k)) => expected == Ok::<Option<nat>, ErrorModel>(Some(k as nat)),
                    Ok(None) => expected == Ok::<Option<nat>, ErrorModel>(None),
                    Err(e) => expected == Err::<Option<nat>, ErrorModel>(e@),
                }
            }),
        decreases subquery::expr_size(predicate@), 2nat, 0nat,
    {
        let cte: Option<&CteData> = self.get_cte(n.table.as_str());
        if !sources::table_can_be_looked_up(self.context(), cte, n.table.as_str(), n.as_of) {
            return Ok(None);
        }
        let at: usize = match key_range::find_single_key(n.schema) {
            Some(at) => at,
            None => {
                return Ok(None);
            },
        };
        let m: LogicalExpr = match self.materialize_subqueries(predicate) {
            Ok(m) => m,
            Err(e) => {
                return Err(e);
            },
        };
        match self.storage() {
            Some(store) => match storage_view::find_table(&store.tables, n.table.as_str()) {
                Some(t) => Ok(
                    key_range::count_by_key(&m, n.schema, at, &t.rows, self.parameters()),
                ),
                None => Ok(None),
            },
            None => Ok(None),
        }
    }

    /// How many rows of a scan an index or the primary key has for a predicate.
    fn count_quickly(&self, n: &ScanParts<'_>, predicate: &LogicalExpr) -> (r: Result<
        Option<AnyOperator>,
        Error,
    >)
        ensures
            ({
                let expected = semantics::quick_count(n@, predicate@, self.env(), self.ctes());
                match r {
                    Ok(Some(op)) => expected matches Ok(Some(k)) && op.gives(
                        semantics::counted(k),
                        self.limit(),
                    ),
                    Ok(None) => expected == Ok::<Option<nat>, ErrorModel>(None),
                    Err(e) => {
                        ||| operator::timed_out(operator::limits_of(self.limit()), e@)
                        ||| expected == Err::<Option<nat>, ErrorModel>(e@)
                    },
                }
            }),
        decreases subquery::expr_size(predicate@), 3nat, 0nat,
    {
        match self.try_index_point_lookup_for_scan(n, predicate) {
            Ok(Some(op)) => {
                let mut op: AnyOperator = op;
                proof {
                    assert(op.stream().end is None) by {
                        let found = semantics::pointed(n@, predicate@, self.env(), self.ctes());
                        assert(found matches Ok(Some(rel)) && rel.rows == op.stream());
                    }
                }
                match operator::drain(&mut op) {
                    Ok(rows) => Ok(Some(count_star_operator(rows.len()))),
                    Err(e) => Err(e),
                }
            },
            Ok(None) => match self.count_by_primary_key(n, predicate) {
                Ok(Some(k)) => Ok(Some(count_star_operator(k))),
                Ok(None) => Ok(None),
                Err(e) => Err(e),
            },
            Err(e) => Err(e),
        }
    }

    /// Whether the rows of a plan are the current rows of a stored table.
    fn counts_as_stored(&self, input: &LogicalPlan) -> (r: bool)
        ensures
            r == semantics::counts_as_stored(input@, self.env(), self.ctes()),
    {
        let n: ScanParts<'_> = match handle_scan::scan_parts_below(input) {
            Some(n) => n,
            None => {
                return false;
            },
        };
        if handle_scan::scan_parts(input).is_none() && !handle_rows::list_over_scan(input) {
            return false;
        }
        let cte: Option<&CteData> = self.get_cte(n.table.as_str());
        if !sources::table_can_be_looked_up(self.context(), cte, n.table.as_str(), n.as_of) {
            return false;
        }
        if self.transaction().is_some() {
            return false;
        }
        match self.storage() {
            Some(store) => storage_view::find_table(
                &store.system_views,
                n.table.as_str(),
            ).is_none(),
            None => false,
        }
    }

    /// `COUNT(*)`.
    pub fn handle_count(&mut self, input: &LogicalPlan) -> (r: Result<AnyOperator, Error>)
        ensures
            final(self).env() == old(self).env(),
            final(self).timing() == old(self).timing(),
            final(self).hints() == old(self).hints(),
            query::builds_plan(
                r,
                semantics::run_count(input@, old(self).env(), old(self).ctes()),
                final(self).ctes(),
                old(self).limit(),
            ),
        decreases subquery::plan_size(input@), 6nat, 0nat,
    {
        if self.counts_as_stored(input) {
            if let Some(n) = handle_scan::scan_parts_below(input) {
                if let Some(store) = self.storage() {
                    return match count_stored(store, n.table.as_str()) {
                        Ok(k) => Ok(count_star_operator(k)),
                        Err(e) => Err(e),
                    };
                }
            }
        }
        let quick: Result<Option<AnyOperator>, Error> = match input {
            LogicalPlan::Filter { input: inner, predicate } => match handle_scan::scan_parts(inner) {
                Some(n) => self.count_quickly(&n, predicate),
                None => Ok(None),
            },
            LogicalPlan::FilteredScan {
                table_name,
                alias,
                schema,
                projection,
                predicate,
                as_of,
            } => match predicate {
                Some(e) => self.count_quickly(
                    &ScanParts { table: table_name, alias, schema, projection, as_of },
                    e,
                ),
                None => Ok(None),
            },
            _ => Ok(None),
        };
        match quick {
            Ok(Some(op)) => {
                return Ok(op);
            },
            Ok(None) => {},
            Err(e) => {
                return Err(e);
            },
        }
        if let LogicalPlan::Filter { input: inner, predicate } = input {
            if self.tests_stored_rows(inner) {
                return self.count_tested(inner, predicate);
            }
        }
        let mut op: AnyOperator = match self.plan_to_operator(input) {
            Ok(op) => op,
            Err(e) => {
                return Err(e);
            },
        };
        match operator::drain(&mut op) {
            Ok(rows) => Ok(count_star_operator(rows.len())),
            Err(e) => Err(e),
        }
    }

    /// Whether a filter over a plan is counted row by row.
    fn tests_stored_rows(&self, inner: &LogicalPlan) -> (r: bool)
        ensures
            r == semantics::tests_stored_rows(inner@, self.env(), self.ctes()),
    {
        if let LogicalPlan::Project { exprs, .. } = inner {
            proof {
                logical_plan::lemma_exprs_model(exprs@);
            }
            if handle_rows::has_window_function(exprs) {
                return false;
            }
        }
        match handle_scan::scan_parts_below(inner) {
            Some(n) => self.storage().is_some() && self.get_cte(n.table.as_str()).is_none(),
            None => false,
        }
    }

    /// Counts the rows of a plan that a predicate keeps.
    fn count_tested(&mut self, inner: &LogicalPlan, predicate: &LogicalExpr) -> (r: Result<
        AnyOperator,
        Error,
    >)
        ensures
            final(self).env() == old(self).env(),
            final(self).timing() == old(self).timing(),
            final(self).hints() == old(self).hints(),
            query::builds_plan(
                r,
                semantics::count_tested(inner@, predicate@, old(self).env(), old(self).ctes()),
                final(self).ctes(),
                old(self).limit(),
            ),
        decreases
            subquery::plan_size(inner@) + subquery::expr_size(predicate@) + 1,
            5nat,
            0nat,
    {
        proof {
            subquery::lemma_size_is_positive(predicate@);
        }
        let ghost rel = semantics::run(inner@, self.env(), self.ctes())->Ok_0.rel;
        let op: AnyOperator = match self.plan_to_operator(inner) {
            Ok(op) => op,
            Err(e) => {
                return Err(e);
            },
        };
        let schema: Arc<Schema> = op.schema();
        if subquery::expr_has_correlated_subquery(predicate, &schema) {
            let mut kept: AnyOperator = match self.filter_over(op, predicate, Ghost(rel)) {
                Ok(op) => op,
                Err(e) => {
                    return Err(e);
                },
            };
            return match operator::drain(&mut kept) {
                Ok(rows) => Ok(count_star_operator(rows.len())),
                Err(e) => Err(e),
            };
        }
        match self.materialize_subqueries(predicate) {
            Ok(m) => self.count_true(op, &m, Ghost(rel)),
            Err(e) => Err(e),
        }
    }

    /// Counts the rows that a predicate is true on.
    fn count_true(&self, op: AnyOperator, predicate: &LogicalExpr, Ghost(rel): Ghost<Relation>) -> (r:
        Result<AnyOperator, Error>)
        requires
            op.gives(rel, self.limit()),
        ensures
            any_operator::builds(
                r,
                semantics::count_true(rel, predicate@, self.env().params),
                self.limit(),
            ),
    {
        let mut op: AnyOperator = op;
        let ghost cols = rel.columns;
        let ghost whole = rel.rows;
        let ghost limits = op.limits();
        let ghost params = self.env().params;
        let timeout_ctx: Option<TimeoutContext> = self.timeout_ctx();
        let evaluator: Evaluator = Evaluator::with_parameters(
            op.schema(),
            value::clone_values(self.parameters()),
        );
        let mut kept: Vec<Tuple> = Vec::new();
        let ghost mut done: nat = 0;
        assert(whole.rows.skip(0) =~= whole.rows);
        loop
            invariant
                op.ready(),
                op.limits() == limits,
                limits == any_operator::given_limits(rel, self.limit()),
                operator::limit_of(timeout_ctx) == self.limit(),
                whole == rel.rows,
                cols == rel.columns,
                params == self.env().params,
                evaluator.columns() == cols,
                evaluator.params() == params,
                done <= whole.rows.len(),
                op.stream().rows == whole.rows.skip(done as int),
                op.stream().end == whole.end,
                semantics::true_rows(whole.rows, done, predicate@, cols, params) == Ok::<
                    nat,
                    ErrorModel,
                >(kept@.len()),
            decreases op.stream().rows.len(),
        {
            match op.next() {
                Err(e) => {
                    return Err(e);
                },
                Ok(None) => {
                    assert(done == whole.rows.len());
                    return Ok(count_star_operator(kept.len()));
                },
                Ok(Some(row)) => {
                    match operator::check_time(&timeout_ctx) {
                        Ok(_) => {},
                        Err(e) => {
                            return Err(e);
                        },
                    }
                    assert(row@ == whole.rows[done as int]);
                    assert(whole.rows.skip(done as int).drop_first() =~= whole.rows.skip(
                        done as int + 1,
                    ));
                    match evaluator.evaluate(predicate, &row) {
                        Err(e) => {
                            proof {
                                semantics::lemma_true_rows_stop(
                                    whole.rows,
                                    done + 1,
                                    whole.rows.len(),
                                    predicate@,
                                    cols,
                                    params,
                                );
                            }
                            return Err(e);
                        },
                        Ok(v) => {
                            if matches!(v, Value::Boolean(true)) {
                                kept.push(row);
                            }
                        },
                    }
                    proof {
                        done = done + 1;
                    }
                },
            }
        }
    }
}

} // verus!
