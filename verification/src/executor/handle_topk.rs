//! Limits over sorts.

use crate::evaluator::Evaluator;
use crate::executor::any_operator;
use crate::executor::any_operator::AnyOperator;
use crate::executor::handle_rows;
use crate::executor::handle_scan;
use crate::executor::handle_scan::ScanParts;
use crate::executor::index_lookup;
use crate::executor::index_lookup::RangeBound;
use crate::executor::operator;
use crate::executor::operator::{PhysicalOperator, Relation};
use crate::executor::ordered_topk;
use crate::executor::ordered_topk::{OrderedTopkSpec, SortParts, WrapParts};
use crate::executor::query;
use crate::executor::query::Executor;
use crate::executor::semantics;
use crate::executor::sources;
use crate::executor::sources::CteData;
use crate::executor::storage_view;
use crate::executor::storage_view::{IndexEntry, StorageView};
use crate::executor::subquery;
use crate::logical_plan;
use crate::logical_plan::{LogicalExpr, LogicalPlan};
use crate::schema;
use crate::schema::{Error, ErrorModel, Schema, Tuple, TupleModel};
use crate::text;
use crate::value;
use crate::value::ValueModel;
use std::sync::Arc;
use vstd::prelude::*;

verus! {

impl<'a> Executor<'a> {
    /// How an index serves the sort below a limit, where one can.
    pub fn index_ordered_topk_detect<'p>(&self, input: &'p LogicalPlan) -> (r: Option<
        OrderedTopkSpec<'p>,
    >)
        ensures
            match r {
                Some(t) => ordered_topk::served_by_index(input@, self.env(), self.ctes()) == Some(
                    t@,
                ),
                None => ordered_topk::served_by_index(input@, self.env(), self.ctes()) is None,
            },
    {
        if self.settings().index_range_off {
            return None;
        }
        let store: &StorageView = match self.storage() {
            Some(s) => s,
            None => {
                return None;
            },
        };
        let sort: SortParts<'p> = match ordered_topk::extract_sort_for_topk(input) {
            Some(s) => s,
            None => {
                return None;
            },
        };
        let name: &String = match ordered_topk::find_sorted_column(&sort) {
            Some(n) => n,
            None => {
                return None;
            },
        };
        let (parts, predicate): (ScanParts<'p>, Option<&'p LogicalExpr>) =
            match ordered_topk::filtered_scan_parts(sort.input) {
            Some(f) => f,
            None => {
                return None;
            },
        };
        let at: usize = match parts.schema.get_column_index(name.as_str()) {
            Some(at) => at,
            None => {
                return None;
            },
        };
        assert(parts.schema@[at as int] == parts.schema.columns@[at as int]@);
        if !index_lookup::range_scannable_type(&parts.schema.columns[at].data_type) {
            return None;
        }
        let column: &str = parts.schema.columns[at].name.as_str();
        let table: &str = parts.table.as_str();
        let index_name: String = match index_lookup::find_column_index(
            &store.indexes,
            table,
            column,
        ) {
            Some(i) => i,
            None => {
                return None;
            },
        };
        let cte: Option<&CteData> = self.get_cte(table);
        if !sources::table_can_be_looked_up(self.context(), cte, table, parts.as_of) {
            return None;
        }
        if !ordered_topk::covers_all_rows(store, index_name.as_str(), table) {
            return None;
        }
        let (lower, upper): (Option<RangeBound>, Option<RangeBound>) = match predicate {
            None => (None, None),
            Some(p) => match index_lookup::indexed_range_lookup(
                &store.indexes,
                table,
                parts.schema,
                p,
                self.parameters(),
            ) {
                Some(range) => {
                    if !text::same_text(range.column_name.as_str(), column) {
                        return None;
                    }
                    (range.lower, range.upper)
                },
                None => {
                    return None;
                },
            },
        };
        let column_name: String = parts.schema.columns[at].name.clone();
        Some(
            OrderedTopkSpec {
                parts,
                predicate,
                wrap: sort.wrap,
                at,
                column_name,
                index_name,
                lower,
                upper,
            },
        )
    }

    /// The `SELECT` list above a sort, over the sorted rows.
    pub(crate) fn wrap_over(
        &self,
        op: AnyOperator,
        wrap: &Option<WrapParts<'_>>,
        Ghost(rel): Ghost<Relation>,
    ) -> (r: Result<AnyOperator, Error>)
        requires
            op.gives(rel, self.limit()),
        ensures
            any_operator::builds(
                r,
                semantics::wrapped(
                    rel,
                    ordered_topk::wrap_model(*wrap),
                    self.env(),
                ),
                self.limit(),
            ),
        decreases
            match ordered_topk::wrap_model(*wrap) {
                Some(w) => subquery::exprs_size(w.exprs, w.exprs.len()),
                None => 0nat,
            },
            4nat,
            0nat,
    {
        match wrap {
            None => Ok(op),
            Some(w) => {
                proof {
                    logical_plan::lemma_exprs_model(w.exprs@);
                }
                self.select_over(
                    op,
                    w.exprs,
                    w.aliases,
                    w.distinct,
                    w.distinct_on,
                    Ghost(rel),
                )
            },
        }
    }

    /// The first rows of a table in the order of an index.
    fn rows_in_index_order(
        &self,
        store: &StorageView,
        t: &OrderedTopkSpec<'_>,
        predicate: &Option<LogicalExpr>,
        schema: &Arc<Schema>,
        k: usize,
    ) -> (r: Result<Vec<Tuple>, Error>)
        requires
            self.env().storage == Some(store@),
            schema@ == sources::sourced(
                t@.node.cols,
                sources::source_name(t@.node.alias, t@.node.table),
                t@.node.table,
            ),
        ensures
            match r {
                Ok(v) => semantics::topk_rows(
                    t@,
                    logical_plan::opt_expr(*predicate),
                    k,
                    self.env(),
                ) == Ok::<Seq<TupleModel>, ErrorModel>(schema::rows_model(v@)),
                Err(e) => semantics::topk_rows(
                    t@,
                    logical_plan::opt_expr(*predicate),
                    k,
                    self.env(),
                ) == Err::<Seq<TupleModel>, ErrorModel>(e@),
            },
    {
        let no_entries: Vec<IndexEntry> = Vec::new();
        let entries: &Vec<IndexEntry> = match store.index_entries(t.index_name.as_str()) {
            Some(e) => e,
            None => &no_entries,
        };
        let none: Vec<Tuple> = Vec::new();
        let rows: &Vec<Tuple> = match storage_view::find_table(
            &store.tables,
            t.parts.table.as_str(),
        ) {
            Some(found) => &found.rows,
            None => &none,
        };
        proof {
            assert(storage_view::entries_model(no_entries@) =~= Seq::<(ValueModel, u64)>::empty());
            assert(schema::rows_model(none@) =~= Seq::<TupleModel>::empty());
            assert(storage_view::entries_model(entries@) == sources::known_entries(
                store@,
                t@.index,
            ));
            assert(schema::rows_model(rows@) == sources::rows_of_table(
                store@.tables,
                t@.node.table,
            ));
        }
        let within: Vec<IndexEntry> = storage_view::index_range_entries(
            entries,
            &t.lower,
            &t.upper,
        );
        let evaluator: Evaluator = Evaluator::with_parameters(
            schema.clone(),
            value::clone_values(self.parameters()),
        );
        ordered_topk::fetch_in_index_order(
            &within,
            entries.len(),
            rows,
            t.at,
            predicate,
            &evaluator,
            k,
        )
    }

    /// A limit over a sort that an index serves.
    pub fn try_index_ordered_topk(&self, input: &LogicalPlan, limit: usize, offset: usize) -> (r:
        Result<Option<AnyOperator>, Error>)
        ensures
            handle_scan::opt_builds(
                r,
                semantics::run_ordered(input@, limit, offset, self.env(), self.ctes()),
                self.limit(),
            ) || (r matches Err(e) && operator::timed_out(operator::limits_of(self.limit()), e@)),
        decreases subquery::plan_size(input@), 4nat, 0nat,
    {
        proof {
            semantics::lemma_served_sizes(input@, self.env(), self.ctes());
        }
        let t: OrderedTopkSpec<'_> = match self.index_ordered_topk_detect(input) {
            Some(t) => t,
            None => {
                return Ok(None);
            },
        };
        let store: &StorageView = match self.storage() {
            Some(s) => s,
            None => {
                return Ok(None);
            },
        };
        let predicate: Option<LogicalExpr> = match t.predicate {
            Some(p) => match self.materialize_subqueries(p) {
                Ok(m) => Some(m),
                Err(e) => {
                    return Err(e);
                },
            },
            None => None,
        };
        let table: &str = t.parts.table.as_str();
        let source: &str = sources::pick_source(t.parts.alias, table);
        let schema: Arc<Schema> = Arc::new(
            sources::schema_with_source(t.parts.schema, source, table),
        );
        let budget: usize = limit.saturating_add(offset);
        assert(budget == semantics::row_budget(limit, offset));
        let rows: Vec<Tuple> = match self.rows_in_index_order(
            store,
            &t,
            &predicate,
            &schema,
            budget,
        ) {
            Ok(rows) => rows,
            Err(e) => {
                return Err(e);
            },
        };
        let ghost rel = semantics::scanned(t@.node, schema@, schema::rows_model(rows@));
        let op: AnyOperator = self.scan_of_rows(&t.parts, schema, rows);
        match self.wrap_over(op, &t.wrap, Ghost(rel)) {
            Ok(p) => Ok(Some(handle_rows::limit_operator(p, limit, offset))),
            Err(e) => Err(e),
        }
    }

    /// A limit over a sort.
    pub fn limit_sorted(&mut self, input: &LogicalPlan, limit: usize, offset: usize) -> (r: Result<
        AnyOperator,
        Error,
    >)
        ensures
            final(self).env() == old(self).env(),
            final(self).timing() == old(self).timing(),
            final(self).hints() == old(self).hints(),
            query::builds_plan(
                r,
                semantics::limit_sorted(
                    input@,
                    limit,
                    offset,
                    old(self).env(),
                    old(self).ctes(),
                ),
                final(self).ctes(),
                old(self).limit(),
            ),
        decreases subquery::plan_size(input@), 5nat, 0nat,
    {
        proof {
            reveal_with_fuel(subquery::plan_size, 3);
        }
        match self.try_index_ordered_topk(input, limit, offset) {
            Ok(Some(op)) => {
                return Ok(op);
            },
            Ok(None) => {},
            Err(e) => {
                return Err(e);
            },
        }
        let sort: SortParts<'_> = match ordered_topk::extract_sort_for_topk(input) {
            Some(s) => s,
            None => {
                return self.limit_over(input, limit, offset);
            },
        };
        let budget: usize = limit.saturating_add(offset);
        assert(budget == semantics::row_budget(limit, offset));
        let ghost rel = semantics::top_rows(
            sort.input@,
            logical_plan::exprs_model(sort.exprs@),
            sort.asc@,
            budget,
            self.env(),
            self.ctes(),
        )->Ok_0.rel;
        let op: AnyOperator = match self.top_rows(sort.input, sort.exprs, sort.asc, budget) {
            Ok(op) => op,
            Err(e) => {
                return Err(e);
            },
        };
        match self.wrap_over(op, &sort.wrap, Ghost(rel)) {
            Ok(p) => Ok(handle_rows::limit_operator(p, limit, offset)),
            Err(e) => Err(e),
        }
    }
}

} // verus!
