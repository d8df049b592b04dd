//! Filters, `SELECT` lists, sorts, limits and set operations.

use crate::evaluator::Evaluator;
use crate::executor::any_operator;
use crate::executor::any_operator::AnyOperator;
use crate::executor::filter::FilterOperator;
use crate::executor::handle_join::JoinAttempt;
use crate::executor::handle_scan;
use crate::executor::operator;
use crate::executor::operator::{PhysicalOperator, Relation, TimeoutContext};
use crate::executor::project;
use crate::executor::project::{LimitOperator, ProjectOperator};
use crate::executor::query;
use crate::executor::query::Executor;
use crate::executor::scan;
use crate::executor::scan::{MaterializedOperator, ScanOperator};
use crate::executor::semantics;
use crate::executor::semantics::{Built, Ctes};
use crate::executor::set_ops;
use crate::executor::set_ops::SetOperation;
use crate::executor::sort;
use crate::executor::sources::Env;
use crate::executor::subquery;
use crate::logical_plan;
use crate::logical_plan::{ExprModel, LogicalExpr, LogicalPlan};
use crate::schema;
use crate::schema::{ColumnModel, Error, ErrorModel, Schema, Tuple, TupleModel};
use crate::value;
use crate::value::{Value, ValueModel};
use std::sync::Arc;
use vstd::prelude::*;

verus! {

/// Rows at hand as an operator.
pub(crate) fn rows_at_hand(schema: Arc<Schema>, rows: Vec<Tuple>) -> (r: AnyOperator)
    ensures
        r.gives(semantics::at_hand(schema@, schema::rows_model(rows@)), None),
{
    AnyOperator::of_rows(MaterializedOperator::new(rows, schema))
}

proof fn lemma_correlated_rows_stop(
    predicate: ExprModel,
    cols: Seq<ColumnModel>,
    rows: Seq<TupleModel>,
    k: nat,
    n: nat,
    env: Env,
    ctes: Ctes,
)
    requires
        k <= n <= rows.len(),
        semantics::correlated_rows(predicate, cols, rows, k, env, ctes) is Err,
    ensures
        semantics::correlated_rows(predicate, cols, rows, n, env, ctes)
            == semantics::correlated_rows(predicate, cols, rows, k, env, ctes),
    decreases n,
{
    if k < n {
        lemma_correlated_rows_stop(predicate, cols, rows, k, (n - 1) as nat, env, ctes);
    }
}

proof fn lemma_item_values_stop(
    exprs: Seq<ExprModel>,
    k: nat,
    n: nat,
    cols: Seq<ColumnModel>,
    row: TupleModel,
    env: Env,
    ctes: Ctes,
)
    requires
        k <= n <= exprs.len(),
        semantics::item_values(exprs, k, cols, row, env, ctes) is Err,
    ensures
        semantics::item_values(exprs, n, cols, row, env, ctes) == semantics::item_values(
            exprs,
            k,
            cols,
            row,
            env,
            ctes,
        ),
    decreases n,
{
    if k < n {
        lemma_item_values_stop(exprs, k, (n - 1) as nat, cols, row, env, ctes);
    }
}

proof fn lemma_item_rows_stop(
    exprs: Seq<ExprModel>,
    cols: Seq<ColumnModel>,
    rows: Seq<TupleModel>,
    k: nat,
    n: nat,
    env: Env,
    ctes: Ctes,
)
    requires
        k <= n <= rows.len(),
        semantics::item_rows(exprs, cols, rows, k, env, ctes) is Err,
    ensures
        semantics::item_rows(exprs, cols, rows, n, env, ctes) == semantics::item_rows(
            exprs,
            cols,
            rows,
            k,
            env,
            ctes,
        ),
    decreases n,
{
    if k < n {
        lemma_item_rows_stop(exprs, cols, rows, k, (n - 1) as nat, env, ctes);
    }
}

/// Whether a list holds a window function.
pub fn has_window_function(exprs: &Vec<LogicalExpr>) -> (r: bool)
    ensures
        r == semantics::has_window(logical_plan::exprs_model(exprs@), exprs@.len()),
{
    let ghost model = logical_plan::exprs_model(exprs@);
    proof {
        logical_plan::lemma_exprs_model(exprs@);
    }
    let mut found: bool = false;
    let mut i: usize = 0;
    while i < exprs.len()
        invariant
            model == logical_plan::exprs_model(exprs@),
            model.len() == exprs@.len(),
            forall|j: int| 0 <= j < exprs@.len() ==> #[trigger] model[j] == exprs@[j]@,
            i <= exprs@.len(),
            found == semantics::has_window(model, i as nat),
        decreases exprs.len() - i,
    {
        assert(model[i as int] == exprs@[i as int]@);
        if matches!(&exprs[i], LogicalExpr::WindowFunction { .. }) {
            found = true;
        }
        i += 1;
    }
    found
}

/// Whether a plan is a `SELECT` list that gives one row for each row of the scan
/// below it.
pub fn list_over_scan(plan: &LogicalPlan) -> (r: bool)
    ensures
        r == semantics::is_list_over_scan(plan@),
{
    match plan {
        LogicalPlan::Project { input, exprs, distinct, distinct_on, .. } => {
            proof {
                logical_plan::lemma_exprs_model(exprs@);
            }
            handle_scan::scan_parts(input).is_some() && !*distinct && distinct_on.is_none()
                && !has_window_function(exprs)
        },
        _ => false,
    }
}

/// Whether a list holds plain columns only.
pub fn has_only_columns(exprs: &Vec<LogicalExpr>) -> (r: bool)
    ensures
        r == semantics::all_columns(logical_plan::exprs_model(exprs@), exprs@.len()),
{
    let ghost model = logical_plan::exprs_model(exprs@);
    proof {
        logical_plan::lemma_exprs_model(exprs@);
    }
    let mut all: bool = true;
    let mut i: usize = 0;
    while i < exprs.len()
        invariant
            model == logical_plan::exprs_model(exprs@),
            model.len() == exprs@.len(),
            forall|j: int| 0 <= j < exprs@.len() ==> #[trigger] model[j] == exprs@[j]@,
            i <= exprs@.len(),
            all == semantics::all_columns(model, i as nat),
        decreases exprs.len() - i,
    {
        assert(model[i as int] == exprs@[i as int]@);
        if !matches!(&exprs[i], LogicalExpr::Column { .. }) {
            all = false;
        }
        i += 1;
    }
    all
}

/// Whether one of the rows has some values.
fn has_row_with(rows: &Vec<Tuple>, values: &Vec<Value>) -> (r: bool)
    ensures
        r == semantics::has_values(schema::rows_model(rows@), value::values_model(values@)),
{
    let ghost model = schema::rows_model(rows@);
    let mut i: usize = 0;
    while i < rows.len()
        invariant
            model == schema::rows_model(rows@),
            i <= rows@.len(),
            forall|j: int|
                0 <= j < i ==> (#[trigger] model[j]).values != value::values_model(values@),
        decreases rows.len() - i,
    {
        assert(model[i as int] == rows@[i as int]@);
        if value::same_values(&rows[i].values, values) {
            assert(model[i as int].values == value::values_model(values@));
            return true;
        }
        i += 1;
    }
    false
}

/// The rows whose values no earlier row has.
fn keep_distinct(rows: Vec<Tuple>) -> (r: Vec<Tuple>)
    ensures
        schema::rows_model(r@) == semantics::distinct_rows(
            schema::rows_model(rows@),
            rows@.len(),
        ),
{
    let ghost model = schema::rows_model(rows@);
    let mut out: Vec<Tuple> = Vec::new();
    assert(schema::rows_model(out@) =~= Seq::<TupleModel>::empty());
    let mut i: usize = 0;
    while i < rows.len()
        invariant
            model == schema::rows_model(rows@),
            i <= rows@.len(),
            schema::rows_model(out@) == semantics::distinct_rows(model, i as nat),
        decreases rows.len() - i,
    {
        assert(model[i as int] == rows@[i as int]@);
        if !has_row_with(&out, &rows[i].values) {
            let ghost was = schema::rows_model(out@);
            let t: Tuple = rows[i].clone();
            out.push(t);
            assert(schema::rows_model(out@) =~= was.push(t@));
        }
        i += 1;
    }
    out
}

/// Two lists of rows, one behind the other.
pub(crate) fn rows_joined(left: Vec<Tuple>, right: Vec<Tuple>) -> (r: Vec<Tuple>)
    ensures
        schema::rows_model(r@) == schema::rows_model(left@) + schema::rows_model(right@),
{
    let mut out: Vec<Tuple> = left;
    let mut more: Vec<Tuple> = right;
    let ghost l = out@;
    let ghost rt = more@;
    out.append(&mut more);
    assert(schema::rows_model(out@) =~= schema::rows_model(l) + schema::rows_model(rt));
    out
}

/// A window over an operator.
pub(crate) fn limit_operator(op: AnyOperator, limit: usize, offset: usize) -> (r: AnyOperator)
    requires
        op.ready(),
    ensures
        r.ready(),
        r.columns() == op.columns(),
        r.stream() == project::window(op.stream(), offset as nat, limit as nat),
        r.limits() == op.limits(),
{
    AnyOperator::of_limit(LimitOperator::new(Box::new(op), limit, offset))
}

impl<'a> Executor<'a> {
    /// Rows as an operator that hands them out under the time limit.
    pub(crate) fn rows_under_limit(&self, schema: Arc<Schema>, rows: Vec<Tuple>) -> (r: AnyOperator)
        ensures
            r.gives(semantics::under_limit(schema@, schema::rows_model(rows@)), self.limit()),
    {
        assert(scan::scanned(None, schema::rows_model(rows@)) =~= schema::rows_model(rows@));
        let scan: ScanOperator = ScanOperator::new(
            String::new(),
            schema,
            None,
            rows,
            Vec::new(),
        );
        AnyOperator::of_scan(scan.with_timeout(self.timeout_ctx()))
    }

    /// The rows that a predicate with correlated subqueries is true on.
    fn filter_correlated(&self, input: AnyOperator, predicate: &LogicalExpr) -> (r: Result<
        Vec<Tuple>,
        Error,
    >)
        requires
            input.ready(),
        ensures
            query::rows_come(
                r,
                semantics::unless_failing(
                    semantics::correlated_rows(
                        predicate@,
                        input.columns(),
                        input.stream().rows,
                        input.stream().rows.len(),
                        self.env(),
                        self.ctes(),
                    ),
                    input.stream().end,
                ),
                input.limits().union(operator::limits_of(self.limit())),
            ),
        decreases subquery::expr_size(predicate@), 2nat, 0nat,
    {
        let mut op: AnyOperator = input;
        let ghost whole = op.stream();
        let ghost cols = op.columns();
        let ghost limits = op.limits();
        let timeout_ctx: Option<TimeoutContext> = self.timeout_ctx();
        let schema: Arc<Schema> = op.schema();
        let evaluator: Evaluator = Evaluator::with_parameters(
            schema.clone(),
            value::clone_values(self.parameters()),
        );
        let mut out: Vec<Tuple> = Vec::new();
        let ghost mut done: nat = 0;
        assert(schema::rows_model(out@) =~= Seq::<TupleModel>::empty());
        assert(whole.rows.skip(0) =~= whole.rows);
        loop
            invariant
                op.ready(),
                op.limits() == limits,
                operator::limit_of(timeout_ctx) == self.limit(),
                whole == input.stream(),
                cols == input.columns(),
                limits == input.limits(),
                schema@ == cols,
                evaluator.columns() == cols,
                evaluator.params() == self.env().params,
                done <= whole.rows.len(),
                op.stream().rows == whole.rows.skip(done as int),
                op.stream().end == whole.end,
                semantics::correlated_rows(
                    predicate@,
                    cols,
                    whole.rows,
                    done,
                    self.env(),
                    self.ctes(),
                ) == Ok::<Seq<TupleModel>, ErrorModel>(schema::rows_model(out@)),
            ensures
                query::rows_come(
                    Ok(out),
                    semantics::unless_failing(
                        semantics::correlated_rows(
                            predicate@,
                            cols,
                            whole.rows,
                            whole.rows.len(),
                            self.env(),
                            self.ctes(),
                        ),
                        whole.end,
                    ),
                    limits.union(operator::limits_of(self.limit())),
                ),
            decreases op.stream().rows.len(),
        {
            match op.next() {
                Err(e) => {
                    return Err(e);
                },
                Ok(None) => {
                    assert(done == whole.rows.len());
                    break;
                },
                Ok(Some(row)) => {
                    match operator::check_time(&timeout_ctx) {
                        Ok(_) => {},
                        Err(e) => {
                            return Err(e);
                        },
                    }
                    assert(row@ == whole.rows[done as int]);
                    assert(whole.rows.skip(done as int).drop_first() =~= whole.rows.skip(
                        done as int + 1,
                    ));
                    let value: Result<Value, Error> = match self.materialize_subqueries_with_outer(
                        predicate,
                        &schema,
                        &row,
                    ) {
                        Ok(m) => evaluator.evaluate(&m, &row),
                        Err(e) => Err(e),
                    };
                    match value {
                        Err(e) => {
                            proof {
                                lemma_correlated_rows_stop(
                                    predicate@,
                                    cols,
                                    whole.rows,
                                    done + 1,
                                    whole.rows.len(),
                                    self.env(),
                                    self.ctes(),
                                );
                            }
                            return Err(e);
                        },
                        Ok(v) => {
                            if matches!(v, Value::Boolean(true)) {
                                let ghost was = schema::rows_model(out@);
                                out.push(row);
                                assert(schema::rows_model(out@) =~= was.push(row@));
                            }
                        },
                    }
                    proof {
                        done = done + 1;
                    }
                },
            }
        }
        Ok(out)
    }

    /// A filter over an operator.
    pub(crate) fn filter_over(
        &self,
        op: AnyOperator,
        predicate: &LogicalExpr,
        Ghost(rel): Ghost<Relation>,
    ) -> (r: Result<AnyOperator, Error>)
        requires
            op.gives(rel, self.limit()),
        ensures
            any_operator::builds(
                r,
                semantics::filter_above(
                    (Built { rel: rel, ctes: self.ctes() }),
                    predicate@,
                    self.env(),
                ),
                self.limit(),
            ),
        decreases subquery::expr_size(predicate@), 3nat, 0nat,
    {
        let schema: Arc<Schema> = op.schema();
        proof {
            operator::lemma_one_limit(op.limits(), self.limit());
        }
        if subquery::expr_has_correlated_subquery(predicate, &schema) {
            return match self.filter_correlated(op, predicate) {
                Ok(rows) => Ok(rows_at_hand(schema, rows)),
                Err(e) => Err(e),
            };
        }
        match self.materialize_subqueries(predicate) {
            Ok(m) => {
                let f: FilterOperator<AnyOperator> = FilterOperator::new(
                    Box::new(op),
                    m,
                    value::clone_values(self.parameters()),
                );
                Ok(AnyOperator::of_filter(f.with_timeout(self.timeout_ctx())))
            },
            Err(e) => Err(e),
        }
    }

    /// A filter.
    pub fn handle_filter(&mut self, input: &LogicalPlan, predicate: &LogicalExpr) -> (r: Result<
        AnyOperator,
        Error,
    >)
        ensures
            final(self).env() == old(self).env(),
            final(self).timing() == old(self).timing(),
            final(self).hints() == old(self).hints(),
            query::builds_plan(
                r,
                semantics::run_filter(input@, predicate@, old(self).env(), old(self).ctes()),
                final(self).ctes(),
                old(self).limit(),
            ),
        decreases
            subquery::plan_size(input@) + subquery::expr_size(predicate@) + 1,
            5nat,
            0nat,
    {
        proof {
            subquery::lemma_size_is_positive(predicate@);
        }
        if let Some(n) = handle_scan::scan_parts(input) {
            match self.try_indexed(&n, predicate) {
                Ok(Some(op)) => {
                    return Ok(op);
                },
                Ok(None) => {},
                Err(e) => {
                    return Err(e);
                },
            }
        }
        let ghost rel = semantics::run(input@, self.env(), self.ctes())->Ok_0.rel;
        let op: AnyOperator = match self.plan_to_operator(input) {
            Ok(op) => op,
            Err(e) => {
                return Err(e);
            },
        };
        self.filter_over(op, predicate, Ghost(rel))
    }

    /// The values of a `SELECT` list with correlated subqueries, for one row.
    fn item_values_for(
        &self,
        exprs: &Vec<LogicalExpr>,
        schema: &Arc<Schema>,
        evaluator: &Evaluator,
        row: &Tuple,
    ) -> (r: Result<Vec<Value>, Error>)
        requires
            evaluator.columns() == schema@,
            evaluator.params() == self.env().params,
        ensures
            match r {
                Ok(v) => semantics::item_values(
                    logical_plan::exprs_model(exprs@),
                    exprs@.len(),
                    schema@,
                    row@,
                    self.env(),
                    self.ctes(),
                ) == Ok::<Seq<ValueModel>, ErrorModel>(value::values_model(v@)),
                Err(e) => semantics::item_values(
                    logical_plan::exprs_model(exprs@),
                    exprs@.len(),
                    schema@,
                    row@,
                    self.env(),
                    self.ctes(),
                ) == Err::<Seq<ValueModel>, ErrorModel>(e@),
            },
        decreases
            subquery::exprs_size(logical_plan::exprs_model(exprs@), exprs@.len()),
            2nat,
            0nat,
    {
        let ghost model = logical_plan::exprs_model(exprs@);
        proof {
            logical_plan::lemma_exprs_model(exprs@);
        }
        let mut out: Vec<Value> = Vec::new();
        assert(value::values_model(out@) =~= Seq::<ValueModel>::empty());
        let mut i: usize = 0;
        while i < exprs.len()
            invariant
                evaluator.columns() == schema@,
                evaluator.params() == self.env().params,
                model == logical_plan::exprs_model(exprs@),
                model.len() == exprs@.len(),
                forall|j: int| 0 <= j < exprs@.len() ==> #[trigger] model[j] == exprs@[j]@,
                i <= exprs@.len(),
                semantics::item_values(
                    model,
                    i as nat,
                    schema@,
                    row@,
                    self.env(),
                    self.ctes(),
                ) == Ok::<Seq<ValueModel>, ErrorModel>(value::values_model(out@)),
            decreases exprs.len() - i,
        {
            proof {
                subquery::lemma_expr_in_list(model, i as int, model.len());
            }
            assert(model[i as int] == exprs@[i as int]@);
            let value: Result<Value, Error> = match self.materialize_subqueries_with_outer(
                &exprs[i],
                schema,
                row,
            ) {
                Ok(m) => evaluator.evaluate(&m, row),
                Err(e) => Err(e),
            };
            match value {
                Ok(v) => {
                    let ghost was = value::values_model(out@);
                    out.push(v);
                    assert(value::values_model(out@) =~= was.push(v@));
                },
                Err(e) => {
                    proof {
                        lemma_item_values_stop(
                            model,
                            (i + 1) as nat,
                            model.len(),
                            schema@,
                            row@,
                            self.env(),
                            self.ctes(),
                        );
                    }
                    return Err(e);
                },
            }
            i += 1;
        }
        Ok(out)
    }

    /// The rows of a `SELECT` list with correlated subqueries.
    fn project_correlated(&self, input: AnyOperator, exprs: &Vec<LogicalExpr>) -> (r: Result<
        Vec<Tuple>,
        Error,
    >)
        requires
            input.ready(),
        ensures
            query::rows_come(
                r,
                semantics::unless_failing(
                    semantics::item_rows(
                        logical_plan::exprs_model(exprs@),
                        input.columns(),
                        input.stream().rows,
                        input.stream().rows.len(),
                        self.env(),
                        self.ctes(),
                    ),
                    input.stream().end,
                ),
                input.limits().union(operator::limits_of(self.limit())),
            ),
        decreases
            subquery::exprs_size(logical_plan::exprs_model(exprs@), exprs@.len()),
            3nat,
            0nat,
    {
        let ghost model = logical_plan::exprs_model(exprs@);
        proof {
            logical_plan::lemma_exprs_model(exprs@);
        }
        let mut op: AnyOperator = input;
        let ghost whole = op.stream();
        let ghost cols = op.columns();
        let ghost limits = op.limits();
        let timeout_ctx: Option<TimeoutContext> = self.timeout_ctx();
        let schema: Arc<Schema> = op.schema();
        let evaluator: Evaluator = Evaluator::with_parameters(
            schema.clone(),
            value::clone_values(self.parameters()),
        );
        let mut out: Vec<Tuple> = Vec::new();
        let ghost mut done: nat = 0;
        assert(schema::rows_model(out@) =~= Seq::<TupleModel>::empty());
        assert(whole.rows.skip(0) =~= whole.rows);
        loop
            invariant
                op.ready(),
                op.limits() == limits,
                operator::limit_of(timeout_ctx) == self.limit(),
                whole == input.stream(),
                cols == input.columns(),
                limits == input.limits(),
                model == logical_plan::exprs_model(exprs@),
                model.len() == exprs@.len(),
                schema@ == cols,
                evaluator.columns() == cols,
                evaluator.params() == self.env().params,
                done <= whole.rows.len(),
                op.stream().rows == whole.rows.skip(done as int),
                op.stream().end == whole.end,
                semantics::item_rows(
                    model,
                    cols,
                    whole.rows,
                    done,
                    self.env(),
                    self.ctes(),
                ) == Ok::<Seq<TupleModel>, ErrorModel>(schema::rows_model(out@)),
            ensures
                query::rows_come(
                    Ok(out),
                    semantics::unless_failing(
                        semantics::item_rows(
                            model,
                            cols,
                            whole.rows,
                            whole.rows.len(),
                            self.env(),
                            self.ctes(),
                        ),
                        whole.end,
                    ),
                    limits.union(operator::limits_of(self.limit())),
                ),
            decreases op.stream().rows.len(),
        {
            match op.next() {
                Err(e) => {
                    return Err(e);
                },
                Ok(None) => {
                    assert(done == whole.rows.len());
                    break;
                },
                Ok(Some(row)) => {
                    match operator::check_time(&timeout_ctx) {
                        Ok(_) => {},
                        Err(e) => {
                            return Err(e);
                        },
                    }
                    assert(row@ == whole.rows[done as int]);
                    assert(whole.rows.skip(done as int).drop_first() =~= whole.rows.skip(
                        done as int + 1,
                    ));
                    match self.item_values_for(exprs, &schema, &evaluator, &row) {
                        Err(e) => {
                            proof {
                                lemma_item_rows_stop(
                                    model,
                                    cols,
                                    whole.rows,
                                    done + 1,
                                    whole.rows.len(),
                                    self.env(),
                                    self.ctes(),
                                );
                            }
                            return Err(e);
                        },
                        Ok(values) => {
                            let ghost was = schema::rows_model(out@);
                            let t: Tuple = Tuple { values, row_id: row.row_id, branch_id: None };
                            out.push(t);
                            assert(schema::rows_model(out@) =~= was.push(t@));
                        },
                    }
                    proof {
                        done = done + 1;
                    }
                },
            }
        }
        Ok(out)
    }

    /// A `SELECT` list, with its subqueries replaced, over an operator.
    pub(crate) fn select_over(
        &self,
        op: AnyOperator,
        exprs: &Vec<LogicalExpr>,
        aliases: &Vec<String>,
        distinct: bool,
        distinct_on: &Option<Vec<LogicalExpr>>,
        Ghost(rel): Ghost<Relation>,
    ) -> (r: Result<AnyOperator, Error>)
        requires
            op.gives(rel, self.limit()),
        ensures
            any_operator::builds(
                r,
                semantics::select_above(
                    rel,
                    logical_plan::exprs_model(exprs@),
                    schema::texts(aliases@),
                    distinct,
                    logical_plan::opt_exprs(*distinct_on),
                    self.env(),
                ),
                self.limit(),
            ),
        decreases
            subquery::exprs_size(logical_plan::exprs_model(exprs@), exprs@.len()),
            3nat,
            0nat,
    {
        let ms: Vec<LogicalExpr> = match self.materialize_list(exprs) {
            Ok(ms) => ms,
            Err(e) => {
                return Err(e);
            },
        };
        let on: Option<Vec<LogicalExpr>> = match distinct_on {
            Some(v) => Some(logical_plan::clone_exprs(v)),
            None => None,
        };
        let p: ProjectOperator<AnyOperator> = ProjectOperator::new_with_distinct_on(
            Box::new(op),
            ms,
            schema::clone_texts(aliases),
            distinct,
            on,
            value::clone_values(self.parameters()),
        );
        Ok(AnyOperator::of_project(p.with_timeout(self.timeout_ctx())))
    }

    /// A `SELECT` list over an operator.
    fn project_over(
        &self,
        op: AnyOperator,
        exprs: &Vec<LogicalExpr>,
        aliases: &Vec<String>,
        distinct: bool,
        distinct_on: &Option<Vec<LogicalExpr>>,
        Ghost(rel): Ghost<Relation>,
    ) -> (r: Result<AnyOperator, Error>)
        requires
            op.gives(rel, self.limit()),
        ensures
            any_operator::builds(
                r,
                semantics::project_above(
                    (Built { rel: rel, ctes: self.ctes() }),
                    logical_plan::exprs_model(exprs@),
                    schema::texts(aliases@),
                    distinct,
                    logical_plan::opt_exprs(*distinct_on),
                    self.env(),
                ),
                self.limit(),
            ),
        decreases
            subquery::exprs_size(logical_plan::exprs_model(exprs@), exprs@.len()),
            4nat,
            0nat,
    {
        proof {
            logical_plan::lemma_exprs_model(exprs@);
        }
        let schema: Arc<Schema> = op.schema();
        proof {
            operator::lemma_one_limit(op.limits(), self.limit());
        }
        if !distinct && distinct_on.is_none() && subquery::any_expr_correlated(exprs, &schema) {
            let shown: Schema = project::projection_schema(aliases, exprs, &schema);
            return match self.project_correlated(op, exprs) {
                Ok(rows) => Ok(rows_at_hand(Arc::new(shown), rows)),
                Err(e) => Err(e),
            };
        }
        self.select_over(op, exprs, aliases, distinct, distinct_on, Ghost(rel))
    }

    /// A `SELECT` list.
    pub fn handle_project(
        &mut self,
        input: &LogicalPlan,
        exprs: &Vec<LogicalExpr>,
        aliases: &Vec<String>,
        distinct: bool,
        distinct_on: &Option<Vec<LogicalExpr>>,
    ) -> (r: Result<AnyOperator, Error>)
        ensures
            final(self).env() == old(self).env(),
            final(self).timing() == old(self).timing(),
            final(self).hints() == old(self).hints(),
            query::builds_plan(
                r,
                semantics::run_project(
                    input@,
                    logical_plan::exprs_model(exprs@),
                    schema::texts(aliases@),
                    distinct,
                    logical_plan::opt_exprs(*distinct_on),
                    old(self).env(),
                    old(self).ctes(),
                ),
                final(self).ctes(),
                old(self).limit(),
            ),
        decreases
            subquery::plan_size(input@) + subquery::exprs_size(
                logical_plan::exprs_model(exprs@),
                exprs@.len(),
            ) + 1,
            5nat,
            0nat,
    {
        proof {
            logical_plan::lemma_exprs_model(exprs@);
            semantics::lemma_plan_size_is_positive(input@);
        }
        if has_window_function(exprs) {
            return Err(
                Error::unsupported("Operator not yet implemented: WindowFunction".to_owned()),
            );
        }
        if !distinct && distinct_on.is_none() {
            match self.handle_projected_join(input, exprs, aliases) {
                JoinAttempt::Done(r) => {
                    return r;
                },
                JoinAttempt::Declined => {},
            }
        }
        let ghost rel = semantics::run(input@, self.env(), self.ctes())->Ok_0.rel;
        let op: AnyOperator = match self.plan_to_operator(input) {
            Ok(op) => op,
            Err(e) => {
                return Err(e);
            },
        };
        self.project_over(op, exprs, aliases, distinct, distinct_on, Ghost(rel))
    }

    /// A sort over an operator.
    pub(crate) fn sort_over(
        &self,
        op: AnyOperator,
        exprs: &Vec<LogicalExpr>,
        asc: &Vec<bool>,
        Ghost(rel): Ghost<Relation>,
    ) -> (r: Result<AnyOperator, Error>)
        requires
            op.gives(rel, self.limit()),
        ensures
            any_operator::builds(
                r,
                semantics::sort_above(
                    rel,
                    logical_plan::exprs_model(exprs@),
                    asc@,
                    self.env(),
                ),
                self.limit(),
            ),
    {
        let mut op: AnyOperator = op;
        let schema: Arc<Schema> = op.schema();
        let rows: Vec<Tuple> = match operator::drain(&mut op) {
            Ok(rows) => rows,
            Err(e) => {
                return Err(e);
            },
        };
        let evaluator: Evaluator = Evaluator::with_parameters(
            schema.clone(),
            value::clone_values(self.parameters()),
        );
        match sort::sort_rows(rows, exprs, asc, &evaluator) {
            Ok(sorted) => Ok(self.rows_under_limit(schema, sorted)),
            Err(e) => Err(e),
        }
    }

    /// The first rows of a `SELECT` list over a scan.
    fn limit_list(&self, input: &LogicalPlan, limit: usize, offset: usize) -> (r: Result<
        AnyOperator,
        Error,
    >)
        requires
            semantics::is_list_over_scan(input@),
        ensures
            any_operator::builds(
                r,
                semantics::limited_list(input@, limit, offset, self.env(), self.ctes()),
                self.limit(),
            ),
        decreases subquery::plan_size(input@), 4nat, 0nat,
    {
        match input {
            LogicalPlan::Project { input: inner, exprs, aliases, distinct, distinct_on, .. } => {
                proof {
                    logical_plan::lemma_exprs_model(exprs@);
                }
                let ghost rel = semantics::scan_rows(
                    semantics::scan_node(inner@)->Some_0,
                    self.env(),
                    self.ctes(),
                )->Ok_0;
                match handle_scan::scan_parts(inner) {
                    Some(n) => match self.handle_scan(&n) {
                        Ok(op) => self.project_over(
                            limit_operator(op, limit, offset),
                            exprs,
                            aliases,
                            *distinct,
                            distinct_on,
                            Ghost(semantics::limited(rel, limit, offset)),
                        ),
                        Err(e) => Err(e),
                    },
                    None => Ok(rows_at_hand(Arc::new(Schema { columns: Vec::new() }), Vec::new())),
                }
            },
            _ => Ok(rows_at_hand(Arc::new(Schema { columns: Vec::new() }), Vec::new())),
        }
    }

    /// The first rows in some order.
    pub(crate) fn top_rows(
        &mut self,
        input: &LogicalPlan,
        exprs: &Vec<LogicalExpr>,
        asc: &Vec<bool>,
        k: usize,
    ) -> (r: Result<AnyOperator, Error>)
        ensures
            final(self).env() == old(self).env(),
            final(self).timing() == old(self).timing(),
            final(self).hints() == old(self).hints(),
            query::builds_plan(
                r,
                semantics::top_rows(
                    input@,
                    logical_plan::exprs_model(exprs@),
                    asc@,
                    k,
                    old(self).env(),
                    old(self).ctes(),
                ),
                final(self).ctes(),
                old(self).limit(),
            ),
        decreases subquery::plan_size(input@), 4nat, 0nat,
    {
        let ghost rel = semantics::run(input@, self.env(), self.ctes())->Ok_0.rel;
        let op: AnyOperator = match self.plan_to_operator(input) {
            Ok(op) => op,
            Err(e) => {
                return Err(e);
            },
        };
        match self.sort_over(op, exprs, asc, Ghost(rel)) {
            Ok(s) => Ok(limit_operator(s, k, 0)),
            Err(e) => Err(e),
        }
    }

    /// A window over a plan.
    pub(crate) fn limit_over(&mut self, input: &LogicalPlan, limit: usize, offset: usize) -> (r: Result<
        AnyOperator,
        Error,
    >)
        ensures
            final(self).env() == old(self).env(),
            final(self).timing() == old(self).timing(),
            final(self).hints() == old(self).hints(),
            query::builds_plan(
                r,
                semantics::limit_above(
                    input@,
                    limit,
                    offset,
                    old(self).env(),
                    old(self).ctes(),
                ),
                final(self).ctes(),
                old(self).limit(),
            ),
        decreases subquery::plan_size(input@), 4nat, 0nat,
    {
        match self.plan_to_operator(input) {
            Ok(op) => Ok(limit_operator(op, limit, offset)),
            Err(e) => Err(e),
        }
    }

    /// A `LIMIT` whose numbers are known.
    pub fn handle_limit(&mut self, input: &LogicalPlan, limit: usize, offset: usize) -> (r: Result<
        AnyOperator,
        Error,
    >)
        ensures
            final(self).env() == old(self).env(),
            final(self).timing() == old(self).timing(),
            final(self).hints() == old(self).hints(),
            query::builds_plan(
                r,
                semantics::limit_known(
                    input@,
                    limit,
                    offset,
                    old(self).env(),
                    old(self).ctes(),
                ),
                final(self).ctes(),
                old(self).limit(),
            ),
        decreases subquery::plan_size(input@), 6nat, 0nat,
    {
        if list_over_scan(input) {
            return self.limit_list(input, limit, offset);
        }
        if handle_scan::scan_parts_below(input).is_some() || limit == usize::MAX {
            return self.limit_over(input, limit, offset);
        }
        self.limit_sorted(input, limit, offset)
    }

    /// A union.
    pub fn handle_union(&mut self, left: &LogicalPlan, right: &LogicalPlan, all: bool) -> (r: Result<
        AnyOperator,
        Error,
    >)
        ensures
            final(self).env() == old(self).env(),
            final(self).timing() == old(self).timing(),
            final(self).hints() == old(self).hints(),
            query::builds_plan(
                r,
                semantics::run_union(left@, right@, all, old(self).env(), old(self).ctes()),
                final(self).ctes(),
                old(self).limit(),
            ),
        decreases
            subquery::plan_size(left@) + subquery::plan_size(right@),
            5nat,
            0nat,
    {
        let (mut l, mut rt): (AnyOperator, AnyOperator) = match self.both_inputs(left, right) {
            Ok(both) => both,
            Err(e) => {
                return Err(e);
            },
        };
        let schema: Arc<Schema> = l.schema();
        let left_rows: Vec<Tuple> = match operator::drain(&mut l) {
            Ok(rows) => rows,
            Err(e) => {
                return Err(e);
            },
        };
        let right_rows: Vec<Tuple> = match operator::drain(&mut rt) {
            Ok(rows) => rows,
            Err(e) => {
                return Err(e);
            },
        };
        let rows: Vec<Tuple> = rows_joined(left_rows, right_rows);
        if all {
            Ok(rows_at_hand(schema, rows))
        } else {
            Ok(rows_at_hand(schema, keep_distinct(rows)))
        }
    }

    /// An `INTERSECT` or `EXCEPT`.
    pub fn handle_set_operation(
        &mut self,
        left: &LogicalPlan,
        right: &LogicalPlan,
        op: SetOperation,
        all: bool,
    ) -> (r: Result<AnyOperator, Error>)
        ensures
            final(self).env() == old(self).env(),
            final(self).timing() == old(self).timing(),
            final(self).hints() == old(self).hints(),
            query::builds_plan(
                r,
                semantics::run_set_operation(
                    left@,
                    right@,
                    op,
                    all,
                    old(self).env(),
                    old(self).ctes(),
                ),
                final(self).ctes(),
                old(self).limit(),
            ),
        decreases
            subquery::plan_size(left@) + subquery::plan_size(right@),
            5nat,
            0nat,
    {
        let (mut l, mut rt): (AnyOperator, AnyOperator) = match self.both_inputs(left, right) {
            Ok(both) => both,
            Err(e) => {
                return Err(e);
            },
        };
        let schema: Arc<Schema> = l.schema();
        let left_rows: Vec<Tuple> = match operator::drain(&mut l) {
            Ok(rows) => rows,
            Err(e) => {
                return Err(e);
            },
        };
        let right_rows: Vec<Tuple> = match operator::drain(&mut rt) {
            Ok(rows) => rows,
            Err(e) => {
                return Err(e);
            },
        };
        Ok(rows_at_hand(schema, set_ops::pick_rows(op, all, &left_rows, &right_rows)))
    }
}

} // verus!
