//! Subqueries inside expressions, replaced by what they give.

use crate::executor::query::Executor;
use crate::executor::semantics;
use crate::executor::semantics::Ctes;
use crate::executor::sort;
use crate::executor::sources::Env;
use crate::executor::subquery;
use crate::executor::subquery::OuterRow;
use crate::logical_plan;
use crate::logical_plan::{ExprModel, LogicalExpr, LogicalPlan};
use crate::schema;
use crate::schema::{Error, ErrorModel, Schema, Tuple, TupleModel};
use crate::value;
use crate::value::Value;
use vstd::prelude::*;

verus! {

pub open spec fn expr_result(r: Result<LogicalExpr, Error>) -> Result<ExprModel, ErrorModel> {
    match r {
        Ok(e) => Ok(e@),
        Err(e) => Err(e@),
    }
}

pub open spec fn exprs_result(r: Result<Vec<LogicalExpr>, Error>) -> Result<
    Seq<ExprModel>,
    ErrorModel,
> {
    match r {
        Ok(v) => Ok(logical_plan::exprs_model(v@)),
        Err(e) => Err(e@),
    }
}

pub open spec fn pairs_result(r: Result<Vec<(LogicalExpr, LogicalExpr)>, Error>) -> Result<
    Seq<(ExprModel, ExprModel)>,
    ErrorModel,
> {
    match r {
        Ok(v) => Ok(logical_plan::pairs_model(v@)),
        Err(e) => Err(e@),
    }
}

pub open spec fn opt_boxed(e: Option<Box<LogicalExpr>>) -> Option<Box<ExprModel>> {
    match e {
        Some(b) => Some(Box::new(b@)),
        None => None,
    }
}

pub open spec fn opt_boxed_result(r: Result<Option<Box<LogicalExpr>>, Error>) -> Result<
    Option<Box<ExprModel>>,
    ErrorModel,
> {
    match r {
        Ok(e) => Ok(opt_boxed(e)),
        Err(e) => Err(e@),
    }
}

/// A list that fails at some item fails as a whole.
pub proof fn lemma_list_stops(s: Seq<ExprModel>, k: nat, n: nat, env: Env)
    requires
        k <= n <= s.len(),
        semantics::materialized_list(s, k, env) is Err,
    ensures
        semantics::materialized_list(s, n, env) == semantics::materialized_list(s, k, env),
    decreases n,
{
    if k < n {
        lemma_list_stops(s, k, (n - 1) as nat, env);
    }
}

/// A list of branches that fails at some branch fails as a whole.
pub proof fn lemma_pairs_stop(s: Seq<(ExprModel, ExprModel)>, k: nat, n: nat, env: Env)
    requires
        k <= n <= s.len(),
        semantics::materialized_pairs(s, k, env) is Err,
    ensures
        semantics::materialized_pairs(s, n, env) == semantics::materialized_pairs(s, k, env),
    decreases n,
{
    if k < n {
        lemma_pairs_stop(s, k, (n - 1) as nat, env);
    }
}

proof fn lemma_list_for_stops(
    s: Seq<ExprModel>,
    k: nat,
    n: nat,
    o: OuterRow,
    env: Env,
    ctes: Ctes,
)
    requires
        k <= n <= s.len(),
        semantics::list_for(s, k, o, env, ctes) is Err,
    ensures
        semantics::list_for(s, n, o, env, ctes) == semantics::list_for(s, k, o, env, ctes),
    decreases n,
{
    if k < n {
        lemma_list_for_stops(s, k, (n - 1) as nat, o, env, ctes);
    }
}

proof fn lemma_pairs_for_stop(
    s: Seq<(ExprModel, ExprModel)>,
    k: nat,
    n: nat,
    o: OuterRow,
    env: Env,
    ctes: Ctes,
)
    requires
        k <= n <= s.len(),
        semantics::pairs_for(s, k, o, env, ctes) is Err,
    ensures
        semantics::pairs_for(s, n, o, env, ctes) == semantics::pairs_for(s, k, o, env, ctes),
    decreases n,
{
    if k < n {
        lemma_pairs_for_stop(s, k, (n - 1) as nat, o, env, ctes);
    }
}

/// The first values of rows.
fn collect_first_values(rows: &Vec<Tuple>) -> (r: Vec<Value>)
    ensures
        value::values_model(r@) == semantics::first_values(
            schema::rows_model(rows@),
            rows@.len(),
        ),
{
    let ghost model = schema::rows_model(rows@);
    let mut out: Vec<Value> = Vec::new();
    assert(value::values_model(out@) =~= semantics::first_values(model, 0));
    let mut i: usize = 0;
    while i < rows.len()
        invariant
            model == schema::rows_model(rows@),
            i <= rows@.len(),
            value::values_model(out@) == semantics::first_values(model, i as nat),
        decreases rows.len() - i,
    {
        if rows[i].values.len() > 0 {
            let ghost was = value::values_model(out@);
            let v: Value = rows[i].values[0].clone();
            out.push(v);
            assert(value::values_model(out@) =~= was.push(v@));
            assert(model[i as int].values[0] == v@);
        }
        i += 1;
    }
    out
}

fn values_as_literals(values: Vec<Value>) -> (r: Vec<LogicalExpr>)
    ensures
        logical_plan::exprs_model(r@) == semantics::literals(value::values_model(values@)),
{
    let mut out: Vec<LogicalExpr> = Vec::new();
    let mut i: usize = 0;
    while i < values.len()
        invariant
            i <= values@.len(),
            out@.len() == i,
            forall|j: int|
                0 <= j < i ==> (#[trigger] out@[j])@ == ExprModel::Literal(values@[j]@),
        decreases values.len() - i,
    {
        out.push(LogicalExpr::Literal(values[i].clone()));
        i += 1;
    }
    assert(logical_plan::exprs_model(out@) =~= semantics::literals(value::values_model(values@)));
    out
}

/// `IN` over the rows of a subquery.
fn build_membership(expr: LogicalExpr, rows: &Vec<Tuple>, negated: bool, as_set: bool) -> (r:
    LogicalExpr)
    ensures
        r@ == semantics::membership(expr@, schema::rows_model(rows@), negated, as_set),
{
    let values: Vec<Value> = collect_first_values(rows);
    if as_set && rows.len() > 16 {
        LogicalExpr::InSet { expr: Box::new(expr), values, negated }
    } else {
        LogicalExpr::InList { expr: Box::new(expr), list: values_as_literals(values), negated }
    }
}

/// The value of a scalar subquery.
fn scalar_of_rows(rows: &Vec<Tuple>) -> (r: Value)
    ensures
        r@ == semantics::scalar(schema::rows_model(rows@)),
{
    if rows.len() > 0 && rows[0].values.len() > 0 {
        let v: Value = rows[0].values[0].clone();
        assert(schema::rows_model(rows@)[0].values[0] == v@);
        v
    } else {
        Value::Null
    }
}

/// The rows that a subquery is answered with.
fn answer_of(rows: Result<Vec<Tuple>, Error>) -> (r: Result<Vec<Tuple>, Error>)
    ensures
        sort::rows_result(r) == semantics::answered_rows(sort::rows_result(rows)),
{
    match rows {
        Ok(rows) => Ok(rows),
        Err(e) => {
            if e.is_refusal() {
                Err(e)
            } else {
                let none: Vec<Tuple> = Vec::new();
                assert(schema::rows_model(none@) =~= Seq::<TupleModel>::empty());
                Ok(none)
            }
        },
    }
}

impl<'a> Executor<'a> {
    /// An expression with its subqueries replaced by what they give.
    pub fn materialize_subqueries(&self, expr: &LogicalExpr) -> (r: Result<LogicalExpr, Error>)
        ensures
            expr_result(r) == semantics::materialized(expr@, self.env()),
        decreases subquery::expr_size(expr@), 1nat, 0nat,
    {
        match expr {
            LogicalExpr::InSubquery { expr: inner, subquery, negated } => {
                let mut ex: Executor<'a> = self.for_subquery();
                let rows: Vec<Tuple> = match ex.execute(subquery) {
                    Ok(rows) => rows,
                    Err(e) => {
                        return Err(e);
                    },
                };
                match self.materialize_subqueries(inner) {
                    Ok(m) => Ok(build_membership(m, &rows, *negated, true)),
                    Err(e) => Err(e),
                }
            },
            LogicalExpr::ScalarSubquery { subquery } => {
                let mut ex: Executor<'a> = self.for_subquery();
                match answer_of(ex.execute(subquery)) {
                    Ok(rows) => Ok(LogicalExpr::Literal(scalar_of_rows(&rows))),
                    Err(e) => Err(e),
                }
            },
            LogicalExpr::Exists { subquery, negated } => {
                let mut ex: Executor<'a> = self.for_subquery();
                match answer_of(ex.execute(subquery)) {
                    Ok(rows) => Ok(
                        LogicalExpr::Literal(Value::Boolean((rows.len() > 0) != *negated)),
                    ),
                    Err(e) => Err(e),
                }
            },
            LogicalExpr::BinaryExpr { left, op, right } => {
                let l: LogicalExpr = match self.materialize_subqueries(left) {
                    Ok(l) => l,
                    Err(e) => {
                        return Err(e);
                    },
                };
                match self.materialize_subqueries(right) {
                    Ok(rt) => Ok(
                        LogicalExpr::BinaryExpr {
                            left: Box::new(l),
                            op: *op,
                            right: Box::new(rt),
                        },
                    ),
                    Err(e) => Err(e),
                }
            },
            LogicalExpr::UnaryExpr { op, expr: inner } => match self.materialize_subqueries(inner) {
                Ok(m) => Ok(LogicalExpr::UnaryExpr { op: *op, expr: Box::new(m) }),
                Err(e) => Err(e),
            },
            LogicalExpr::IsNull { expr: inner, is_null } => match self.materialize_subqueries(
                inner,
            ) {
                Ok(m) => Ok(LogicalExpr::IsNull { expr: Box::new(m), is_null: *is_null }),
                Err(e) => Err(e),
            },
            LogicalExpr::Between { expr: inner, low, high, negated } => {
                let x: LogicalExpr = match self.materialize_subqueries(inner) {
                    Ok(x) => x,
                    Err(e) => {
                        return Err(e);
                    },
                };
                let l: LogicalExpr = match self.materialize_subqueries(low) {
                    Ok(x) => x,
                    Err(e) => {
                        return Err(e);
                    },
                };
                match self.materialize_subqueries(high) {
                    Ok(h) => Ok(
                        LogicalExpr::Between {
                            expr: Box::new(x),
                            low: Box::new(l),
                            high: Box::new(h),
                            negated: *negated,
                        },
                    ),
                    Err(e) => Err(e),
                }
            },
            LogicalExpr::InList { expr: inner, list, negated } => {
                proof {
                    subquery::lemma_size_is_positive(inner@);
                    logical_plan::lemma_exprs_model(list@);
                }
                let x: LogicalExpr = match self.materialize_subqueries(inner) {
                    Ok(x) => x,
                    Err(e) => {
                        return Err(e);
                    },
                };
                match self.materialize_list(list) {
                    Ok(l) => Ok(
                        LogicalExpr::InList { expr: Box::new(x), list: l, negated: *negated },
                    ),
                    Err(e) => Err(e),
                }
            },
            LogicalExpr::Case { expr: inner, when_then, else_result } => {
                proof {
                    logical_plan::lemma_pairs_model(when_then@);
                }
                let x: Option<Box<LogicalExpr>> = match self.materialize_opt(inner) {
                    Ok(x) => x,
                    Err(e) => {
                        return Err(e);
                    },
                };
                let y: Option<Box<LogicalExpr>> = match self.materialize_opt(else_result) {
                    Ok(y) => y,
                    Err(e) => {
                        return Err(e);
                    },
                };
                match self.materialize_pairs(when_then) {
                    Ok(w) => Ok(LogicalExpr::Case { expr: x, when_then: w, else_result: y }),
                    Err(e) => Err(e),
                }
            },
            _ => Ok(expr.clone()),
        }
    }

    fn materialize_opt(&self, e: &Option<Box<LogicalExpr>>) -> (r: Result<
        Option<Box<LogicalExpr>>,
        Error,
    >)
        ensures
            opt_boxed_result(r) == semantics::materialized_opt(opt_boxed(*e), self.env()),
        decreases semantics::opt_expr_size(opt_boxed(*e)), 2nat, 0nat,
    {
        match e {
            None => Ok(None),
            Some(b) => match self.materialize_subqueries(b) {
                Ok(m) => Ok(Some(Box::new(m))),
                Err(err) => Err(err),
            },
        }
    }

    /// A list of expressions with their subqueries replaced.
    pub fn materialize_list(&self, v: &Vec<LogicalExpr>) -> (r: Result<Vec<LogicalExpr>, Error>)
        ensures
            exprs_result(r) == semantics::materialized_list(
                logical_plan::exprs_model(v@),
                v@.len(),
                self.env(),
            ),
        decreases
            subquery::exprs_size(logical_plan::exprs_model(v@), v@.len()),
            2nat,
            0nat,
    {
        let ghost model = logical_plan::exprs_model(v@);
        let mut out: Vec<LogicalExpr> = Vec::new();
        proof {
            logical_plan::lemma_exprs_model(v@);
            assert(logical_plan::exprs_model(out@) =~= Seq::<ExprModel>::empty());
        }
        let mut i: usize = 0;
        while i < v.len()
            invariant
                model == logical_plan::exprs_model(v@),
                model.len() == v@.len(),
                forall|j: int| 0 <= j < v@.len() ==> #[trigger] model[j] == v@[j]@,
                i <= v@.len(),
                semantics::materialized_list(model, i as nat, self.env()) == Ok::<
                    Seq<ExprModel>,
                    ErrorModel,
                >(logical_plan::exprs_model(out@)),
            decreases v.len() - i,
        {
            proof {
                subquery::lemma_expr_in_list(model, i as int, model.len());
            }
            assert(model[i as int] == v@[i as int]@);
            match self.materialize_subqueries(&v[i]) {
                Ok(m) => {
                    proof {
                        logical_plan::lemma_exprs_model_push(out@, m);
                    }
                    out.push(m);
                },
                Err(e) => {
                    proof {
                        lemma_list_stops(model, (i + 1) as nat, model.len(), self.env());
                    }
                    return Err(e);
                },
            }
            i += 1;
        }
        Ok(out)
    }

    fn materialize_pairs(&self, v: &Vec<(LogicalExpr, LogicalExpr)>) -> (r: Result<
        Vec<(LogicalExpr, LogicalExpr)>,
        Error,
    >)
        ensures
            pairs_result(r) == semantics::materialized_pairs(
                logical_plan::pairs_model(v@),
                v@.len(),
                self.env(),
            ),
        decreases
            subquery::pairs_size(logical_plan::pairs_model(v@), v@.len()),
            2nat,
            0nat,
    {
        let ghost model = logical_plan::pairs_model(v@);
        let mut out: Vec<(LogicalExpr, LogicalExpr)> = Vec::new();
        proof {
            logical_plan::lemma_pairs_model(v@);
            assert(logical_plan::pairs_model(out@) =~= Seq::<(ExprModel, ExprModel)>::empty());
        }
        let mut i: usize = 0;
        while i < v.len()
            invariant
                model == logical_plan::pairs_model(v@),
                model.len() == v@.len(),
                forall|j: int|
                    0 <= j < v@.len() ==> #[trigger] model[j] == (v@[j].0@, v@[j].1@),
                i <= v@.len(),
                semantics::materialized_pairs(model, i as nat, self.env()) == Ok::<
                    Seq<(ExprModel, ExprModel)>,
                    ErrorModel,
                >(logical_plan::pairs_model(out@)),
            decreases v.len() - i,
        {
            proof {
                subquery::lemma_pair_in_list(model, i as int, model.len());
            }
            assert(model[i as int] == (v@[i as int].0@, v@[i as int].1@));
            let w: LogicalExpr = match self.materialize_subqueries(&v[i].0) {
                Ok(w) => w,
                Err(e) => {
                    proof {
                        lemma_pairs_stop(model, (i + 1) as nat, model.len(), self.env());
                    }
                    return Err(e);
                },
            };
            match self.materialize_subqueries(&v[i].1) {
                Ok(t) => {
                    let ghost was = logical_plan::pairs_model(out@);
                    out.push((w, t));
                    assert(logical_plan::pairs_model(out@) =~= was.push((w@, t@)));
                },
                Err(e) => {
                    proof {
                        lemma_pairs_stop(model, (i + 1) as nat, model.len(), self.env());
                    }
                    return Err(e);
                },
            }
            i += 1;
        }
        Ok(out)
    }

    /// The rows that a subquery is answered with for one outer row.
    fn rows_for_outer(&self, plan: &LogicalPlan, outer: &Schema, row: &Tuple) -> (r: Result<
        Vec<Tuple>,
        Error,
    >)
        ensures
            sort::rows_result(r) == semantics::rows_for(
                plan@,
                (OuterRow { cols: outer@, row: row@.values }),
                self.env(),
                self.ctes(),
            ),
        decreases subquery::plan_size(plan@), 5nat, 0nat,
    {
        let bound: LogicalPlan = subquery::bind_plan_to_outer(plan, outer, row);
        proof {
            subquery::lemma_filled_plan_size(
                plan@,
                (OuterRow { cols: outer@, row: row@.values }),
            );
        }
        let mut ex: Executor<'a> = self.for_correlated_subquery();
        answer_of(ex.execute(&bound))
    }

    /// An expression with its subqueries replaced by what they give for one
    /// outer row.
    pub fn materialize_subqueries_with_outer(
        &self,
        expr: &LogicalExpr,
        outer: &Schema,
        row: &Tuple,
    ) -> (r: Result<LogicalExpr, Error>)
        ensures
            expr_result(r) == semantics::materialized_for(
                expr@,
                (OuterRow { cols: outer@, row: row@.values }),
                self.env(),
                self.ctes(),
            ),
        decreases subquery::expr_size(expr@), 1nat, 0nat,
    {
        match expr {
            LogicalExpr::InSubquery { expr: inner, subquery, negated } => {
                proof {
                    subquery::lemma_size_is_positive(inner@);
                }
                let rows: Vec<Tuple> = match self.rows_for_outer(subquery, outer, row) {
                    Ok(rows) => rows,
                    Err(e) => {
                        return Err(e);
                    },
                };
                match self.materialize_subqueries_with_outer(inner, outer, row) {
                    Ok(m) => Ok(build_membership(m, &rows, *negated, false)),
                    Err(e) => Err(e),
                }
            },
            LogicalExpr::ScalarSubquery { subquery } => match self.rows_for_outer(
                subquery,
                outer,
                row,
            ) {
                Ok(rows) => Ok(LogicalExpr::Literal(scalar_of_rows(&rows))),
                Err(e) => Err(e),
            },
            LogicalExpr::Exists { subquery, negated } => match self.rows_for_outer(
                subquery,
                outer,
                row,
            ) {
                Ok(rows) => Ok(
                    LogicalExpr::Literal(Value::Boolean((rows.len() > 0) != *negated)),
                ),
                Err(e) => Err(e),
            },
            LogicalExpr::BinaryExpr { left, op, right } => {
                let l: LogicalExpr = match self.materialize_subqueries_with_outer(left, outer, row) {
                    Ok(l) => l,
                    Err(e) => {
                        return Err(e);
                    },
                };
                match self.materialize_subqueries_with_outer(right, outer, row) {
                    Ok(rt) => Ok(
                        LogicalExpr::BinaryExpr {
                            left: Box::new(l),
                            op: *op,
                            right: Box::new(rt),
                        },
                    ),
                    Err(e) => Err(e),
                }
            },
            LogicalExpr::UnaryExpr { op, expr: inner } => match self.materialize_subqueries_with_outer(
                inner,
                outer,
                row,
            ) {
                Ok(m) => Ok(LogicalExpr::UnaryExpr { op: *op, expr: Box::new(m) }),
                Err(e) => Err(e),
            },
            LogicalExpr::IsNull { expr: inner, is_null } => match self.materialize_subqueries_with_outer(
                inner,
                outer,
                row,
            ) {
                Ok(m) => Ok(LogicalExpr::IsNull { expr: Box::new(m), is_null: *is_null }),
                Err(e) => Err(e),
            },
            LogicalExpr::Between { expr: inner, low, high, negated } => {
                let x: LogicalExpr = match self.materialize_subqueries_with_outer(inner, outer, row) {
                    Ok(x) => x,
                    Err(e) => {
                        return Err(e);
                    },
                };
                let l: LogicalExpr = match self.materialize_subqueries_with_outer(low, outer, row) {
                    Ok(x) => x,
                    Err(e) => {
                        return Err(e);
                    },
                };
                match self.materialize_subqueries_with_outer(high, outer, row) {
                    Ok(h) => Ok(
                        LogicalExpr::Between {
                            expr: Box::new(x),
                            low: Box::new(l),
                            high: Box::new(h),
                            negated: *negated,
                        },
                    ),
                    Err(e) => Err(e),
                }
            },
            LogicalExpr::InList { expr: inner, list, negated } => {
                proof {
                    subquery::lemma_size_is_positive(inner@);
                    logical_plan::lemma_exprs_model(list@);
                }
                let x: LogicalExpr = match self.materialize_subqueries_with_outer(inner, outer, row) {
                    Ok(x) => x,
                    Err(e) => {
                        return Err(e);
                    },
                };
                match self.materialize_list_with_outer(list, outer, row) {
                    Ok(l) => Ok(
                        LogicalExpr::InList { expr: Box::new(x), list: l, negated: *negated },
                    ),
                    Err(e) => Err(e),
                }
            },
            LogicalExpr::Case { expr: inner, when_then, else_result } => {
                proof {
                    logical_plan::lemma_pairs_model(when_then@);
                }
                let x: Option<Box<LogicalExpr>> = match self.materialize_opt_with_outer(
                    inner,
                    outer,
                    row,
                ) {
                    Ok(x) => x,
                    Err(e) => {
                        return Err(e);
                    },
                };
                let y: Option<Box<LogicalExpr>> = match self.materialize_opt_with_outer(
                    else_result,
                    outer,
                    row,
                ) {
                    Ok(y) => y,
                    Err(e) => {
                        return Err(e);
                    },
                };
                match self.materialize_pairs_with_outer(when_then, outer, row) {
                    Ok(w) => Ok(LogicalExpr::Case { expr: x, when_then: w, else_result: y }),
                    Err(e) => Err(e),
                }
            },
            _ => Ok(expr.clone()),
        }
    }

    fn materialize_opt_with_outer(
        &self,
        e: &Option<Box<LogicalExpr>>,
        outer: &Schema,
        row: &Tuple,
    ) -> (r: Result<
        Option<Box<LogicalExpr>>,
        Error,
    >)
        ensures
            opt_boxed_result(r) == semantics::opt_for(
                opt_boxed(*e),
                (OuterRow { cols: outer@, row: row@.values }),
                self.env(),
                self.ctes(),
            ),
        decreases semantics::opt_expr_size(opt_boxed(*e)), 2nat, 0nat,
    {
        match e {
            None => Ok(None),
            Some(b) => match self.materialize_subqueries_with_outer(b, outer, row) {
                Ok(m) => Ok(Some(Box::new(m))),
                Err(err) => Err(err),
            },
        }
    }

    fn materialize_list_with_outer(&self, v: &Vec<LogicalExpr>, outer: &Schema, row: &Tuple) -> (r: Result<Vec<LogicalExpr>, Error>)
        ensures
            exprs_result(r) == semantics::list_for(
                logical_plan::exprs_model(v@),
                v@.len(),
                (OuterRow { cols: outer@, row: row@.values }),
                self.env(),
                self.ctes(),
            ),
        decreases
            subquery::exprs_size(logical_plan::exprs_model(v@), v@.len()),
            2nat,
            0nat,
    {
        let ghost model = logical_plan::exprs_model(v@);
        let ghost o = OuterRow { cols: outer@, row: row@.values };
        let mut out: Vec<LogicalExpr> = Vec::new();
        proof {
            logical_plan::lemma_exprs_model(v@);
            assert(logical_plan::exprs_model(out@) =~= Seq::<ExprModel>::empty());
        }
        let mut i: usize = 0;
        while i < v.len()
            invariant
                model == logical_plan::exprs_model(v@),
                o == (OuterRow { cols: outer@, row: row@.values }),
                model.len() == v@.len(),
                forall|j: int| 0 <= j < v@.len() ==> #[trigger] model[j] == v@[j]@,
                i <= v@.len(),
                semantics::list_for(model, i as nat, o, self.env(), self.ctes()) == Ok::<
                    Seq<ExprModel>,
                    ErrorModel,
                >(logical_plan::exprs_model(out@)),
            decreases v.len() - i,
        {
            proof {
                subquery::lemma_expr_in_list(model, i as int, model.len());
            }
            assert(model[i as int] == v@[i as int]@);
            match self.materialize_subqueries_with_outer(&v[i], outer, row) {
                Ok(m) => {
                    proof {
                        logical_plan::lemma_exprs_model_push(out@, m);
                    }
                    out.push(m);
                },
                Err(e) => {
                    proof {
                        lemma_list_for_stops(model, (i + 1) as nat, model.len(), o, self.env(), self.ctes());
                    }
                    return Err(e);
                },
            }
            i += 1;
        }
        Ok(out)
    }

    fn materialize_pairs_with_outer(
        &self,
        v: &Vec<(LogicalExpr, LogicalExpr)>,
        outer: &Schema,
        row: &Tuple,
    ) -> (r: Result<
        Vec<(LogicalExpr, LogicalExpr)>,
        Error,
    >)
        ensures
            pairs_result(r) == semantics::pairs_for(
                logical_plan::pairs_model(v@),
                v@.len(),
                (OuterRow { cols: outer@, row: row@.values }),
                self.env(),
                self.ctes(),
            ),
        decreases
            subquery::pairs_size(logical_plan::pairs_model(v@), v@.len()),
            2nat,
            0nat,
    {
        let ghost model = logical_plan::pairs_model(v@);
        let ghost o = OuterRow { cols: outer@, row: row@.values };
        let mut out: Vec<(LogicalExpr, LogicalExpr)> = Vec::new();
        proof {
            logical_plan::lemma_pairs_model(v@);
            assert(logical_plan::pairs_model(out@) =~= Seq::<(ExprModel, ExprModel)>::empty());
        }
        let mut i: usize = 0;
        while i < v.len()
            invariant
                model == logical_plan::pairs_model(v@),
                o == (OuterRow { cols: outer@, row: row@.values }),
                model.len() == v@.len(),
                forall|j: int|
                    0 <= j < v@.len() ==> #[trigger] model[j] == (v@[j].0@, v@[j].1@),
                i <= v@.len(),
                semantics::pairs_for(model, i as nat, o, self.env(), self.ctes()) == Ok::<
                    Seq<(ExprModel, ExprModel)>,
                    ErrorModel,
                >(logical_plan::pairs_model(out@)),
            decreases v.len() - i,
        {
            proof {
                subquery::lemma_pair_in_list(model, i as int, model.len());
            }
            assert(model[i as int] == (v@[i as int].0@, v@[i as int].1@));
            let w: LogicalExpr = match self.materialize_subqueries_with_outer(&v[i].0, outer, row) {
                Ok(w) => w,
                Err(e) => {
                    proof {
                        lemma_pairs_for_stop(model, (i + 1) as nat, model.len(), o, self.env(), self.ctes());
                    }
                    return Err(e);
                },
            };
            match self.materialize_subqueries_with_outer(&v[i].1, outer, row) {
                Ok(t) => {
                    let ghost was = logical_plan::pairs_model(out@);
                    out.push((w, t));
                    assert(logical_plan::pairs_model(out@) =~= was.push((w@, t@)));
                },
                Err(e) => {
                    proof {
                        lemma_pairs_for_stop(model, (i + 1) as nat, model.len(), o, self.env(), self.ctes());
                    }
                    return Err(e);
                },
            }
            i += 1;
        }
        Ok(out)
    }
}

} // verus!
