//! Rows with expressions whose subqueries were asked elsewhere, row by row.

use crate::evaluator;
use crate::evaluator::Evaluator;
use crate::executor::project;
use crate::executor::semantics;
use crate::executor::semantics::Ctes;
use crate::executor::sources::Env;
use crate::executor::subquery::OuterRow;
use crate::logical_plan;
use crate::logical_plan::{ExprModel, LogicalExpr, LogicalPlan, PlanModel};
use crate::schema;
use crate::schema::{ColumnModel, Error, ErrorModel, Schema, Tuple, TupleModel};
use crate::value;
use crate::value::{Value, ValueModel};
use std::sync::Arc;
use vstd::prelude::*;

verus! {

/// What rows with a predicate each stand for.
pub open spec fn tested_model(s: Seq<(Tuple, LogicalExpr)>) -> Seq<(TupleModel, ExprModel)> {
    Seq::new(s.len(), |i: int| (s[i].0@, s[i].1@))
}

/// What rows with a list of items each stand for.
pub open spec fn listed_model(s: Seq<(Tuple, Vec<LogicalExpr>)>) -> Seq<
    (TupleModel, Seq<ExprModel>),
> {
    Seq::new(s.len(), |i: int| (s[i].0@, logical_plan::exprs_model(s[i].1@)))
}

/// The first `n` rows on which the predicate that each has is true; the first error
/// ends it.
pub open spec fn rows_where(
    s: Seq<(TupleModel, ExprModel)>,
    n: nat,
    cols: Seq<ColumnModel>,
    params: Seq<ValueModel>,
) -> Result<Seq<TupleModel>, ErrorModel>
    decreases n,
{
    if n == 0 || n > s.len() {
        Ok(Seq::empty())
    } else {
        match rows_where(s, (n - 1) as nat, cols, params) {
            Err(e) => Err(e),
            Ok(before) => match evaluator::eval(s[n - 1].1, cols, params, s[n - 1].0.values) {
                Err(e) => Err(e),
                Ok(v) => if v == ValueModel::Boolean(true) {
                    Ok(before.push(s[n - 1].0))
                } else {
                    Ok(before)
                },
            },
        }
    }
}

/// What the first `n` rows give of the items that each has; the first error ends it.
pub open spec fn rows_listed(
    s: Seq<(TupleModel, Seq<ExprModel>)>,
    n: nat,
    cols: Seq<ColumnModel>,
    params: Seq<ValueModel>,
) -> Result<Seq<TupleModel>, ErrorModel>
    decreases n,
{
    if n == 0 || n > s.len() {
        Ok(Seq::empty())
    } else {
        match rows_listed(s, (n - 1) as nat, cols, params) {
            Err(e) => Err(e),
            Ok(before) => match evaluator::eval_all(s[n - 1].1, cols, params, s[n - 1].0.values) {
                Err(e) => Err(e),
                Ok(values) => Ok(
                    before.push(
                        TupleModel { values, row_id: s[n - 1].0.row_id, branch_id: None },
                    ),
                ),
            },
        }
    }
}

/// Rows that have come, as a plan.
pub open spec fn rows_plan(
    columns: Seq<ColumnModel>,
    rows: Result<Seq<TupleModel>, ErrorModel>,
) -> Result<PlanModel, ErrorModel> {
    match rows {
        Err(e) => Err(e),
        Ok(rows) => Ok(PlanModel::Rows { schema: columns, rows }),
    }
}

pub open spec fn plan_result(r: Result<LogicalPlan, Error>) -> Result<PlanModel, ErrorModel> {
    match r {
        Ok(p) => Ok(p@),
        Err(e) => Err(e@),
    }
}

proof fn lemma_where_stops(
    s: Seq<(TupleModel, ExprModel)>,
    k: nat,
    n: nat,
    cols: Seq<ColumnModel>,
    params: Seq<ValueModel>,
)
    requires
        k <= n <= s.len(),
        rows_where(s, k, cols, params) is Err,
    ensures
        rows_where(s, n, cols, params) == rows_where(s, k, cols, params),
    decreases n,
{
    if k < n {
        lemma_where_stops(s, k, (n - 1) as nat, cols, params);
    }
}

proof fn lemma_listed_stops(
    s: Seq<(TupleModel, Seq<ExprModel>)>,
    k: nat,
    n: nat,
    cols: Seq<ColumnModel>,
    params: Seq<ValueModel>,
)
    requires
        k <= n <= s.len(),
        rows_listed(s, k, cols, params) is Err,
    ensures
        rows_listed(s, n, cols, params) == rows_listed(s, k, cols, params),
    decreases n,
{
    if k < n {
        lemma_listed_stops(s, k, (n - 1) as nat, cols, params);
    }
}

/// The rows on which the predicate that each has is true, as a plan.
pub fn keep_answered(tested: &Vec<(Tuple, LogicalExpr)>, schema: &Arc<Schema>, params: &Vec<Value>) -> (r:
    Result<LogicalPlan, Error>)
    ensures
        plan_result(r) == rows_plan(
            schema@,
            rows_where(
                tested_model(tested@),
                tested@.len(),
                schema@,
                value::values_model(params@),
            ),
        ),
{
    let ghost model = tested_model(tested@);
    let ghost ps = value::values_model(params@);
    let evaluator: Evaluator = Evaluator::with_parameters(
        schema.clone(),
        value::clone_values(params),
    );
    let mut rows: Vec<Tuple> = Vec::new();
    assert(schema::rows_model(rows@) =~= Seq::<TupleModel>::empty());
    let mut i: usize = 0;
    while i < tested.len()
        invariant
            model == tested_model(tested@),
            evaluator.columns() == schema@,
            evaluator.params() == ps,
            ps == value::values_model(params@),
            i <= tested@.len(),
            rows_where(model, i as nat, schema@, ps) == Ok::<Seq<TupleModel>, ErrorModel>(
                schema::rows_model(rows@),
            ),
        decreases tested.len() - i,
    {
        assert(model[i as int] == (tested@[i as int].0@, tested@[i as int].1@));
        match evaluator.evaluate(&tested[i].1, &tested[i].0) {
            Err(e) => {
                proof {
                    lemma_where_stops(model, (i + 1) as nat, model.len(), schema@, ps);
                }
                return Err(e);
            },
            Ok(v) => {
                if matches!(v, Value::Boolean(true)) {
                    let ghost was = schema::rows_model(rows@);
                    let t: Tuple = tested[i].0.clone();
                    rows.push(t);
                    assert(schema::rows_model(rows@) =~= was.push(t@));
                }
            },
        }
        i += 1;
    }
    Ok(LogicalPlan::Rows { schema: schema.clone(), rows })
}

/// What rows give of the items that each has, as a plan with the columns of a
/// `SELECT` list.
pub fn list_answered(
    listed: &Vec<(Tuple, Vec<LogicalExpr>)>,
    exprs: &Vec<LogicalExpr>,
    aliases: &Vec<String>,
    schema: &Arc<Schema>,
    params: &Vec<Value>,
) -> (r: Result<LogicalPlan, Error>)
    ensures
        plan_result(r) == rows_plan(
            project::output_columns(
                schema::texts(aliases@),
                logical_plan::exprs_model(exprs@),
                schema@,
            ),
            rows_listed(
                listed_model(listed@),
                listed@.len(),
                schema@,
                value::values_model(params@),
            ),
        ),
{
    let ghost model = listed_model(listed@);
    let ghost ps = value::values_model(params@);
    let evaluator: Evaluator = Evaluator::with_parameters(
        schema.clone(),
        value::clone_values(params),
    );
    let mut rows: Vec<Tuple> = Vec::new();
    assert(schema::rows_model(rows@) =~= Seq::<TupleModel>::empty());
    let mut i: usize = 0;
    while i < listed.len()
        invariant
            model == listed_model(listed@),
            evaluator.columns() == schema@,
            evaluator.params() == ps,
            ps == value::values_model(params@),
            i <= listed@.len(),
            rows_listed(model, i as nat, schema@, ps) == Ok::<Seq<TupleModel>, ErrorModel>(
                schema::rows_model(rows@),
            ),
        decreases listed.len() - i,
    {
        assert(model[i as int] == (
            listed@[i as int].0@,
            logical_plan::exprs_model(listed@[i as int].1@),
        ));
        match evaluator.evaluate_all(&listed[i].1, &listed[i].0) {
            Err(e) => {
                proof {
                    lemma_listed_stops(model, (i + 1) as nat, model.len(), schema@, ps);
                }
                return Err(e);
            },
            Ok(values) => {
                let ghost was = schema::rows_model(rows@);
                let mut t: Tuple = Tuple::new(values);
                t.row_id = listed[i].0.row_id;
                rows.push(t);
                assert(schema::rows_model(rows@) =~= was.push(t@));
            },
        }
        i += 1;
    }
    let columns: Schema = project::projection_schema(aliases, exprs, schema);
    Ok(LogicalPlan::Rows { schema: Arc::new(columns), rows })
}

/// Rows whose predicates were answered elsewhere as a subquery would be answered here
/// are kept as a filter with that subquery keeps them.
pub proof fn law_answers_filter_as_subqueries_do(
    predicate: ExprModel,
    cols: Seq<ColumnModel>,
    s: Seq<(TupleModel, ExprModel)>,
    n: nat,
    env: Env,
    ctes: Ctes,
)
    requires
        n <= s.len(),
        forall|i: int|
            0 <= i < n ==> semantics::materialized_for(
                predicate,
                (OuterRow { cols, row: (#[trigger] s[i]).0.values }),
                env,
                ctes,
            ) == Ok::<ExprModel, ErrorModel>(s[i].1),
    ensures
        rows_where(s, n, cols, env.params) == semantics::correlated_rows(
            predicate,
            cols,
            Seq::new(s.len(), |i: int| s[i].0),
            n,
            env,
            ctes,
        ),
    decreases n,
{
    if n > 0 {
        law_answers_filter_as_subqueries_do(predicate, cols, s, (n - 1) as nat, env, ctes);
        assert(s[n - 1].0 == Seq::new(s.len(), |i: int| s[i].0)[n - 1]);
    }
}

proof fn lemma_items_as_subqueries_do(
    exprs: Seq<ExprModel>,
    n: nat,
    cols: Seq<ColumnModel>,
    row: TupleModel,
    items: Seq<ExprModel>,
    env: Env,
    ctes: Ctes,
)
    requires
        n <= exprs.len(),
        semantics::list_for(exprs, n, (OuterRow { cols, row: row.values }), env, ctes) == Ok::<
            Seq<ExprModel>,
            ErrorModel,
        >(items),
    ensures
        semantics::item_values(exprs, n, cols, row, env, ctes) == evaluator::eval_all(
            items,
            cols,
            env.params,
            row.values,
        ),
        items.len() == n,
    decreases n,
{
    if n > 0 {
        let o = OuterRow { cols, row: row.values };
        let before = semantics::list_for(exprs, (n - 1) as nat, o, env, ctes)->Ok_0;
        lemma_items_as_subqueries_do(exprs, (n - 1) as nat, cols, row, before, env, ctes);
        assert(items.drop_last() =~= before);
    }
}

/// Items that were answered elsewhere as a subquery would be answered here give the
/// rows that a list with that subquery gives.
pub proof fn law_answers_list_as_subqueries_do(
    exprs: Seq<ExprModel>,
    cols: Seq<ColumnModel>,
    s: Seq<(TupleModel, Seq<ExprModel>)>,
    n: nat,
    env: Env,
    ctes: Ctes,
)
    requires
        n <= s.len(),
        forall|i: int|
            0 <= i < n ==> semantics::list_for(
                exprs,
                exprs.len(),
                (OuterRow { cols, row: (#[trigger] s[i]).0.values }),
                env,
                ctes,
            ) == Ok::<Seq<ExprModel>, ErrorModel>(s[i].1),
    ensures
        rows_listed(s, n, cols, env.params) == semantics::item_rows(
            exprs,
            cols,
            Seq::new(s.len(), |i: int| s[i].0),
            n,
            env,
            ctes,
        ),
    decreases n,
{
    if n > 0 {
        law_answers_list_as_subqueries_do(exprs, cols, s, (n - 1) as nat, env, ctes);
        assert(s[n - 1].0 == Seq::new(s.len(), |i: int| s[i].0)[n - 1]);
        lemma_items_as_subqueries_do(exprs, exprs.len(), cols, s[n - 1].0, s[n - 1].1, env, ctes);
    }
}

} // verus!
