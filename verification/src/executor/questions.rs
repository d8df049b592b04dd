//! Which parts of a plan are left to the database around the executor, or may be
//! answered by it.

use crate::executor::handle_count;
use crate::executor::handle_rows;
use crate::executor::semantics;
use crate::expr_tree;
use crate::logical_plan;
use crate::logical_plan::{ExprModel, LogicalExpr, LogicalPlan, PlanModel};
use vstd::prelude::*;

verus! {

/// Whether a plan is a sort, or a `SELECT` list over one.
pub open spec fn is_sorted(p: PlanModel) -> bool {
    match p {
        PlanModel::Sort { input, exprs, asc } => true,
        PlanModel::Project { input, exprs, aliases, distinct, distinct_on, source_alias } =>
            *input is Sort,
        _ => false,
    }
}

/// Whether a subquery of an expression has a part to ask for.
pub open spec fn expr_asks(e: ExprModel) -> bool
    decreases e, 1int, 0nat,
{
    (match e {
        ExprModel::InSubquery { expr, subquery, negated } => plan_asks(*subquery),
        ExprModel::ScalarSubquery { subquery } => plan_asks(*subquery),
        ExprModel::Exists { subquery, negated } => plan_asks(*subquery),
        _ => false,
    }) || parts_ask(e, expr_tree::parts(e).len())
}

/// Whether one of the first `n` parts of an expression has a subquery to ask for.
pub open spec fn parts_ask(e: ExprModel, n: nat) -> bool
    decreases e, 0int, n,
{
    if n == 0 || n > expr_tree::parts(e).len() {
        false
    } else {
        proof {
            expr_tree::lemma_parts_are_smaller(e);
        }
        parts_ask(e, (n - 1) as nat) || expr_asks(expr_tree::parts(e)[n - 1])
    }
}

/// Whether one of the first `n` expressions of a list has a subquery to ask for.
pub open spec fn list_asks(s: Seq<ExprModel>, n: nat) -> bool
    decreases s, 0int, n,
{
    n != 0 && n <= s.len() && (list_asks(s, (n - 1) as nat) || expr_asks(s[n - 1]))
}

/// Whether one of the first `n` common table expressions has a part to ask for.
pub open spec fn ctes_ask(s: Seq<(Seq<char>, Box<PlanModel>, Option<Seq<Seq<char>>>)>, n: nat) -> bool
    decreases s, 0int, n,
{
    n != 0 && n <= s.len() && (ctes_ask(s, (n - 1) as nat) || plan_asks(*s[n - 1].1))
}

/// Whether a plan has a part to ask for: one that only the database answers, or a
/// limit over a sort, which it may answer from an index of its own.
pub open spec fn plan_asks(p: PlanModel) -> bool
    decreases p, 0int, 0nat,
{
    match p {
        PlanModel::Filter { input, predicate } => plan_asks(*input) || expr_asks(predicate),
        PlanModel::Project { input, exprs, aliases, distinct, distinct_on, source_alias } =>
            semantics::has_window(exprs, exprs.len()) || plan_asks(*input) || list_asks(
            exprs,
            exprs.len(),
        ),
        PlanModel::Limit { input, limit, offset, limit_param, offset_param } => is_sorted(*input)
            || plan_asks(*input),
        PlanModel::Sort { input, exprs, asc } => plan_asks(*input),
        PlanModel::Aggregate { input, group_by, aggr_exprs, having } => !semantics::is_count_star(
            group_by,
            aggr_exprs,
            having,
        ) || plan_asks(*input),
        PlanModel::Join { left, right, join_type, on, lateral } => plan_asks(*left) || plan_asks(
            *right,
        ),
        PlanModel::Union { left, right, all } => plan_asks(*left) || plan_asks(*right),
        PlanModel::Intersect { left, right, all } => plan_asks(*left) || plan_asks(*right),
        PlanModel::Except { left, right, all } => plan_asks(*left) || plan_asks(*right),
        PlanModel::With { ctes, query, recursive } => ctes_ask(ctes, ctes.len()) || plan_asks(
            *query,
        ),
        PlanModel::Explain { input, options } => true,
        _ => false,
    }
}

/// Whether a subquery of an expression has a part to ask for.
pub fn expr_has_question(e: &LogicalExpr) -> (r: bool)
    ensures
        r == expr_asks(e@),
    decreases e,
{
    let below: bool = match e {
        LogicalExpr::InSubquery { subquery, .. } => plan_has_question(subquery),
        LogicalExpr::ScalarSubquery { subquery } => plan_has_question(subquery),
        LogicalExpr::Exists { subquery, .. } => plan_has_question(subquery),
        _ => false,
    };
    let v: Vec<&LogicalExpr> = expr_tree::expr_parts(e);
    let mut any: bool = false;
    for i in 0..v.len()
        invariant
            expr_tree::borrowed_model(v@) == expr_tree::parts(e@),
            forall|j: int| 0 <= j < v.len() ==> decreases_to!(*e => *#[trigger] v@[j]),
            any == parts_ask(e@, i as nat),
    {
        assert(decreases_to!(*e => *v@[i as int]));
        assert(expr_tree::parts(e@)[i as int] == v@[i as int]@);
        let here: bool = expr_has_question(v[i]);
        any = any || here;
    }
    assert(expr_tree::borrowed_model(v@).len() == expr_tree::parts(e@).len());
    below || any
}

pub(crate) fn list_has_question(v: &Vec<LogicalExpr>) -> (r: bool)
    ensures
        r == list_asks(logical_plan::exprs_model(v@), v@.len()),
    decreases v,
{
    let ghost s = logical_plan::exprs_model(v@);
    let mut any: bool = false;
    for i in 0..v.len()
        invariant
            s == logical_plan::exprs_model(v@),
            any == list_asks(s, i as nat),
    {
        let here: bool = expr_has_question(&v[i]);
        assert(s[i as int] == v@[i as int]@);
        any = any || here;
    }
    any
}

fn ctes_have_question(v: &Vec<(String, Box<LogicalPlan>, Option<Vec<String>>)>) -> (r: bool)
    ensures
        r == ctes_ask(logical_plan::ctes_model(v@), v@.len()),
    decreases v,
{
    let ghost s = logical_plan::ctes_model(v@);
    let mut any: bool = false;
    for i in 0..v.len()
        invariant
            s == logical_plan::ctes_model(v@),
            any == ctes_ask(s, i as nat),
    {
        let here: bool = plan_has_question(&v[i].1);
        assert(*s[i as int].1 == (*v@[i as int].1)@);
        any = any || here;
    }
    any
}

pub(crate) fn is_sorted_plan(p: &LogicalPlan) -> (r: bool)
    ensures
        r == is_sorted(p@),
{
    match p {
        LogicalPlan::Sort { .. } => true,
        LogicalPlan::Project { input, .. } => is_sort(input),
        _ => false,
    }
}

fn is_sort(p: &LogicalPlan) -> (r: bool)
    ensures
        r == (p@ is Sort),
{
    matches!(p, LogicalPlan::Sort { .. })
}

/// Whether a plan has a part to ask for.
pub fn plan_has_question(p: &LogicalPlan) -> (r: bool)
    ensures
        r == plan_asks(p@),
    decreases p,
{
    match p {
        LogicalPlan::Filter { input, predicate } => plan_has_question(input) || expr_has_question(
            predicate,
        ),
        LogicalPlan::Project { input, exprs, .. } => {
            proof {
                logical_plan::lemma_exprs_model(exprs@);
            }
            handle_rows::has_window_function(exprs) || plan_has_question(input)
                || list_has_question(exprs)
        },
        LogicalPlan::Limit { input, .. } => {
            is_sorted_plan(input) || plan_has_question(input)
        },
        LogicalPlan::Sort { input, .. } => plan_has_question(input),
        LogicalPlan::Aggregate { input, group_by, aggr_exprs, having } => {
            !handle_count::is_count_star(group_by, aggr_exprs, having) || plan_has_question(input)
        },
        LogicalPlan::Join { left, right, .. } => plan_has_question(left) || plan_has_question(
            right,
        ),
        LogicalPlan::Union { left, right, .. } => plan_has_question(left) || plan_has_question(
            right,
        ),
        LogicalPlan::Intersect { left, right, .. } => plan_has_question(left)
            || plan_has_question(right),
        LogicalPlan::Except { left, right, .. } => plan_has_question(left) || plan_has_question(
            right,
        ),
        LogicalPlan::With { ctes, query, .. } => {
            assert(logical_plan::ctes_model(ctes@).len() == ctes@.len());
            ctes_have_question(ctes) || plan_has_question(query)
        },
        LogicalPlan::Explain { .. } => true,
        _ => false,
    }
}

/// Whatever is left to the database is asked for.
pub proof fn law_what_is_left_to_the_database_is_asked_for(p: PlanModel)
    requires
        semantics::left_to_database(p),
    ensures
        plan_asks(p),
    decreases p,
{
    match p {
        PlanModel::Aggregate { input, group_by, aggr_exprs, having } => {
            if semantics::is_count_star(group_by, aggr_exprs, having) {
                law_what_is_left_to_the_database_is_asked_for(*input);
            }
        },
        PlanModel::Project { input, exprs, aliases, distinct, distinct_on, source_alias } => {
            if !semantics::is_windowed(p) {
                law_what_is_left_to_the_database_is_asked_for(*input);
            }
        },
        PlanModel::Filter { input, predicate } => {
            law_what_is_left_to_the_database_is_asked_for(*input);
        },
        PlanModel::Sort { input, exprs, asc } => {
            law_what_is_left_to_the_database_is_asked_for(*input);
        },
        PlanModel::Limit { input, limit, offset, limit_param, offset_param } => {
            law_what_is_left_to_the_database_is_asked_for(*input);
        },
        PlanModel::Union { left, right, all } => {
            law_what_is_left_to_the_database_is_asked_for(*left);
        },
        PlanModel::Intersect { left, right, all } => {
            law_what_is_left_to_the_database_is_asked_for(*left);
        },
        PlanModel::Except { left, right, all } => {
            law_what_is_left_to_the_database_is_asked_for(*left);
        },
        _ => {},
    }
}

} // verus!
