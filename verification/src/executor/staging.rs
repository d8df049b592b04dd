//! In which order the parts of a plan are asked for that the database around the
//! executor answers, and what becomes of the answers.

use crate::executor::answers;
use crate::executor::handle_count;
use crate::executor::handle_rows;
use crate::executor::materialize;
use crate::executor::questions;
use crate::executor::semantics;
use crate::executor::semantics::Built;
use crate::executor::sources::Env;
use crate::executor::subquery;
use crate::logical_plan;
use crate::logical_plan::{ExprModel, LogicalExpr, LogicalPlan, PlanModel};
use crate::schema;
use crate::schema::{Column, ColumnModel, Error, ErrorModel, Schema, Tuple, TupleModel};
use crate::value::{Value, ValueModel};
use std::sync::Arc;
use vstd::prelude::*;

verus! {

/// What is asked for next in a node of a plan.
#[derive(Clone, Copy, Debug, PartialEq, Eq, Structural)]
pub enum Question {
    /// What its input, or its left input, asks for.
    Input,
    /// What its right input asks for.
    RightInput,
    /// The first rows in order, where the database has them at hand. The rows take the
    /// place of the node.
    FirstRows,
    /// What the subqueries of its expressions ask for that depend on no row.
    Subqueries,
    /// The rows of its input that a predicate keeps whose subqueries depend on the row.
    /// They take the place of the node.
    KeptRows,
    /// What a list gives of the rows of its input whose subqueries depend on the row. The
    /// rows take the place of the node.
    ListedRows,
    /// The rows of its input with the values of window functions.
    WindowColumns,
    /// The groups of its input. They take the place of the node.
    Aggregation,
    /// A common table expression, to be defined for what follows; its plan is asked for
    /// before, unless it may read itself.
    Cte { at: usize, plan_first: bool },
    /// What the query behind common table expressions asks for.
    Query,
    /// The text of `EXPLAIN`, of a plan that is run where it is measured. The rows of the
    /// text take the place of the node.
    Explanation { measured: bool },
}

/// The last stage of a node: its inputs have the first two, its expressions the third and
/// the node itself the fourth. Common table expressions have one each, and the query
/// behind them the last.
pub open spec fn last_stage(p: PlanModel) -> nat {
    match p {
        PlanModel::With { ctes, query, recursive } => ctes.len(),
        _ => 3,
    }
}

pub open spec fn asked_when(asks: bool, q: Question) -> Option<Question> {
    if asks {
        Some(q)
    } else {
        None
    }
}

/// What is asked for in a node at a stage.
pub open spec fn question_at(p: PlanModel, stage: nat) -> Option<Question> {
    match p {
        PlanModel::Filter { input, predicate } => if stage == 0 {
            asked_when(questions::plan_asks(*input), Question::Input)
        } else if stage == 2 {
            asked_when(questions::expr_asks(predicate), Question::Subqueries)
        } else if stage == 3 {
            asked_when(questions::expr_asks(predicate), Question::KeptRows)
        } else {
            None
        },
        PlanModel::Project { input, exprs, aliases, distinct, distinct_on, source_alias } => if stage
            == 0 {
            asked_when(questions::plan_asks(*input), Question::Input)
        } else if stage == 2 {
            asked_when(questions::list_asks(exprs, exprs.len()), Question::Subqueries)
        } else if stage == 3 {
            if !distinct && distinct_on is None && questions::list_asks(exprs, exprs.len()) {
                Some(Question::ListedRows)
            } else {
                asked_when(semantics::has_window(exprs, exprs.len()), Question::WindowColumns)
            }
        } else {
            None
        },
        PlanModel::Limit { input, limit, offset, limit_param, offset_param } => if stage == 0 {
            asked_when(questions::is_sorted(*input), Question::FirstRows)
        } else if stage == 1 {
            asked_when(questions::plan_asks(*input), Question::Input)
        } else {
            None
        },
        PlanModel::Sort { input, exprs, asc } => asked_when(
            stage == 0 && questions::plan_asks(*input),
            Question::Input,
        ),
        PlanModel::Aggregate { input, group_by, aggr_exprs, having } => if stage == 0 {
            asked_when(questions::plan_asks(*input), Question::Input)
        } else if semantics::is_count_star(group_by, aggr_exprs, having) {
            None
        } else if stage == 2 {
            asked_when(having matches Some(h) && questions::expr_asks(h), Question::Subqueries)
        } else {
            asked_when(stage == 3, Question::Aggregation)
        },
        PlanModel::Join { left, right, join_type, on, lateral } => if stage == 0 {
            asked_when(questions::plan_asks(*left), Question::Input)
        } else {
            asked_when(
                stage == 1 && !lateral && questions::plan_asks(*right),
                Question::RightInput,
            )
        },
        PlanModel::Union { left, right, all } => side_question(*left, *right, stage),
        PlanModel::Intersect { left, right, all } => side_question(*left, *right, stage),
        PlanModel::Except { left, right, all } => side_question(*left, *right, stage),
        PlanModel::With { ctes, query, recursive } => if stage < ctes.len() {
            asked_when(
                questions::plan_asks(p),
                Question::Cte { at: stage as usize, plan_first: !recursive },
            )
        } else {
            asked_when(stage == ctes.len() && questions::plan_asks(*query), Question::Query)
        },
        PlanModel::Explain { input, options } => asked_when(
            stage == 3,
            Question::Explanation { measured: options.analyze },
        ),
        _ => None,
    }
}

pub open spec fn side_question(left: PlanModel, right: PlanModel, stage: nat) -> Option<Question> {
    if stage == 0 {
        asked_when(questions::plan_asks(left), Question::Input)
    } else {
        asked_when(stage == 1 && questions::plan_asks(right), Question::RightInput)
    }
}

/// What is asked for first in a node from a stage on, with the stage at which that is.
pub open spec fn first_question(p: PlanModel, from: nat) -> Option<(Question, nat)>
    decreases last_stage(p) + 1 - from,
{
    if from > last_stage(p) {
        None
    } else {
        match question_at(p, from) {
            Some(q) => Some((q, from)),
            None => first_question(p, from + 1),
        }
    }
}

/// What is asked for next in a node from a stage on, and the stage to go on from, where
/// there is one. Answers are put into the plan in between.
pub fn next_question(plan: &LogicalPlan, from: usize) -> (r: Option<(Question, Option<usize>)>)
    ensures
        match r {
            Some((q, next)) => {
                &&& first_question(plan@, from as nat) matches Some((asked, at))
                &&& asked == q
                &&& next == (if at < last_stage(plan@) {
                    Some((at + 1) as usize)
                } else {
                    None
                })
            },
            None => first_question(plan@, from as nat) is None,
        },
{
    let last: usize = find_last_stage(plan);
    let mut at: usize = from;
    while at <= last
        invariant
            last == last_stage(plan@),
            from <= at,
            first_question(plan@, from as nat) == first_question(plan@, at as nat),
        decreases last - at,
    {
        if let Some(q) = find_question(plan, at) {
            return Some((q, if at < last { Some(at + 1) } else { None }));
        }
        if at == last {
            assert(first_question(plan@, (at + 1) as nat) is None);
            return None;
        }
        at = at + 1;
    }
    None
}

fn find_last_stage(plan: &LogicalPlan) -> (r: usize)
    ensures
        r == last_stage(plan@),
{
    match plan {
        LogicalPlan::With { ctes, .. } => {
            assert(logical_plan::ctes_model(ctes@).len() == ctes@.len());
            ctes.len()
        },
        _ => 3,
    }
}

fn ask_when(asks: bool, q: Question) -> (r: Option<Question>)
    ensures
        r == asked_when(asks, q),
{
    if asks {
        Some(q)
    } else {
        None
    }
}

fn side_question_of(left: &LogicalPlan, right: &LogicalPlan, stage: usize) -> (r: Option<Question>)
    ensures
        r == side_question(left@, right@, stage as nat),
{
    if stage == 0 {
        ask_when(questions::plan_has_question(left), Question::Input)
    } else {
        ask_when(stage == 1 && questions::plan_has_question(right), Question::RightInput)
    }
}

fn list_question_of(
    input: &LogicalPlan,
    exprs: &Vec<LogicalExpr>,
    all_rows: bool,
    stage: usize,
) -> (r: Option<Question>)
    ensures
        ({
            let items = logical_plan::exprs_model(exprs@);
            r == (if stage == 0 {
                asked_when(questions::plan_asks(input@), Question::Input)
            } else if stage == 2 {
                asked_when(questions::list_asks(items, items.len()), Question::Subqueries)
            } else if stage == 3 {
                if all_rows && questions::list_asks(items, items.len()) {
                    Some(Question::ListedRows)
                } else {
                    asked_when(semantics::has_window(items, items.len()), Question::WindowColumns)
                }
            } else {
                None
            })
        }),
{
    proof {
        logical_plan::lemma_exprs_model(exprs@);
    }
    if stage == 0 {
        ask_when(questions::plan_has_question(input), Question::Input)
    } else if stage == 2 {
        ask_when(questions::list_has_question(exprs), Question::Subqueries)
    } else if stage == 3 {
        if all_rows && questions::list_has_question(exprs) {
            Some(Question::ListedRows)
        } else {
            ask_when(handle_rows::has_window_function(exprs), Question::WindowColumns)
        }
    } else {
        None
    }
}

fn find_question(plan: &LogicalPlan, stage: usize) -> (r: Option<Question>)
    ensures
        r == question_at(plan@, stage as nat),
{
    match plan {
        LogicalPlan::Filter { input, predicate } => if stage == 0 {
            ask_when(questions::plan_has_question(input), Question::Input)
        } else if stage == 2 {
            ask_when(questions::expr_has_question(predicate), Question::Subqueries)
        } else if stage == 3 {
            ask_when(questions::expr_has_question(predicate), Question::KeptRows)
        } else {
            None
        },
        LogicalPlan::Project { input, exprs, distinct, distinct_on, .. } => list_question_of(
            input,
            exprs,
            !*distinct && distinct_on.is_none(),
            stage,
        ),
        LogicalPlan::Limit { input, .. } => if stage == 0 {
            ask_when(questions::is_sorted_plan(input), Question::FirstRows)
        } else if stage == 1 {
            ask_when(questions::plan_has_question(input), Question::Input)
        } else {
            None
        },
        LogicalPlan::Sort { input, .. } => ask_when(
            stage == 0 && questions::plan_has_question(input),
            Question::Input,
        ),
        LogicalPlan::Aggregate { input, group_by, aggr_exprs, having } => if stage == 0 {
            ask_when(questions::plan_has_question(input), Question::Input)
        } else if handle_count::is_count_star(group_by, aggr_exprs, having) {
            None
        } else if stage == 2 {
            let asks: bool = match having {
                Some(h) => questions::expr_has_question(h),
                None => false,
            };
            ask_when(asks, Question::Subqueries)
        } else {
            ask_when(stage == 3, Question::Aggregation)
        },
        LogicalPlan::Join { left, right, lateral, .. } => if stage == 0 {
            ask_when(questions::plan_has_question(left), Question::Input)
        } else {
            ask_when(
                stage == 1 && !*lateral && questions::plan_has_question(right),
                Question::RightInput,
            )
        },
        LogicalPlan::Union { left, right, .. } => side_question_of(left, right, stage),
        LogicalPlan::Intersect { left, right, .. } => side_question_of(left, right, stage),
        LogicalPlan::Except { left, right, .. } => side_question_of(left, right, stage),
        LogicalPlan::With { ctes, query, recursive } => {
            assert(logical_plan::ctes_model(ctes@).len() == ctes@.len());
            if stage < ctes.len() {
                ask_when(
                    questions::plan_has_question(plan),
                    Question::Cte { at: stage, plan_first: !*recursive },
                )
            } else {
                ask_when(
                    stage == ctes.len() && questions::plan_has_question(query),
                    Question::Query,
                )
            }
        },
        LogicalPlan::Explain { options, .. } => ask_when(
            stage == 3,
            Question::Explanation { measured: options.analyze },
        ),
        _ => None,
    }
}

/// Nothing is asked for in a plan that has nothing to ask for.
pub proof fn law_only_what_asks_is_asked(p: PlanModel, from: nat)
    requires
        !questions::plan_asks(p),
    ensures
        first_question(p, from) is None,
    decreases last_stage(p) + 1 - from,
{
    if from <= last_stage(p) {
        assert(question_at(p, from) is None);
        law_only_what_asks_is_asked(p, from + 1);
    }
}

/// Something is asked for in a plan that has something to ask for, unless it is a lateral
/// join with nothing to ask for in its left input.
pub proof fn law_what_asks_is_asked(p: PlanModel)
    requires
        questions::plan_asks(p),
        !(p matches PlanModel::Join { left, right, join_type, on, lateral } && lateral),
    ensures
        first_question(p, 0) is Some,
{
    match p {
        PlanModel::Filter { input, predicate } => {
            lemma_found(p, 0, if questions::plan_asks(*input) { 0 } else { 2 });
        },
        PlanModel::Project { input, exprs, aliases, distinct, distinct_on, source_alias } => {
            if questions::plan_asks(*input) {
                lemma_found(p, 0, 0);
            } else if questions::list_asks(exprs, exprs.len()) {
                lemma_found(p, 0, 2);
            } else {
                lemma_found(p, 0, 3);
            }
        },
        PlanModel::Limit { input, limit, offset, limit_param, offset_param } => {
            lemma_found(p, 0, if questions::is_sorted(*input) { 0 } else { 1 });
        },
        PlanModel::Aggregate { input, group_by, aggr_exprs, having } => {
            lemma_found(p, 0, if questions::plan_asks(*input) { 0 } else { 3 });
        },
        PlanModel::Join { left, right, join_type, on, lateral } => {
            lemma_found(p, 0, if questions::plan_asks(*left) { 0 } else { 1 });
        },
        PlanModel::Union { left, right, all } => {
            lemma_found(p, 0, if questions::plan_asks(*left) { 0 } else { 1 });
        },
        PlanModel::Intersect { left, right, all } => {
            lemma_found(p, 0, if questions::plan_asks(*left) { 0 } else { 1 });
        },
        PlanModel::Except { left, right, all } => {
            lemma_found(p, 0, if questions::plan_asks(*left) { 0 } else { 1 });
        },
        PlanModel::With { ctes, query, recursive } => {
            assert(!questions::ctes_ask(ctes, 0));
            lemma_found(p, 0, 0);
        },
        PlanModel::Explain { input, options } => {
            lemma_found(p, 0, 3);
        },
        _ => {
            lemma_found(p, 0, 0);
        },
    }
}

proof fn lemma_found(p: PlanModel, from: nat, at: nat)
    requires
        from <= at <= last_stage(p),
        question_at(p, at) is Some,
    ensures
        first_question(p, from) is Some,
    decreases at - from,
{
    if from < at {
        lemma_found(p, from + 1, at);
    }
}

/// How a subquery is asked for.
#[derive(Clone, Copy, Debug, PartialEq, Eq, Structural)]
pub enum SubqueryTurn {
    /// Once for all rows, without the common table expressions around it.
    Alone,
    /// For the row around it, with the common table expressions around it.
    AtRow,
    /// Not before there is a row.
    Later,
}

/// When a subquery is asked for: one that depends on the row around it, at that row.
pub open spec fn turn_of(p: PlanModel, outer: Seq<ColumnModel>, at_row: bool) -> SubqueryTurn {
    if !subquery::plan_refers_out(p, outer) {
        SubqueryTurn::Alone
    } else if at_row {
        SubqueryTurn::AtRow
    } else {
        SubqueryTurn::Later
    }
}

/// When a subquery is asked for.
pub fn subquery_turn(plan: &LogicalPlan, outer: &Schema, at_row: bool) -> (r: SubqueryTurn)
    ensures
        r == turn_of(plan@, outer@, at_row),
{
    if !subquery::plan_has_free_outer_ref(plan, outer) {
        SubqueryTurn::Alone
    } else if at_row {
        SubqueryTurn::AtRow
    } else {
        SubqueryTurn::Later
    }
}

/// What a subquery that was run for a row stands for: the rows that came, or none where it
/// failed. What is left to the database is no failure.
pub open spec fn settled_at_row(r: Result<PlanModel, ErrorModel>) -> Result<PlanModel, ErrorModel> {
    match r {
        Ok(p) => Ok(p),
        Err(e) => if e is Unsupported {
            Err(e)
        } else {
            Ok(PlanModel::Rows { schema: Seq::empty(), rows: Seq::empty() })
        },
    }
}

/// Settles a subquery that was run for a row.
pub fn settle_at_row(r: Result<LogicalPlan, Error>) -> (out: Result<LogicalPlan, Error>)
    ensures
        answers::plan_result(out) == settled_at_row(answers::plan_result(r)),
{
    match r {
        Ok(p) => Ok(p),
        Err(e) => {
            if e.is_refusal() {
                Err(e)
            } else {
                let columns: Vec<Column> = Vec::new();
                let rows: Vec<Tuple> = Vec::new();
                let schema: Schema = Schema { columns };
                assert(schema@ =~= Seq::<ColumnModel>::empty());
                assert(schema::rows_model(rows@) =~= Seq::<TupleModel>::empty());
                Ok(LogicalPlan::Rows { schema: Arc::new(schema), rows })
            }
        },
    }
}

/// An expression whose subquery was asked for: the subquery with its answers takes the
/// place of the one that was asked for. Where asking failed, a scalar subquery is NULL and
/// `EXISTS` finds nothing; what is left to the database is no failure.
pub open spec fn settled(e: ExprModel, r: Result<PlanModel, ErrorModel>) -> Result<ExprModel, ErrorModel> {
    match e {
        ExprModel::InSubquery { expr, subquery, negated } => match r {
            Err(x) => Err(x),
            Ok(p) => Ok(ExprModel::InSubquery { expr, subquery: Box::new(p), negated }),
        },
        ExprModel::ScalarSubquery { subquery } => match r {
            Err(x) => if x is Unsupported {
                Err(x)
            } else {
                Ok(ExprModel::Literal(ValueModel::Null))
            },
            Ok(p) => Ok(ExprModel::ScalarSubquery { subquery: Box::new(p) }),
        },
        ExprModel::Exists { subquery, negated } => match r {
            Err(x) => if x is Unsupported {
                Err(x)
            } else {
                Ok(ExprModel::Literal(ValueModel::Boolean(negated)))
            },
            Ok(p) => Ok(ExprModel::Exists { subquery: Box::new(p), negated }),
        },
        _ => Ok(e),
    }
}

/// Puts the answers of a subquery into the expression that it is part of.
pub fn settle(e: LogicalExpr, r: Result<LogicalPlan, Error>) -> (out: Result<LogicalExpr, Error>)
    ensures
        materialize::expr_result(out) == settled(e@, answers::plan_result(r)),
{
    match e {
        LogicalExpr::InSubquery { expr, subquery: _, negated } => match r {
            Err(x) => Err(x),
            Ok(p) => Ok(LogicalExpr::InSubquery { expr, subquery: Box::new(p), negated }),
        },
        LogicalExpr::ScalarSubquery { subquery: _ } => match r {
            Err(x) => if x.is_refusal() {
                Err(x)
            } else {
                Ok(LogicalExpr::Literal(Value::Null))
            },
            Ok(p) => Ok(LogicalExpr::ScalarSubquery { subquery: Box::new(p) }),
        },
        LogicalExpr::Exists { subquery: _, negated } => match r {
            Err(x) => if x.is_refusal() {
                Err(x)
            } else {
                Ok(LogicalExpr::Literal(Value::Boolean(negated)))
            },
            Ok(p) => Ok(LogicalExpr::Exists { subquery: Box::new(p), negated }),
        },
        other => Ok(other),
    }
}

/// A subquery whose asking failed is settled as the executor reads one that fails.
pub proof fn law_failures_are_settled_as_they_are_read(e: ExprModel, x: ErrorModel, env: Env)
    requires
        match e {
            ExprModel::InSubquery { expr, subquery, negated } => fails_with(*subquery, x, env),
            ExprModel::ScalarSubquery { subquery } => fails_with(*subquery, x, env),
            ExprModel::Exists { subquery, negated } => fails_with(*subquery, x, env),
            _ => false,
        },
    ensures
        semantics::materialized(e, env) == settled(e, Err(x)),
{
}

/// Whether running a subquery on its own fails.
pub open spec fn fails_with(p: PlanModel, x: ErrorModel, env: Env) -> bool {
    semantics::rows_given(
        semantics::run(p, semantics::inner_env(env), semantics::no_ctes()),
    ) == Err::<Seq<TupleModel>, ErrorModel>(x)
}

/// A subquery that was run for a row is settled as the executor reads it there.
pub proof fn law_rows_are_settled_as_they_are_read(r: Result<Built, ErrorModel>)
    ensures
        settled_at_row(rows_as_plan(r)) matches Ok(p) ==> (p matches PlanModel::Rows { schema, rows }
            && semantics::answered_rows(semantics::rows_given(r)) == Ok::<
            Seq<TupleModel>,
            ErrorModel,
        >(rows)),
        settled_at_row(rows_as_plan(r)) matches Err(x) ==> semantics::answered_rows(
            semantics::rows_given(r),
        ) == Err::<Seq<TupleModel>, ErrorModel>(x),
{
}

/// What a plan gives, as a plan.
pub open spec fn rows_as_plan(r: Result<Built, ErrorModel>) -> Result<PlanModel, ErrorModel> {
    match r {
        Err(e) => Err(e),
        Ok(b) => match b.rel.rows.end {
            Some(e) => Err(e),
            None => Ok(PlanModel::Rows { schema: b.rel.columns, rows: b.rel.rows.rows }),
        },
    }
}

} // verus!
