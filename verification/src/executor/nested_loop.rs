//! The nested loop join.

use crate::evaluator;
use crate::evaluator::Evaluator;
use crate::executor::join_pair;
use crate::executor::operator;
use crate::executor::operator::{PhysicalOperator, RowStream, TimeoutContext};
use crate::logical_plan;
use crate::logical_plan::{ExprModel, JoinType, LogicalExpr};
use crate::schema;
use crate::schema::{ColumnModel, Error, ErrorModel, Schema, Tuple, TupleModel};
use crate::value;
use crate::value::{Value, ValueModel};
use std::sync::Arc;
use vstd::prelude::*;

verus! {

/// Whether a pair of rows satisfies an optional condition over the combined
/// columns; without a condition every pair does.
pub open spec fn pair_test(
    condition: Option<ExprModel>,
    cols: Seq<ColumnModel>,
    params: Seq<ValueModel>,
    left: TupleModel,
    right: TupleModel,
) -> Result<bool, ErrorModel> {
    match condition {
        None => Ok(true),
        Some(c) => join_pair::condition_holds(
            evaluator::eval(c, cols, params, left.values + right.values),
        ),
    }
}

/// A join condition as a test on pairs of rows.
pub open spec fn pair_tester(
    condition: Option<ExprModel>,
    cols: Seq<ColumnModel>,
    params: Seq<ValueModel>,
) -> spec_fn(TupleModel, TupleModel) -> Result<bool, ErrorModel> {
    |left: TupleModel, right: TupleModel| pair_test(condition, cols, params, left, right)
}

/// A condition with its columns bound to positions tests pairs alike.
pub proof fn lemma_bound_tester(
    condition: ExprModel,
    cols: Seq<ColumnModel>,
    params: Seq<ValueModel>,
)
    ensures
        pair_tester(Some(evaluator::bind_expr(condition, cols)), cols, params) == pair_tester(
            Some(condition),
            cols,
            params,
        ),
{
    let a = pair_tester(Some(evaluator::bind_expr(condition, cols)), cols, params);
    let b = pair_tester(Some(condition), cols, params);
    assert forall|l: TupleModel, r: TupleModel| #[trigger] a(l, r) == b(l, r) by {
        evaluator::law_binding_keeps_the_meaning(condition, cols, params, l.values + r.values);
    }
    assert(a =~= b);
}

/// What a nested loop join is told: how pairs are tested, which rows without a
/// partner are kept, and how wide both sides are.
pub struct LoopJoin {
    pub test: spec_fn(TupleModel, TupleModel) -> Result<bool, ErrorModel>,
    pub join_type: JoinType,
    pub left_width: nat,
    pub right_width: nat,
}

/// The right rows from position `i` on that no left row was joined with, each
/// extended with NULLs.
pub open spec fn unmatched_right(
    right: Seq<TupleModel>,
    matched: Seq<bool>,
    i: int,
    left_width: nat,
) -> Seq<TupleModel>
    decreases right.len() - i,
{
    if i < 0 || i >= right.len() {
        Seq::empty()
    } else {
        let rest = unmatched_right(right, matched, i + 1, left_width);
        if matched[i] {
            rest
        } else {
            seq![join_pair::right_alone(right[i], left_width)] + rest
        }
    }
}

/// The output once the left rows in `left` are still to come.
pub open spec fn loop_from_left(
    left: RowStream,
    right: Seq<TupleModel>,
    matched: Seq<bool>,
    join: LoopJoin,
) -> RowStream
    decreases left.rows.len(), 0int,
{
    if left.rows.len() == 0 {
        match left.end {
            Some(e) => operator::failing(e),
            None => if join_pair::keeps_right(join.join_type) {
                operator::just_rows(unmatched_right(right, matched, 0, join.left_width))
            } else {
                operator::no_rows()
            },
        }
    } else {
        loop_from_right(left.rows[0], 0, false, left.rest(), right, matched, join)
    }
}

/// The output while left row `l` is joined with the right rows from position
/// `i` on; `found` tells whether it already had a partner.
pub open spec fn loop_from_right(
    l: TupleModel,
    i: int,
    found: bool,
    left: RowStream,
    right: Seq<TupleModel>,
    matched: Seq<bool>,
    join: LoopJoin,
) -> RowStream
    decreases
        left.rows.len(),
        (if i < right.len() {
            right.len() - i + 1
        } else {
            1int
        }),
{
    if i < 0 || i >= right.len() {
        let rest = loop_from_left(left, right, matched, join);
        if !found && join_pair::keeps_left(join.join_type) {
            rest.after(join_pair::left_alone(l, join.right_width))
        } else {
            rest
        }
    } else {
        match (join.test)(l, right[i]) {
            Err(e) => operator::failing(e),
            Ok(true) => loop_from_right(
                l,
                i + 1,
                true,
                left,
                right,
                mark(matched, i, join.join_type),
                join,
            ).after(join_pair::combined_row(l, right[i])),
            Ok(false) => loop_from_right(l, i + 1, found, left, right, matched, join),
        }
    }
}

/// Notes that a right row had a partner, where that matters.
pub open spec fn mark(matched: Seq<bool>, i: int, join_type: JoinType) -> Seq<bool> {
    if join_pair::keeps_right(join_type) {
        matched.update(i, true)
    } else {
        matched
    }
}

/// No right row has had a partner yet.
pub open spec fn none_matched(n: nat) -> Seq<bool> {
    Seq::new(n, |i: int| false)
}

/// The rows that one left row contributes from right position `i` on.
pub open spec fn contribution(
    l: TupleModel,
    right: Seq<TupleModel>,
    i: int,
    found: bool,
    join: LoopJoin,
) -> Seq<TupleModel>
    decreases right.len() - i,
{
    if i < 0 || i >= right.len() {
        if !found && join_pair::keeps_left(join.join_type) {
            seq![join_pair::left_alone(l, join.right_width)]
        } else {
            Seq::empty()
        }
    } else if (join.test)(l, right[i]) == Ok::<bool, ErrorModel>(true) {
        seq![join_pair::combined_row(l, right[i])] + contribution(l, right, i + 1, true, join)
    } else {
        contribution(l, right, i + 1, found, join)
    }
}

/// The rows that all left rows contribute, in left order.
pub open spec fn contributions(
    left: Seq<TupleModel>,
    right: Seq<TupleModel>,
    join: LoopJoin,
) -> Seq<TupleModel>
    decreases left.len(),
{
    if left.len() == 0 {
        Seq::empty()
    } else {
        contribution(left[0], right, 0, false, join) + contributions(
            left.drop_first(),
            right,
            join,
        )
    }
}

/// Whether some left row has a given right row as a partner.
pub open spec fn has_partner(left: Seq<TupleModel>, r: TupleModel, join: LoopJoin) -> bool {
    exists|k: int|
        0 <= k < left.len() && (join.test)(#[trigger] left[k], r) == Ok::<bool, ErrorModel>(true)
}

/// A condition that fails on no pair of one row with others.
pub open spec fn row_never_fails(l: TupleModel, right: Seq<TupleModel>, join: LoopJoin) -> bool {
    forall|j: int| 0 <= j < right.len() ==> (join.test)(l, #[trigger] right[j]) is Ok
}

/// A condition that fails on no pair of a left and a right row.
pub open spec fn never_fails(
    left: Seq<TupleModel>,
    right: Seq<TupleModel>,
    join: LoopJoin,
) -> bool {
    forall|k: int| 0 <= k < left.len() ==> row_never_fails(#[trigger] left[k], right, join)
}

/// The right rows without a partner among the left rows, extended with NULLs.
pub open spec fn lonely_right(
    left: Seq<TupleModel>,
    right: Seq<TupleModel>,
    join: LoopJoin,
) -> Seq<TupleModel> {
    unmatched_right(
        right,
        Seq::new(right.len(), |j: int| has_partner(left, right[j], join)),
        0,
        join.left_width,
    )
}

proof fn lemma_marks_after_row(
    l: TupleModel,
    i: int,
    found: bool,
    left: Seq<TupleModel>,
    right: Seq<TupleModel>,
    matched: Seq<bool>,
    join: LoopJoin,
)
    requires
        row_never_fails(l, right, join),
        0 <= i <= right.len(),
        matched.len() == right.len(),
    ensures
        ({
            let after = Seq::new(
                right.len(),
                |j: int|
                    matched[j] || (join_pair::keeps_right(join.join_type) && i <= j && (join.test)(
                        l,
                        right[j],
                    ) == Ok::<bool, ErrorModel>(true)),
            );
            let whole = loop_from_right(
                l,
                i,
                found,
                operator::just_rows(left),
                right,
                matched,
                join,
            );
            let tail = loop_from_left(operator::just_rows(left), right, after, join);
            &&& whole.rows == contribution(l, right, i, found, join) + tail.rows
            &&& whole.end == tail.end
        }),
    decreases right.len() - i,
{
    let after = Seq::new(
        right.len(),
        |j: int|
            matched[j] || (join_pair::keeps_right(join.join_type) && i <= j && (join.test)(
                l,
                right[j],
            ) == Ok::<bool, ErrorModel>(true)),
    );
    if i == right.len() {
        assert(after =~= matched);
        let tail = loop_from_left(operator::just_rows(left), right, after, join);
        assert(contribution(l, right, i, found, join) + tail.rows =~= (if !found
            && join_pair::keeps_left(join.join_type) {
            seq![join_pair::left_alone(l, join.right_width)] + tail.rows
        } else {
            tail.rows
        }));
    } else {
        assert((join.test)(l, right[i]) is Ok);
        if (join.test)(l, right[i]) == Ok::<bool, ErrorModel>(true) {
            let next = mark(matched, i, join.join_type);
            lemma_marks_after_row(l, i + 1, true, left, right, next, join);
            let after2 = Seq::new(
                right.len(),
                |j: int|
                    next[j] || (join_pair::keeps_right(join.join_type) && i + 1 <= j && (join.test)(
                        l,
                        right[j],
                    ) == Ok::<bool, ErrorModel>(true)),
            );
            assert(after2 =~= after);
            let tail = loop_from_left(operator::just_rows(left), right, after, join);
            let c = contribution(l, right, i + 1, true, join);
            let head = seq![join_pair::combined_row(l, right[i])];
            assert(head + (c + tail.rows) =~= (head + c) + tail.rows);
        } else {
            lemma_marks_after_row(l, i + 1, found, left, right, matched, join);
            let after2 = Seq::new(
                right.len(),
                |j: int|
                    matched[j] || (join_pair::keeps_right(join.join_type) && i + 1 <= j && (
                    join.test)(l, right[j]) == Ok::<bool, ErrorModel>(true)),
            );
            assert(after2 =~= after);
        }
    }
}

proof fn lemma_loop_rows(
    left: Seq<TupleModel>,
    right: Seq<TupleModel>,
    matched: Seq<bool>,
    join: LoopJoin,
)
    requires
        never_fails(left, right, join),
        matched.len() == right.len(),
    ensures
        ({
            let out = loop_from_left(operator::just_rows(left), right, matched, join);
            let marks = Seq::new(
                right.len(),
                |j: int| matched[j] || has_partner(left, right[j], join),
            );
            &&& out.end is None
            &&& out.rows == contributions(left, right, join) + (if join_pair::keeps_right(
                join.join_type,
            ) {
                unmatched_right(right, marks, 0, join.left_width)
            } else {
                Seq::empty()
            })
        }),
    decreases left.len(),
{
    let marks = Seq::new(right.len(), |j: int| matched[j] || has_partner(left, right[j], join));
    let lonely = if join_pair::keeps_right(join.join_type) {
        unmatched_right(right, marks, 0, join.left_width)
    } else {
        Seq::empty()
    };
    if left.len() == 0 {
        assert(marks =~= matched);
        assert(contributions(left, right, join) + lonely =~= lonely);
    } else {
        let l = left[0];
        let rest = left.drop_first();
        assert(row_never_fails(left[0], right, join));
        assert forall|k: int| 0 <= k < rest.len() implies row_never_fails(
            #[trigger] rest[k],
            right,
            join,
        ) by {
            assert(rest[k] == left[k + 1]);
        }
        lemma_marks_after_row(l, 0, false, rest, right, matched, join);
        let after = Seq::new(
            right.len(),
            |j: int|
                matched[j] || (join_pair::keeps_right(join.join_type) && 0 <= j && (join.test)(
                    l,
                    right[j],
                ) == Ok::<bool, ErrorModel>(true)),
        );
        assert(operator::just_rows(left).rest() =~= operator::just_rows(rest));
        lemma_loop_rows(rest, right, after, join);
        let marks2 = Seq::new(right.len(), |j: int| after[j] || has_partner(rest, right[j], join));
        if join_pair::keeps_right(join.join_type) {
            assert forall|j: int| 0 <= j < right.len() implies marks2[j] == marks[j] by {
                if has_partner(left, right[j], join) {
                    let k = choose|k: int|
                        0 <= k < left.len() && (join.test)(#[trigger] left[k], right[j]) == Ok::<
                            bool,
                            ErrorModel,
                        >(true);
                    if k > 0 {
                        assert(rest[k - 1] == left[k]);
                        assert(has_partner(rest, right[j], join));
                    }
                }
                if has_partner(rest, right[j], join) {
                    let k = choose|k: int|
                        0 <= k < rest.len() && (join.test)(#[trigger] rest[k], right[j]) == Ok::<
                            bool,
                            ErrorModel,
                        >(true);
                    assert(left[k + 1] == rest[k]);
                    assert(has_partner(left, right[j], join));
                }
                if (join.test)(l, right[j]) == Ok::<bool, ErrorModel>(true) {
                    assert(left[0] == l);
                    assert(has_partner(left, right[j], join));
                }
            }
            assert(marks2 =~= marks);
        }
        let c = contribution(l, right, 0, false, join);
        let cs = contributions(rest, right, join);
        assert(c + (cs + lonely) =~= (c + cs) + lonely);
    }
}

/// Where the condition fails on no pair of their rows, the join gives for each left row, in
/// order, its partners in right order, or the row alone where the join keeps
/// it; behind them, where the join keeps them, the right rows that no left row
/// was joined with.
pub proof fn law_nested_loop_rows(
    left: Seq<TupleModel>,
    right: Seq<TupleModel>,
    join: LoopJoin,
)
    requires
        never_fails(left, right, join),
    ensures
        loop_from_left(operator::just_rows(left), right, none_matched(right.len()), join)
            == operator::just_rows(
            contributions(left, right, join) + (if join_pair::keeps_right(join.join_type) {
                lonely_right(left, right, join)
            } else {
                Seq::empty()
            }),
        ),
{
    lemma_loop_rows(left, right, none_matched(right.len()), join);
    let marks = Seq::new(
        right.len(),
        |j: int| none_matched(right.len())[j] || has_partner(left, right[j], join),
    );
    assert(marks =~= Seq::new(right.len(), |j: int| has_partner(left, right[j], join)));
    assert(loop_from_left(operator::just_rows(left), right, none_matched(right.len()), join)
        =~= operator::just_rows(
        contributions(left, right, join) + (if join_pair::keeps_right(join.join_type) {
            lonely_right(left, right, join)
        } else {
            Seq::empty()
        }),
    ));
}

/// The rows that a join may hold in memory: all rows of a stream, or the error
/// that ends it, or the refusal at the first row that exceeds the cap. Each row
/// costs its size and one mark.
pub open spec fn loaded(s: RowStream, used: nat, limit: usize) -> Result<Seq<TupleModel>, ErrorModel>
    decreases s.rows.len(),
{
    if s.rows.len() == 0 {
        match s.end {
            Some(e) => Err(e),
            None => Ok(Seq::empty()),
        }
    } else {
        let now = used + join_pair::tuple_size(s.rows[0]) + 1;
        if join_pair::capped(now) > limit {
            Err(join_pair::over_memory(limit))
        } else {
            match loaded(s.rest(), now, limit) {
                Err(e) => Err(e),
                Ok(rows) => Ok(seq![s.rows[0]] + rows),
            }
        }
    }
}

/// Joins by testing every pair of rows. The right rows are held in memory.
pub struct NestedLoopJoinOperator<L: PhysicalOperator + ?Sized> {
    left: Box<L>,
    join_type: JoinType,
    on_condition: Option<LogicalExpr>,
    output_schema: Arc<Schema>,
    evaluator: Evaluator,
    left_tuple: Option<Tuple>,
    right_tuples: Vec<Tuple>,
    right_index: usize,
    timeout_ctx: Option<TimeoutContext>,
    left_column_count: usize,
    right_column_count: usize,
    left_matched: bool,
    right_matched: Vec<bool>,
    emitting_unmatched_right: bool,
    unmatched_right_index: usize,
    condition_pair_evaluable: bool,
}

fn load_right<R: PhysicalOperator + ?Sized>(
    right: &mut Box<R>,
    memory_limit: usize,
    timeout_ctx: &Option<TimeoutContext>,
) -> (r: Result<Vec<Tuple>, Error>)
    requires
        old(right).ready(),
    ensures
        match r {
            Ok(rows) => loaded(old(right).stream(), 0, memory_limit) == Ok::<
                Seq<TupleModel>,
                ErrorModel,
            >(schema::rows_model(rows@)),
            Err(e) => {
                ||| operator::timed_out(
                    operator::with_limit_of(old(right).limits(), *timeout_ctx),
                    e@,
                )
                ||| loaded(old(right).stream(), 0, memory_limit) == Err::<
                    Seq<TupleModel>,
                    ErrorModel,
                >(e@)
            },
        },
{
    let ghost whole = right.stream();
    let ghost limited = right.limits();
    let ghost mut used: nat = 0;
    let mut memory_used: usize = 0;
    let mut out: Vec<Tuple> = Vec::new();
    assert(prepended(schema::rows_model(out@), loaded(right.stream(), 0, memory_limit)) == loaded(
        whole,
        0,
        memory_limit,
    )) by {
        if let Ok(rows) = loaded(whole, 0, memory_limit) {
            assert(schema::rows_model(out@) + rows =~= rows);
        }
    }
    loop
        invariant
            right.ready(),
            right.limits() == limited,
            whole == old(right).stream(),
            limited == old(right).limits(),
            memory_used == join_pair::capped(used),
            prepended(schema::rows_model(out@), loaded(right.stream(), used, memory_limit))
                == loaded(whole, 0, memory_limit),
        decreases right.stream().rows.len(),
    {
        let ghost before = right.stream();
        let tuple: Tuple = match right.next() {
            Err(e) => {
                return Err(e);
            },
            Ok(None) => {
                assert(schema::rows_model(out@) + Seq::<TupleModel>::empty()
                    =~= schema::rows_model(out@));
                return Ok(out);
            },
            Ok(Some(t)) => t,
        };
        match operator::check_time(timeout_ctx) {
            Ok(_) => {},
            Err(e) => {
                return Err(e);
            },
        }
        memory_used = memory_used.saturating_add(
            join_pair::estimate_tuple_size(&tuple),
        ).saturating_add(1);
        proof {
            used = used + join_pair::tuple_size(tuple@) + 1;
        }
        if memory_used > memory_limit {
            return Err(join_pair::join_memory_limit_exceeded(memory_limit));
        }
        let ghost taken = schema::rows_model(out@);
        out.push(tuple);
        assert(schema::rows_model(out@) =~= taken.push(tuple@));
        proof {
            if let Ok(rows) = loaded(right.stream(), used, memory_limit) {
                assert(taken + (seq![tuple@] + rows) =~= schema::rows_model(out@) + rows);
            }
        }
    }
}

/// Rows in front of rows that may have failed to come.
pub open spec fn prepended(front: Seq<TupleModel>, rest: Result<Seq<TupleModel>, ErrorModel>) -> Result<
    Seq<TupleModel>,
    ErrorModel,
> {
    match rest {
        Ok(rows) => Ok(front + rows),
        Err(e) => Err(e),
    }
}

impl<L: PhysicalOperator + ?Sized> NestedLoopJoinOperator<L> {
    spec fn join(&self) -> LoopJoin {
        LoopJoin {
            test: pair_tester(
                logical_plan::opt_expr(self.on_condition),
                self.evaluator.columns(),
                self.evaluator.params(),
            ),
            join_type: self.join_type,
            left_width: self.left_column_count as nat,
            right_width: self.right_column_count as nat,
        }
    }

    spec fn right_rows(&self) -> Seq<TupleModel> {
        schema::rows_model(self.right_tuples@)
    }

    /// A join under the built-in memory cap.
    pub fn new<R: PhysicalOperator + ?Sized>(
        left: Box<L>,
        right: Box<R>,
        join_type: JoinType,
        on_condition: Option<LogicalExpr>,
        parameters: Vec<Value>,
        timeout_ctx: Option<TimeoutContext>,
    ) -> (r: Result<NestedLoopJoinOperator<L>, Error>)
        requires
            left.ready(),
            right.ready(),
        ensures
            match r {
                Ok(op) => joins_as(
                    op,
                    left.stream(),
                    left.columns(),
                    right.stream(),
                    right.columns(),
                    join_type,
                    logical_plan::opt_expr(on_condition),
                    value::values_model(parameters@),
                    join_pair::default_limit(),
                ) && op.limits() == operator::with_limit_of(left.limits(), timeout_ctx),
                Err(e) => {
                    ||| operator::timed_out(
                        operator::with_limit_of(right.limits(), timeout_ctx),
                        e@,
                    )
                    ||| loaded(right.stream(), 0, join_pair::default_limit()) == Err::<
                        Seq<TupleModel>,
                        ErrorModel,
                    >(e@)
                },
            },
    {
        Self::with_memory_limit(
            left,
            right,
            join_type,
            on_condition,
            parameters,
            join_pair::default_memory_limit(),
            timeout_ctx,
        )
    }

    /// A join whose right rows may take `memory_limit` bytes.
    pub fn with_memory_limit<R: PhysicalOperator + ?Sized>(
        left: Box<L>,
        right: Box<R>,
        join_type: JoinType,
        on_condition: Option<LogicalExpr>,
        parameters: Vec<Value>,
        memory_limit: usize,
        timeout_ctx: Option<TimeoutContext>,
    ) -> (r: Result<NestedLoopJoinOperator<L>, Error>)
        requires
            left.ready(),
            right.ready(),
        ensures
            match r {
                Ok(op) => joins_as(
                    op,
                    left.stream(),
                    left.columns(),
                    right.stream(),
                    right.columns(),
                    join_type,
                    logical_plan::opt_expr(on_condition),
                    value::values_model(parameters@),
                    memory_limit,
                ) && op.limits() == operator::with_limit_of(left.limits(), timeout_ctx),
                Err(e) => {
                    ||| operator::timed_out(
                        operator::with_limit_of(right.limits(), timeout_ctx),
                        e@,
                    )
                    ||| loaded(right.stream(), 0, memory_limit) == Err::<
                        Seq<TupleModel>,
                        ErrorModel,
                    >(e@)
                },
            },
    {
        let left_schema: Arc<Schema> = left.schema();
        let right_schema: Arc<Schema> = right.schema();
        let left_column_count: usize = left_schema.columns.len();
        let right_column_count: usize = right_schema.columns.len();
        let output_schema: Arc<Schema> = Arc::new(
            join_pair::combined_schema(&left_schema, &right_schema),
        );
        let evaluator: Evaluator = Evaluator::with_parameters(output_schema.clone(), parameters);
        let ghost given = logical_plan::opt_expr(on_condition);
        let on_condition: Option<LogicalExpr> = match on_condition {
            Some(c) => Some(evaluator.bind(c)),
            None => None,
        };
        proof {
            if let Some(c) = given {
                lemma_bound_tester(c, evaluator.columns(), evaluator.params());
            }
        }
        let condition_pair_evaluable: bool = match &on_condition {
            Some(c) => join_pair::pair_evaluable(c),
            None => false,
        };
        let mut source: Box<R> = right;
        let right_tuples: Vec<Tuple> = match load_right(&mut source, memory_limit, &timeout_ctx) {
            Ok(rows) => rows,
            Err(e) => {
                return Err(e);
            },
        };
        let mut right_matched: Vec<bool> = Vec::new();
        for i in 0..right_tuples.len()
            invariant
                right_matched.len() == i,
                forall|j: int| 0 <= j < i ==> !right_matched@[j],
        {
            right_matched.push(false);
        }
        assert(right_matched@ =~= none_matched(right_tuples.len() as nat));
        Ok(
            NestedLoopJoinOperator {
                left,
                join_type,
                on_condition,
                output_schema,
                evaluator,
                left_tuple: None,
                right_tuples,
                right_index: 0,
                timeout_ctx,
                left_column_count,
                right_column_count,
                left_matched: false,
                right_matched,
                emitting_unmatched_right: false,
                unmatched_right_index: 0,
                condition_pair_evaluable,
            },
        )
    }

    /// Leaves the operator as it is: the time limit is given when the join is
    /// built.
    pub fn with_timeout(self, _timeout_ctx: Option<TimeoutContext>) -> (r: NestedLoopJoinOperator<L>)
        ensures
            r == self,
    {
        self
    }

    fn emit_unmatched_right(&mut self) -> (r: Option<Tuple>)
        requires
            old(self).ready(),
            old(self).emitting_unmatched_right,
        ensures
            final(self).ready(),
            final(self).columns() == old(self).columns(),
            final(self).limits() == old(self).limits(),
            match r {
                Some(t) => {
                    &&& old(self).stream().rows.len() > 0
                    &&& t@ == old(self).stream().rows[0]
                    &&& final(self).stream() == old(self).stream().rest()
                },
                None => {
                    &&& old(self).stream() == operator::no_rows()
                    &&& final(self).stream() == operator::no_rows()
                },
            },
    {
        let ghost whole = self.stream();
        while self.unmatched_right_index < self.right_tuples.len()
            invariant
                self.ready(),
                self.emitting_unmatched_right,
                self.stream() == whole,
                whole == old(self).stream(),
                self.columns() == old(self).columns(),
                self.limits() == old(self).limits(),
            decreases self.right_tuples.len() - self.unmatched_right_index,
        {
            let idx: usize = self.unmatched_right_index;
            self.unmatched_right_index = idx + 1;
            if !self.right_matched[idx] {
                let t: Tuple = join_pair::join_with_nulls_left(
                    &self.right_tuples[idx],
                    self.left_column_count,
                );
                assert(self.right_rows()[idx as int] == self.right_tuples@[idx as int]@);
                assert(self.stream() =~= whole.rest());
                return Some(t);
            }
        }
        assert(self.stream() =~= operator::no_rows());
        None
    }
}

/// What a nested loop join operator promises of the inputs it was built from.
pub open spec fn joins_as<L: PhysicalOperator + ?Sized>(
    op: NestedLoopJoinOperator<L>,
    left: RowStream,
    left_columns: Seq<ColumnModel>,
    right: RowStream,
    right_columns: Seq<ColumnModel>,
    join_type: JoinType,
    condition: Option<ExprModel>,
    params: Seq<ValueModel>,
    limit: usize,
) -> bool {
    &&& op.ready()
    &&& op.columns() == left_columns + right_columns
    &&& loaded(right, 0, limit) is Ok
    &&& op.stream() == loop_from_left(
        left,
        loaded(right, 0, limit)->Ok_0,
        none_matched(loaded(right, 0, limit)->Ok_0.len()),
        LoopJoin {
            test: pair_tester(condition, left_columns + right_columns, params),
            join_type,
            left_width: left_columns.len(),
            right_width: right_columns.len(),
        },
    )
}

impl<L: PhysicalOperator + ?Sized> PhysicalOperator for NestedLoopJoinOperator<L> {
    closed spec fn ready(&self) -> bool {
        &&& self.left.ready()
        &&& self.right_matched.len() == self.right_tuples.len()
        &&& self.right_index <= self.right_tuples.len()
        &&& self.unmatched_right_index <= self.right_tuples.len()
        &&& self.condition_pair_evaluable ==> self.on_condition is Some && join_pair::works_on_pair(
            self.on_condition->Some_0@,
        )
    }

    closed spec fn stream(&self) -> RowStream {
        if self.emitting_unmatched_right {
            operator::just_rows(
                unmatched_right(
                    self.right_rows(),
                    self.right_matched@,
                    self.unmatched_right_index as int,
                    self.left_column_count as nat,
                ),
            )
        } else {
            match self.left_tuple {
                Some(l) => loop_from_right(
                    l@,
                    self.right_index as int,
                    self.left_matched,
                    self.left.stream(),
                    self.right_rows(),
                    self.right_matched@,
                    self.join(),
                ),
                None => loop_from_left(
                    self.left.stream(),
                    self.right_rows(),
                    self.right_matched@,
                    self.join(),
                ),
            }
        }
    }

    closed spec fn columns(&self) -> Seq<ColumnModel> {
        self.output_schema@
    }

    closed spec fn limits(&self) -> Set<u64> {
        operator::with_limit_of(self.left.limits(), self.timeout_ctx)
    }

    fn next(&mut self) -> (r: Result<Option<Tuple>, Error>) {
        if self.emitting_unmatched_right {
            return Ok(self.emit_unmatched_right());
        }
        let ghost whole = self.stream();
        loop
            invariant
                self.ready(),
                !self.emitting_unmatched_right,
                self.stream() == whole,
                whole == old(self).stream(),
                self.columns() == old(self).columns(),
                self.limits() == old(self).limits(),
                self.left_tuple is Some ==> self.right_index <= self.right_tuples.len(),
            decreases
                self.left.stream().rows.len(),
                if self.left_tuple is Some {
                    1int
                } else {
                    0int
                },
        {
            match operator::check_time(&self.timeout_ctx) {
                Ok(_) => {},
                Err(e) => {
                    return Err(e);
                },
            }
            if self.left_tuple.is_none() {
                let ghost before = self.left.stream();
                match self.left.next() {
                    Err(e) => {
                        return Err(e);
                    },
                    Ok(None) => {
                        if join_pair::is_right_outer(self.join_type) {
                            self.emitting_unmatched_right = true;
                            self.unmatched_right_index = 0;
                            return Ok(self.emit_unmatched_right());
                        }
                        return Ok(None);
                    },
                    Ok(Some(t)) => {
                        self.left_tuple = Some(t);
                        self.right_index = 0;
                        self.left_matched = false;
                    },
                }
            }
            let l: &Tuple = self.left_tuple.as_ref().unwrap();
            let l: Tuple = l.clone();
            let ghost upcoming = self.left.stream();
            while self.right_index < self.right_tuples.len()
                invariant
                    self.ready(),
                    !self.emitting_unmatched_right,
                    self.left_tuple is Some,
                    self.left_tuple->Some_0@ == l@,
                    self.left.stream() == upcoming,
                    self.stream() == whole,
                    whole == old(self).stream(),
                    self.columns() == old(self).columns(),
                    self.limits() == old(self).limits(),
                decreases self.right_tuples.len() - self.right_index,
            {
                let idx: usize = self.right_index;
                let ghost ri = self.right_tuples@[idx as int]@;
                assert(self.right_rows()[idx as int] == ri);
                let test: Result<bool, Error> = match &self.on_condition {
                    Some(c) => join_pair::pair_satisfies(
                        &self.evaluator,
                        c,
                        self.condition_pair_evaluable,
                        &l,
                        &self.right_tuples[idx],
                    ),
                    None => Ok(true),
                };
                assert((self.join().test)(l@, ri) == join_pair::test_model(test));
                self.right_index = idx + 1;
                match test {
                    Err(e) => {
                        return Err(e);
                    },
                    Ok(true) => {
                        let t: Tuple = join_pair::join_tuples(&l, &self.right_tuples[idx]);
                        self.left_matched = true;
                        if join_pair::is_right_outer(self.join_type) {
                            self.right_matched.set(idx, true);
                        }
                        proof {
                            operator::lemma_after_rest(
                                self.stream(),
                                join_pair::combined_row(l@, ri),
                            );
                        }
                        return Ok(Some(t));
                    },
                    Ok(false) => {},
                }
            }
            if !self.left_matched && join_pair::is_left_outer(self.join_type) {
                let t: Tuple = join_pair::join_with_nulls_right(&l, self.right_column_count);
                self.left_tuple = None;
                proof {
                    operator::lemma_after_rest(
                        self.stream(),
                        join_pair::left_alone(l@, self.right_column_count as nat),
                    );
                }
                return Ok(Some(t));
            }
            self.left_tuple = None;
        }
    }

    fn schema(&self) -> (r: Arc<Schema>) {
        self.output_schema.clone()
    }
}

} // verus!
