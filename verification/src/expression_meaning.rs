//! What expressions mean: truth values in three grades, comparisons, ranges and lists,
//! whole-number arithmetic, and patterns.

use crate::compare;
use crate::evaluator;
use crate::logical_plan::{BinaryOperator, ExprModel, UnaryOperator};
use crate::operators;
use crate::schema::{ColumnModel, ErrorModel};
use crate::text;
use crate::text::Order;
use crate::value::{TimeOfDay, Timestamp, ValueModel};
use vstd::prelude::*;

verus! {

/// How true a truth value is: false, unknown, true.
pub open spec fn grade(v: ValueModel) -> int {
    match v {
        ValueModel::Boolean(true) => 2,
        ValueModel::Boolean(false) => 0,
        _ => 1,
    }
}

/// Whether a value is true, false or NULL.
pub open spec fn is_truth_value(v: ValueModel) -> bool {
    v is Boolean || v is Null
}

/// The truth value of a grade.
pub open spec fn graded(n: int) -> Result<ValueModel, ErrorModel> {
    Ok(
        if n == 2 {
            ValueModel::Boolean(true)
        } else if n == 0 {
            ValueModel::Boolean(false)
        } else {
            ValueModel::Null
        },
    )
}

pub open spec fn binary(a: ExprModel, op: BinaryOperator, b: ExprModel) -> ExprModel {
    ExprModel::BinaryExpr { left: Box::new(a), op, right: Box::new(b) }
}

pub open spec fn negation(a: ExprModel) -> ExprModel {
    ExprModel::UnaryExpr { op: UnaryOperator::Not, expr: Box::new(a) }
}

/// `AND` is the lower of two grades, `OR` the higher one, and `NOT` turns the grades
/// round. The first operand decides alone where it can: then the second one may fail.
pub proof fn law_connectives_follow_the_grades(
    a: ExprModel,
    b: ExprModel,
    cols: Seq<ColumnModel>,
    params: Seq<ValueModel>,
    row: Seq<ValueModel>,
)
    requires
        evaluator::eval(a, cols, params, row) is Ok,
        is_truth_value(evaluator::eval(a, cols, params, row)->Ok_0),
    ensures
        ({
            let x = grade(evaluator::eval(a, cols, params, row)->Ok_0);
            let second = evaluator::eval(b, cols, params, row);
            let both = evaluator::eval(binary(a, BinaryOperator::And, b), cols, params, row);
            let either = evaluator::eval(binary(a, BinaryOperator::Or, b), cols, params, row);
            &&& evaluator::eval(negation(a), cols, params, row) == graded(2 - x)
            &&& x == 0 ==> both == graded(0)
            &&& x == 2 ==> either == graded(2)
            &&& (second is Ok && is_truth_value(second->Ok_0)) ==> {
                let y = grade(second->Ok_0);
                &&& both == graded(
                    if x < y {
                        x
                    } else {
                        y
                    },
                )
                &&& either == graded(
                    if x < y {
                        y
                    } else {
                        x
                    },
                )
            }
            &&& second is Err ==> {
                &&& x != 0 ==> both == second
                &&& x != 2 ==> either == second
            }
        }),
{
}

/// What a comparison of two values gives.
pub open spec fn compared(a: ValueModel, op: BinaryOperator, b: ValueModel) -> Result<
    ValueModel,
    ErrorModel,
> {
    evaluator::binary_value(a, op, b)
}

pub open spec fn yes(b: bool) -> Result<ValueModel, ErrorModel> {
    Ok(ValueModel::Boolean(b))
}

/// A comparison with NULL is NULL, whichever operator it is.
pub proof fn law_null_compares_as_null(v: ValueModel, op: BinaryOperator)
    requires
        evaluator::is_comparison(op),
    ensures
        compared(ValueModel::Null, op, v) == Ok::<ValueModel, ErrorModel>(ValueModel::Null),
        compared(v, op, ValueModel::Null) == Ok::<ValueModel, ErrorModel>(ValueModel::Null),
{
}

/// Of two values that can be compared exactly one of less, equal and greater holds; the
/// other operators are their negations, and each reads the same the other way round.
pub proof fn law_comparisons_hang_together(a: ValueModel, b: ValueModel)
    requires
        compared(a, BinaryOperator::Eq, b) matches Ok(v) && v is Boolean,
    ensures
        ({
            let less = compared(a, BinaryOperator::Lt, b) == yes(true);
            let same = compared(a, BinaryOperator::Eq, b) == yes(true);
            let more = compared(a, BinaryOperator::Gt, b) == yes(true);
            &&& less || same || more
            &&& !(less && same)
            &&& !(less && more)
            &&& !(same && more)
            &&& compared(a, BinaryOperator::Lt, b) == yes(less)
            &&& compared(a, BinaryOperator::Gt, b) == yes(more)
            &&& compared(a, BinaryOperator::NotEq, b) == yes(!same)
            &&& compared(a, BinaryOperator::LtEq, b) == yes(!more)
            &&& compared(a, BinaryOperator::GtEq, b) == yes(!less)
            &&& compared(b, BinaryOperator::Gt, a) == yes(less)
            &&& compared(b, BinaryOperator::Lt, a) == yes(more)
            &&& compared(b, BinaryOperator::Eq, a) == yes(same)
        }),
{
    compare::law_direct_order_is_antisymmetric(a, b);
}

/// Whole numbers compare by value, whatever their widths, both in predicates and, where
/// the widths agree, in a sort.
pub proof fn law_whole_numbers_compare_by_value(a: ValueModel, b: ValueModel)
    requires
        compare::int_value(a) is Some,
        compare::int_value(b) is Some,
    ensures
        ({
            let x = compare::int_value(a)->Some_0;
            let y = compare::int_value(b)->Some_0;
            &&& compared(a, BinaryOperator::Eq, b) == yes(x == y)
            &&& compared(a, BinaryOperator::Lt, b) == yes(x < y)
            &&& compared(a, BinaryOperator::Gt, b) == yes(x > y)
            &&& operators::width(a) == operators::width(b) ==> (compare::sort_order(a, b)
                == if x < y {
                Order::Less
            } else if x > y {
                Order::Greater
            } else {
                Order::Equal
            })
        }),
{
}

/// A whole number is what it was written as, in each of its widths.
pub proof fn law_whole_numbers_keep_their_value(x: i16, y: i32, z: i64)
    ensures
        compare::int_value(ValueModel::Int2(x)) == Some(x as i64),
        compare::int_value(ValueModel::Int4(y)) == Some(y as i64),
        compare::int_value(ValueModel::Int8(z)) == Some(z),
{
}

/// Texts are equal exactly where they are the same text.
pub proof fn law_texts_are_equal_where_they_are_the_same(x: Seq<char>, y: Seq<char>)
    ensures
        compared(ValueModel::String(x), BinaryOperator::Eq, ValueModel::String(y)) == yes(x == y),
        (compare::sort_order(ValueModel::String(x), ValueModel::String(y)) == Order::Equal) == (x
            == y),
{
    text::lemma_lex_equal(text::codes(x), text::codes(y));
    text::lemma_codes_injective(x, y);
}

/// Of two texts the first character that differs decides, and a text comes before every
/// longer one that begins with it.
pub proof fn law_texts_compare_by_their_first_difference(
    head: Seq<char>,
    c: char,
    d: char,
    x: Seq<char>,
    y: Seq<char>,
)
    requires
        c < d,
    ensures
        compared(
            ValueModel::String(head + seq![c] + x),
            BinaryOperator::Lt,
            ValueModel::String(head + seq![d] + y),
        ) == yes(true),
        compared(
            ValueModel::String(head),
            BinaryOperator::Lt,
            ValueModel::String(head + seq![d] + y),
        ) == yes(true),
        compare::sort_order(
            ValueModel::String(head + seq![c] + x),
            ValueModel::String(head + seq![d] + y),
        ) == Order::Less,
        compare::sort_order(ValueModel::String(head), ValueModel::String(head + seq![d] + y))
            == Order::Less,
{
    lemma_first_difference(head, c, d, x, y);
}

proof fn lemma_first_difference(head: Seq<char>, c: char, d: char, x: Seq<char>, y: Seq<char>)
    requires
        c < d,
    ensures
        text::text_order(head + seq![c] + x, head + seq![d] + y) == Order::Less,
        text::text_order(head, head + seq![d] + y) == Order::Less,
    decreases head.len(),
{
    let a = head + seq![c] + x;
    let b = head + seq![d] + y;
    let ca = text::codes(a);
    let cb = text::codes(b);
    let ch = text::codes(head);
    if head.len() == 0 {
        assert(a[0] == c);
        assert(b[0] == d);
        assert(ca[0] == c as int);
        assert(cb[0] == d as int);
    } else {
        let rest = head.drop_first();
        lemma_first_difference(rest, c, d, x, y);
        assert(a.drop_first() =~= rest + seq![c] + x);
        assert(b.drop_first() =~= rest + seq![d] + y);
        assert(ca.drop_first() =~= text::codes(a.drop_first()));
        assert(cb.drop_first() =~= text::codes(b.drop_first()));
        assert(ch.drop_first() =~= text::codes(rest));
        assert(ca[0] == head[0] as int);
        assert(cb[0] == head[0] as int);
        assert(ch[0] == head[0] as int);
    }
}

/// `BETWEEN` is two comparisons held together with `AND`, and `NOT BETWEEN` its negation,
/// where all three operands have a value and compare.
pub proof fn law_between_is_two_comparisons(
    e: ExprModel,
    low: ExprModel,
    high: ExprModel,
    cols: Seq<ColumnModel>,
    params: Seq<ValueModel>,
    row: Seq<ValueModel>,
)
    requires
        evaluator::eval(e, cols, params, row) is Ok,
        evaluator::eval(low, cols, params, row) is Ok,
        evaluator::eval(high, cols, params, row) is Ok,
    ensures
        ({
            let within = ExprModel::Between {
                expr: Box::new(e),
                low: Box::new(low),
                high: Box::new(high),
                negated: false,
            };
            let without = ExprModel::Between {
                expr: Box::new(e),
                low: Box::new(low),
                high: Box::new(high),
                negated: true,
            };
            let both = binary(
                binary(e, BinaryOperator::GtEq, low),
                BinaryOperator::And,
                binary(e, BinaryOperator::LtEq, high),
            );
            &&& evaluator::eval(within, cols, params, row) == evaluator::eval(
                both,
                cols,
                params,
                row,
            )
            &&& evaluator::eval(without, cols, params, row) == evaluator::eval(
                negation(both),
                cols,
                params,
                row,
            )
        }),
{
    let x = evaluator::eval(e, cols, params, row)->Ok_0;
    let lo = evaluator::eval(low, cols, params, row)->Ok_0;
    let hi = evaluator::eval(high, cols, params, row)->Ok_0;
    let a = binary(e, BinaryOperator::GtEq, low);
    let b = binary(e, BinaryOperator::LtEq, high);
    assert(evaluator::eval(a, cols, params, row) == evaluator::binary_value(
        x,
        BinaryOperator::GtEq,
        lo,
    ));
    assert(evaluator::eval(b, cols, params, row) == evaluator::binary_value(
        x,
        BinaryOperator::LtEq,
        hi,
    ));
    let both = binary(a, BinaryOperator::And, b);
    assert(evaluator::eval(both, cols, params, row) == match evaluator::eval(a, cols, params, row) {
        Err(err) => Err(err),
        Ok(v) => evaluator::and_value(v, evaluator::eval(b, cols, params, row)),
    });
}

/// Asking for a value in a list: true where one is equal, else NULL where a comparison is
/// NULL, else false.
pub proof fn lemma_membership_answers(x: ValueModel, items: Seq<ValueModel>, from: int, open: bool)
    requires
        0 <= from,
        forall|i: int|
            from <= i < items.len() ==> compared(x, BinaryOperator::Eq, #[trigger] items[i]) is Ok,
    ensures
        ({
            let r = evaluator::membership(x, items, from, open);
            let found = exists|i: int|
                from <= i < items.len() && compared(x, BinaryOperator::Eq, #[trigger] items[i])
                    == yes(true);
            let unknown = open || exists|i: int|
                from <= i < items.len() && compared(x, BinaryOperator::Eq, #[trigger] items[i])
                    == Ok::<ValueModel, ErrorModel>(ValueModel::Null);
            r == if found {
                yes(true)
            } else if unknown {
                Ok(ValueModel::Null)
            } else {
                yes(false)
            }
        }),
    decreases items.len() - from,
{
    if from < items.len() {
        let here = compared(x, BinaryOperator::Eq, items[from]);
        let null = Ok::<ValueModel, ErrorModel>(ValueModel::Null);
        lemma_membership_answers(x, items, from + 1, open || here == null);
        assert(here is Ok);
        assert(here == yes(true) || here == yes(false) || here == null);
        if exists|i: int|
            from <= i < items.len() && compared(x, BinaryOperator::Eq, #[trigger] items[i]) == yes(
                true,
            ) {
            let i = choose|i: int|
                from <= i < items.len() && compared(x, BinaryOperator::Eq, #[trigger] items[i])
                    == yes(true);
            assert(i == from || from + 1 <= i);
        }
        if exists|i: int|
            from <= i < items.len() && compared(x, BinaryOperator::Eq, #[trigger] items[i])
                == null {
            let i = choose|i: int|
                from <= i < items.len() && compared(x, BinaryOperator::Eq, #[trigger] items[i])
                    == null;
            assert(i == from || from + 1 <= i);
        }
    }
}

/// `IN` a list is true where some item equals the value; else NULL where some comparison
/// is NULL; else false. `NOT IN` is its negation.
pub proof fn law_in_a_list_is_some_equality(
    e: ExprModel,
    list: Seq<ExprModel>,
    negated: bool,
    cols: Seq<ColumnModel>,
    params: Seq<ValueModel>,
    row: Seq<ValueModel>,
)
    requires
        evaluator::eval(e, cols, params, row) is Ok,
        evaluator::eval_all(list, cols, params, row) is Ok,
        forall|i: int|
            0 <= i < list.len() ==> evaluator::eval(
                binary(e, BinaryOperator::Eq, #[trigger] list[i]),
                cols,
                params,
                row,
            ) is Ok,
    ensures
        ({
            let found = exists|i: int|
                0 <= i < list.len() && evaluator::eval(
                    binary(e, BinaryOperator::Eq, #[trigger] list[i]),
                    cols,
                    params,
                    row,
                ) == yes(true);
            let unknown = exists|i: int|
                0 <= i < list.len() && evaluator::eval(
                    binary(e, BinaryOperator::Eq, #[trigger] list[i]),
                    cols,
                    params,
                    row,
                ) == Ok::<ValueModel, ErrorModel>(ValueModel::Null);
            let among = ExprModel::InList { expr: Box::new(e), list, negated };
            evaluator::eval(among, cols, params, row) == if found {
                yes(!negated)
            } else if unknown {
                Ok(ValueModel::Null)
            } else {
                yes(negated)
            }
        }),
{
    let x = evaluator::eval(e, cols, params, row)->Ok_0;
    let items = evaluator::eval_all(list, cols, params, row)->Ok_0;
    evaluator::lemma_list_values(list, cols, params, row);
    assert forall|i: int| 0 <= i < list.len() implies evaluator::eval(
        binary(e, BinaryOperator::Eq, #[trigger] list[i]),
        cols,
        params,
        row,
    ) == compared(x, BinaryOperator::Eq, items[i]) by {
        assert(evaluator::eval(list[i], cols, params, row) == Ok::<ValueModel, ErrorModel>(
            items[i],
        ));
    }
    assert forall|i: int| 0 <= i < items.len() implies compared(
        x,
        BinaryOperator::Eq,
        #[trigger] items[i],
    ) is Ok by {
        assert(evaluator::eval(binary(e, BinaryOperator::Eq, list[i]), cols, params, row) is Ok);
    }
    lemma_membership_answers(x, items, 0, false);
    let null = Ok::<ValueModel, ErrorModel>(ValueModel::Null);
    if exists|i: int| 0 <= i < items.len() && compared(x, BinaryOperator::Eq, #[trigger] items[i])
        == yes(true) {
        let i = choose|i: int|
            0 <= i < items.len() && compared(x, BinaryOperator::Eq, #[trigger] items[i]) == yes(
                true,
            );
        assert(evaluator::eval(binary(e, BinaryOperator::Eq, list[i]), cols, params, row) == yes(
            true,
        ));
    }
    if exists|i: int| 0 <= i < items.len() && compared(x, BinaryOperator::Eq, #[trigger] items[i])
        == null {
        let i = choose|i: int|
            0 <= i < items.len() && compared(x, BinaryOperator::Eq, #[trigger] items[i]) == null;
        assert(evaluator::eval(binary(e, BinaryOperator::Eq, list[i]), cols, params, row) == null);
    }
    if exists|i: int|
        0 <= i < list.len() && evaluator::eval(
            binary(e, BinaryOperator::Eq, #[trigger] list[i]),
            cols,
            params,
            row,
        ) == yes(true) {
        let i = choose|i: int|
            0 <= i < list.len() && evaluator::eval(
                binary(e, BinaryOperator::Eq, #[trigger] list[i]),
                cols,
                params,
                row,
            ) == yes(true);
        assert(compared(x, BinaryOperator::Eq, items[i]) == yes(true));
    }
    if exists|i: int|
        0 <= i < list.len() && evaluator::eval(
            binary(e, BinaryOperator::Eq, #[trigger] list[i]),
            cols,
            params,
            row,
        ) == null {
        let i = choose|i: int|
            0 <= i < list.len() && evaluator::eval(
                binary(e, BinaryOperator::Eq, #[trigger] list[i]),
                cols,
                params,
                row,
            ) == null;
        assert(compared(x, BinaryOperator::Eq, items[i]) == null);
    }
}

/// `IS NULL` asks for NULL, `IS NOT NULL` for anything else, and neither is ever NULL.
pub proof fn law_is_null_asks_for_null(
    e: ExprModel,
    cols: Seq<ColumnModel>,
    params: Seq<ValueModel>,
    row: Seq<ValueModel>,
)
    requires
        evaluator::eval(e, cols, params, row) is Ok,
    ensures
        ({
            let null = evaluator::eval(e, cols, params, row)->Ok_0 == ValueModel::Null;
            let asked = ExprModel::IsNull { expr: Box::new(e), is_null: true };
            let denied = ExprModel::IsNull { expr: Box::new(e), is_null: false };
            &&& evaluator::eval(asked, cols, params, row) == yes(null)
            &&& evaluator::eval(denied, cols, params, row) == yes(!null)
        }),
{
}

proof fn lemma_branch_taken(
    branches: Seq<(ExprModel, ExprModel)>,
    n: int,
    cols: Seq<ColumnModel>,
    params: Seq<ValueModel>,
    row: Seq<ValueModel>,
)
    requires
        0 <= n <= branches.len(),
        forall|i: int|
            0 <= i < n ==> (evaluator::eval((#[trigger] branches[i]).0, cols, params, row) matches Ok(v)
                && is_truth_value(v) && v != ValueModel::Boolean(true)),
        n < branches.len() ==> evaluator::eval(branches[n].0, cols, params, row) == yes(true),
    ensures
        evaluator::first_branch(None, branches, cols, params, row) == if n < branches.len() {
            match evaluator::eval(branches[n].1, cols, params, row) {
                Ok(v) => Ok(Some(v)),
                Err(e) => Err(e),
            }
        } else {
            Ok(None)
        },
    decreases n,
{
    if n > 0 {
        let rest = branches.drop_first();
        assert(evaluator::eval(branches[0].0, cols, params, row) is Ok);
        assert forall|i: int| 0 <= i < n - 1 implies (evaluator::eval(
            (#[trigger] rest[i]).0,
            cols,
            params,
            row,
        ) matches Ok(v) && is_truth_value(v) && v != ValueModel::Boolean(true)) by {
            assert(rest[i] == branches[i + 1]);
        }
        if n < branches.len() {
            assert(rest[n - 1] == branches[n]);
        }
        lemma_branch_taken(rest, n - 1, cols, params, row);
    }
}

/// `CASE` without a subject is the result of the first branch whose condition is true;
/// where none is, it is the `ELSE`, and NULL without one. Later branches are not looked at.
pub proof fn law_case_takes_the_first_true_branch(
    branches: Seq<(ExprModel, ExprModel)>,
    last: Option<Box<ExprModel>>,
    n: int,
    cols: Seq<ColumnModel>,
    params: Seq<ValueModel>,
    row: Seq<ValueModel>,
)
    requires
        0 <= n <= branches.len(),
        forall|i: int|
            0 <= i < n ==> (evaluator::eval((#[trigger] branches[i]).0, cols, params, row) matches Ok(v)
                && is_truth_value(v) && v != ValueModel::Boolean(true)),
        n < branches.len() ==> evaluator::eval(branches[n].0, cols, params, row) == yes(true),
    ensures
        ({
            let e = ExprModel::Case { expr: None, when_then: branches, else_result: last };
            evaluator::eval(e, cols, params, row) == if n < branches.len() {
                evaluator::eval(branches[n].1, cols, params, row)
            } else {
                match last {
                    Some(x) => evaluator::eval(*x, cols, params, row),
                    None => Ok(ValueModel::Null),
                }
            }
        }),
{
    lemma_branch_taken(branches, n, cols, params, row);
}

/// Whether a whole number fits into the wider of two values.
pub open spec fn fits_wider(n: int, a: ValueModel, b: ValueModel) -> bool {
    let w = if operators::width(a) < operators::width(b) {
        operators::width(b)
    } else {
        operators::width(a)
    };
    if w == 2 {
        -32768 <= n <= 32767
    } else if w == 4 {
        -2147483648 <= n <= 2147483647
    } else {
        -9223372036854775808 <= n <= 9223372036854775807
    }
}

/// Whether a computation gave a whole number, or failed because that number is too large
/// for the wider of its operands.
pub open spec fn gives(r: Result<ValueModel, ErrorModel>, n: int, a: ValueModel, b: ValueModel) -> bool {
    if fits_wider(n, a, b) {
        r matches Ok(v) && compare::int_value(v) is Some && compare::int_value(v)->Some_0 == n
    } else {
        r is Err
    }
}

/// Sums, differences and products of whole numbers are exact, in the wider of the two
/// widths, and fail where they do not fit.
pub proof fn law_arithmetic_is_exact(a: ValueModel, b: ValueModel)
    requires
        compare::int_value(a) is Some,
        compare::int_value(b) is Some,
    ensures
        ({
            let x = compare::int_value(a)->Some_0;
            let y = compare::int_value(b)->Some_0;
            &&& gives(evaluator::binary_value(a, BinaryOperator::Plus, b), x + y, a, b)
            &&& gives(evaluator::binary_value(a, BinaryOperator::Minus, b), x - y, a, b)
            &&& gives(evaluator::binary_value(a, BinaryOperator::Multiply, b), x * y, a, b)
        }),
{
}

/// A quotient is cut off towards zero, and the remainder has the sign of the dividend:
/// together they give the dividend back. Dividing by zero fails.
pub proof fn law_division_gives_the_dividend_back(a: ValueModel, b: ValueModel)
    requires
        compare::int_value(a) is Some,
        compare::int_value(b) is Some,
    ensures
        ({
            let x = compare::int_value(a)->Some_0;
            let y = compare::int_value(b)->Some_0;
            let q = evaluator::binary_value(a, BinaryOperator::Divide, b);
            let r = evaluator::binary_value(a, BinaryOperator::Modulo, b);
            if y == 0 {
                q is Err && r is Err
            } else {
                q is Ok && r is Ok ==> {
                    let m = compare::int_value(q->Ok_0)->Some_0;
                    let n = compare::int_value(r->Ok_0)->Some_0;
                    &&& compare::int_value(q->Ok_0) is Some
                    &&& compare::int_value(r->Ok_0) is Some
                    &&& x == m * y + n
                    &&& x >= 0 ==> n >= 0
                    &&& x <= 0 ==> n <= 0
                    &&& if y > 0 {
                        -y < n < y
                    } else {
                        y < n < -y
                    }
                }
            }
        }),
{
    let x = compare::int_value(a)->Some_0;
    let y = compare::int_value(b)->Some_0;
    if y != 0 {
        lemma_quotient(x, y);
    }
}

proof fn lemma_quotient(x: i64, y: i64)
    requires
        y != 0,
    ensures
        ({
            let q = operators::quotient(x, y);
            let r = operators::remainder(x, y);
            &&& x == q * y + r
            &&& x >= 0 ==> r >= 0
            &&& x <= 0 ==> r <= 0
            &&& if y > 0 {
                -y < r < y
            } else {
                y < r < -y
            }
        }),
{
    let ax: int = if x < 0 {
        -x
    } else {
        x as int
    };
    let ay: int = if y < 0 {
        -y
    } else {
        y as int
    };
    let q = ax / ay;
    let r = ax % ay;
    vstd::arithmetic::div_mod::lemma_fundamental_div_mod(ax, ay);
    assert(0 <= r < ay) by (nonlinear_arith)
        requires
            ay > 0,
            r == ax % ay,
    ;
    assert(ax == ay * q + r);
    assert(ay * q == q * ay) by (nonlinear_arith);
    assert((-q) * ay == -(q * ay)) by (nonlinear_arith);
    assert(q * (-ay) == -(q * ay)) by (nonlinear_arith);
    assert((-q) * (-ay) == q * ay) by (nonlinear_arith);
}

/// Joining two texts puts the second behind the first, and joining with NULL is NULL.
pub proof fn law_joined_texts_follow_each_other(x: Seq<char>, y: Seq<char>)
    ensures
        ({
            let r = evaluator::binary_value(
                ValueModel::String(x),
                BinaryOperator::Concat,
                ValueModel::String(y),
            );
            &&& r is Ok
            &&& r->Ok_0 is String
            &&& r->Ok_0->String_0.len() == x.len() + y.len()
            &&& r->Ok_0->String_0.take(x.len() as int) == x
            &&& r->Ok_0->String_0.skip(x.len() as int) == y
            &&& evaluator::binary_value(
                ValueModel::Null,
                BinaryOperator::Concat,
                ValueModel::String(y),
            ) == Ok::<ValueModel, ErrorModel>(ValueModel::Null)
            &&& evaluator::binary_value(
                ValueModel::String(x),
                BinaryOperator::Concat,
                ValueModel::Null,
            ) == Ok::<ValueModel, ErrorModel>(ValueModel::Null)
        }),
{
    assert((x + y).take(x.len() as int) =~= x);
    assert((x + y).skip(x.len() as int) =~= y);
}

/// The negative of a whole number is that number below zero, and negating it again gives
/// the number back, where both fit.
pub proof fn law_negation_turns_the_sign(v: ValueModel)
    requires
        compare::int_value(v) is Some,
    ensures
        ({
            let n = compare::int_value(v)->Some_0;
            let r = evaluator::unary_value(UnaryOperator::Minus, v);
            &&& gives(r, -n, v, v)
            &&& r is Ok ==> evaluator::unary_value(UnaryOperator::Minus, r->Ok_0) == Ok::<
                ValueModel,
                ErrorModel,
            >(v)
            &&& evaluator::unary_value(UnaryOperator::Plus, v) == Ok::<ValueModel, ErrorModel>(v)
        }),
{
}

/// Whether a pattern can be cut off at its end: no backslash is waiting for a character.
pub open spec fn is_whole_pattern(p: Seq<char>) -> bool
    decreases p.len(),
{
    if p.len() == 0 {
        true
    } else if p[0] == '\\' {
        p.len() > 1 && is_whole_pattern(p.skip(2))
    } else {
        is_whole_pattern(p.drop_first())
    }
}

/// A text matches the one-character patterns as they say: `%` any text, `_` any one
/// character, a backslash the character behind it, and any other character itself. The
/// empty pattern matches the empty text alone.
pub proof fn law_patterns_of_one_character(s: Seq<char>, c: char)
    ensures
        operators::like(s, Seq::empty()) == (s.len() == 0),
        operators::like(s, seq!['%']),
        operators::like(s, seq!['_']) == (s.len() == 1),
        operators::like(s, seq!['\\', c]) == (s =~= seq![c]),
        c != '%' && c != '_' && c != '\\' ==> operators::like(s, seq![c]) == (s =~= seq![c]),
{
    let none = Seq::<char>::empty();
    assert(seq!['%'].drop_first() =~= none);
    assert(seq!['_'].drop_first() =~= none);
    assert(seq![c].drop_first() =~= none);
    assert(seq!['\\', c].skip(2) =~= none);
    lemma_any_text(s);
    if s.len() == 1 {
        assert(s.drop_first() =~= none);
        assert(s =~= seq![s[0]]);
    }
    if s.len() > 0 {
        assert(operators::like(s.drop_first(), none) == (s.drop_first().len() == 0));
    }
}

proof fn lemma_any_text(s: Seq<char>)
    ensures
        operators::like(s, seq!['%']),
    decreases s.len(),
{
    let none = Seq::<char>::empty();
    assert(seq!['%'].drop_first() =~= none);
    assert(operators::like(s, none) == (s.len() == 0));
    if s.len() > 0 {
        lemma_any_text(s.drop_first());
    }
}

/// A text matches one pattern followed by another exactly where it can be cut in two so
/// that the first part matches the first pattern and the second part the second one.
pub proof fn law_patterns_match_in_parts(s: Seq<char>, p: Seq<char>, q: Seq<char>)
    requires
        is_whole_pattern(p),
    ensures
        operators::like(s, p + q) == exists|k: int|
            0 <= k <= s.len() && operators::like(#[trigger] s.take(k), p) && operators::like(
                s.skip(k),
                q,
            ),
    decreases p.len(), s.len(),
{
    let all = p + q;
    if p.len() == 0 {
        assert(all =~= q);
        assert(s.skip(0) =~= s);
        assert(s.take(0).len() == 0);
        assert(operators::like(s.take(0), p));
        if exists|k: int|
            0 <= k <= s.len() && operators::like(#[trigger] s.take(k), p) && operators::like(
                s.skip(k),
                q,
            ) {
            let k = choose|k: int|
                0 <= k <= s.len() && operators::like(#[trigger] s.take(k), p) && operators::like(
                    s.skip(k),
                    q,
                );
            assert(s.take(k).len() == 0);
        }
    } else if p[0] == '%' {
        lemma_parts_after_any(s, p, q);
    } else if p[0] == '\\' {
        let rest = p.skip(2);
        assert(all.skip(2) =~= rest + q);
        assert(all[1] == p[1]);
        lemma_parts_after_one(s, p, q, rest, p[1], false);
    } else {
        let rest = p.drop_first();
        assert(all.drop_first() =~= rest + q);
        lemma_parts_after_one(s, p, q, rest, p[0], p[0] == '_');
    }
}

proof fn lemma_parts_after_any(s: Seq<char>, p: Seq<char>, q: Seq<char>)
    requires
        p.len() > 0,
        p[0] == '%',
        is_whole_pattern(p),
    ensures
        operators::like(s, p + q) == exists|k: int|
            0 <= k <= s.len() && operators::like(#[trigger] s.take(k), p) && operators::like(
                s.skip(k),
                q,
            ),
    decreases p.len(), s.len(), 0int,
{
    let all = p + q;
    let rest = p.drop_first();
    assert(all.drop_first() =~= rest + q);
    assert(all[0] == '%');
    law_patterns_match_in_parts(s, rest, q);
    if operators::like(s, rest + q) {
        let k = choose|k: int|
            0 <= k <= s.len() && operators::like(#[trigger] s.take(k), rest) && operators::like(
                s.skip(k),
                q,
            );
        assert(operators::like(s.take(k), p));
    }
    if s.len() > 0 {
        let t = s.drop_first();
        lemma_parts_after_any(t, p, q);
        if operators::like(t, all) {
            let k = choose|k: int|
                0 <= k <= t.len() && operators::like(#[trigger] t.take(k), p) && operators::like(
                    t.skip(k),
                    q,
                );
            assert(s.take(k + 1).drop_first() =~= t.take(k));
            assert(s.skip(k + 1) =~= t.skip(k));
            assert(operators::like(s.take(k + 1), p));
        }
    }
    if exists|k: int|
        0 <= k <= s.len() && operators::like(#[trigger] s.take(k), p) && operators::like(
            s.skip(k),
            q,
        ) {
        let k = choose|k: int|
            0 <= k <= s.len() && operators::like(#[trigger] s.take(k), p) && operators::like(
                s.skip(k),
                q,
            );
        if operators::like(s.take(k), rest) {
            assert(operators::like(s, rest + q));
        } else {
            assert(k > 0);
            let t = s.drop_first();
            assert(s.take(k).drop_first() =~= t.take(k - 1));
            assert(s.skip(k) =~= t.skip(k - 1));
            assert(operators::like(t, all));
        }
    }
}

proof fn lemma_parts_after_one(
    s: Seq<char>,
    p: Seq<char>,
    q: Seq<char>,
    rest: Seq<char>,
    c: char,
    any: bool,
)
    requires
        p.len() > 0,
        rest.len() < p.len(),
        is_whole_pattern(rest),
        forall|t: Seq<char>| #[trigger]
            operators::like(t, p) == (t.len() > 0 && (any || t[0] == c) && operators::like(
                t.drop_first(),
                rest,
            )),
        operators::like(s, p + q) == (s.len() > 0 && (any || s[0] == c) && operators::like(
            s.drop_first(),
            rest + q,
        )),
    ensures
        operators::like(s, p + q) == exists|k: int|
            0 <= k <= s.len() && operators::like(#[trigger] s.take(k), p) && operators::like(
                s.skip(k),
                q,
            ),
    decreases rest.len(), s.len(), 1int,
{
    if s.len() > 0 {
        let t = s.drop_first();
        law_patterns_match_in_parts(t, rest, q);
        if operators::like(s, p + q) {
            let k = choose|k: int|
                0 <= k <= t.len() && operators::like(#[trigger] t.take(k), rest)
                    && operators::like(t.skip(k), q);
            assert(s.take(k + 1).drop_first() =~= t.take(k));
            assert(s.take(k + 1)[0] == s[0]);
            assert(s.skip(k + 1) =~= t.skip(k));
            assert(operators::like(s.take(k + 1), p));
        }
    }
    if exists|k: int|
        0 <= k <= s.len() && operators::like(#[trigger] s.take(k), p) && operators::like(
            s.skip(k),
            q,
        ) {
        let k = choose|k: int|
            0 <= k <= s.len() && operators::like(#[trigger] s.take(k), p) && operators::like(
                s.skip(k),
                q,
            );
        assert(k > 0);
        let t = s.drop_first();
        assert(s.take(k)[0] == s[0]);
        assert(s.take(k).drop_first() =~= t.take(k - 1));
        assert(s.skip(k) =~= t.skip(k - 1));
        assert(operators::like(t.take(k - 1), rest));
        law_patterns_match_in_parts(t, rest, q);
        assert(operators::like(t, rest + q));
    }
}

/// `LIKE` of two texts is whether the first matches the second, `NOT LIKE` whether it does
/// not, and either is NULL with NULL.
pub proof fn law_like_asks_for_a_match(s: Seq<char>, p: Seq<char>)
    ensures
        evaluator::binary_value(ValueModel::String(s), BinaryOperator::Like, ValueModel::String(p))
            == yes(operators::like(s, p)),
        evaluator::binary_value(
            ValueModel::String(s),
            BinaryOperator::NotLike,
            ValueModel::String(p),
        ) == yes(!operators::like(s, p)),
        evaluator::binary_value(ValueModel::Null, BinaryOperator::Like, ValueModel::String(p))
            == Ok::<ValueModel, ErrorModel>(ValueModel::Null),
        evaluator::binary_value(ValueModel::String(s), BinaryOperator::NotLike, ValueModel::Null)
            == Ok::<ValueModel, ErrorModel>(ValueModel::Null),
{
}

/// False comes before true; days, times of day and points in time compare by how early
/// they are.
pub proof fn law_time_runs_forward(
    x: bool,
    y: bool,
    d: i32,
    e: i32,
    t: Timestamp,
    u: Timestamp,
    v: TimeOfDay,
    w: TimeOfDay,
)
    ensures
        compared(ValueModel::Boolean(x), BinaryOperator::Lt, ValueModel::Boolean(y)) == yes(!x && y),
        compared(ValueModel::Date(d), BinaryOperator::Lt, ValueModel::Date(e)) == yes(d < e),
        compared(ValueModel::Timestamp(t), BinaryOperator::Lt, ValueModel::Timestamp(u)) == yes(
            t.secs < u.secs || (t.secs == u.secs && t.nanos < u.nanos),
        ),
        compared(ValueModel::Time(v), BinaryOperator::Lt, ValueModel::Time(w)) == yes(
            v.secs < w.secs || (v.secs == w.secs && v.nanos < w.nanos),
        ),
        compared(ValueModel::Timestamp(t), BinaryOperator::Eq, ValueModel::Timestamp(u)) == yes(
            t.secs == u.secs && t.nanos == u.nanos,
        ),
{
}

/// Whether the bits of a double-precision number have the sign of a negative one.
pub open spec fn is_signed(bits: u64) -> bool {
    bits >= 0x8000_0000_0000_0000
}

/// Double-precision numbers compare by sign and size: a signed one, unless it is zero, is
/// less than an unsigned one; of two unsigned ones the larger bits are the larger number,
/// and of two signed ones the smaller number; the two zeros are equal. What is not a number
/// does not compare.
pub proof fn law_double_numbers_compare_by_sign_and_size(x: u64, y: u64)
    ensures
        ({
            let a = ValueModel::Float8(x);
            let b = ValueModel::Float8(y);
            let less = compared(a, BinaryOperator::Lt, b);
            let same = compared(a, BinaryOperator::Eq, b);
            let zero = 0x8000_0000_0000_0000u64;
            if compare::float8_is_nan(x) || compare::float8_is_nan(y) {
                less is Err && same is Err
            } else {
                &&& !is_signed(x) && !is_signed(y) ==> less == yes(x < y) && same == yes(x == y)
                &&& is_signed(x) && is_signed(y) ==> less == yes(y < x) && same == yes(x == y)
                &&& is_signed(x) && !is_signed(y) ==> same == yes(x == zero && y == 0) && less
                    == yes(!(x == zero && y == 0))
                &&& !is_signed(x) && is_signed(y) ==> less == yes(false)
            }
        }),
{
}

} // verus!
