//! `INTERSECT` and `EXCEPT`: which rows of the left side stay; and how often set
//! operations give a row.

use crate::executor::semantics;
use crate::schema;
use crate::schema::{Tuple, TupleModel};
use crate::value;
use crate::value::{Value, ValueModel};
use vstd::prelude::*;

verus! {

/// A set operation that picks rows of its left side.
#[derive(Clone, Copy, Debug, PartialEq, Eq, Structural)]
pub enum SetOperation {
    Intersect,
    Except,
}

/// How many of the first `n` rows have some values.
pub open spec fn times(rows: Seq<TupleModel>, n: nat, values: Seq<ValueModel>) -> nat
    decreases n,
{
    if n == 0 || n > rows.len() {
        0
    } else {
        times(rows, (n - 1) as nat, values) + if rows[n - 1].values == values {
            1nat
        } else {
            0nat
        }
    }
}

/// Whether a row stays that is the `k`th of its kind on the left, where the right
/// side has `m` of that kind. Without `ALL` at most one of each kind stays.
pub open spec fn stays(op: SetOperation, all: bool, k: nat, m: nat) -> bool {
    match op {
        SetOperation::Intersect => if all {
            k <= m
        } else {
            k == 1 && m > 0
        },
        SetOperation::Except => if all {
            k > m
        } else {
            k == 1 && m == 0
        },
    }
}

/// The rows that stay among the first `n` of the left side, in their order.
pub open spec fn picked(
    op: SetOperation,
    all: bool,
    left: Seq<TupleModel>,
    right: Seq<TupleModel>,
    n: nat,
) -> Seq<TupleModel>
    decreases n,
{
    if n == 0 || n > left.len() {
        Seq::empty()
    } else {
        let before = picked(op, all, left, right, (n - 1) as nat);
        let row = left[n - 1];
        if stays(op, all, times(left, n, row.values), times(right, right.len(), row.values)) {
            before.push(row)
        } else {
            before
        }
    }
}

/// How many of `a` rows of a kind stay, where the right side has `m` of that kind.
pub open spec fn how_many(op: SetOperation, all: bool, a: nat, m: nat) -> nat {
    match op {
        SetOperation::Intersect => if all {
            if a <= m {
                a
            } else {
                m
            }
        } else if a > 0 && m > 0 {
            1
        } else {
            0
        },
        SetOperation::Except => if all {
            if a <= m {
                0
            } else {
                (a - m) as nat
            }
        } else if a > 0 && m == 0 {
            1
        } else {
            0
        },
    }
}

proof fn lemma_times_of_push(rows: Seq<TupleModel>, row: TupleModel, n: nat, values: Seq<ValueModel>)
    requires
        n <= rows.len(),
    ensures
        times(rows.push(row), n, values) == times(rows, n, values),
    decreases n,
{
    if n > 0 {
        lemma_times_of_push(rows, row, (n - 1) as nat, values);
    }
}

proof fn lemma_how_many(
    op: SetOperation,
    all: bool,
    left: Seq<TupleModel>,
    right: Seq<TupleModel>,
    n: nat,
    values: Seq<ValueModel>,
)
    requires
        n <= left.len(),
    ensures
        times(
            picked(op, all, left, right, n),
            picked(op, all, left, right, n).len(),
            values,
        ) == how_many(op, all, times(left, n, values), times(right, right.len(), values)),
    decreases n,
{
    if n > 0 {
        lemma_how_many(op, all, left, right, (n - 1) as nat, values);
        let before = picked(op, all, left, right, (n - 1) as nat);
        let row = left[n - 1];
        lemma_times_of_push(before, row, before.len(), values);
    }
}

/// `INTERSECT ALL` gives each kind of row as often as both sides have it, `EXCEPT
/// ALL` as often as the left side has it more; without `ALL` a kind comes once
/// where both sides have it, or where only the left side has it.
pub proof fn law_set_operations_count(
    op: SetOperation,
    all: bool,
    left: Seq<TupleModel>,
    right: Seq<TupleModel>,
    values: Seq<ValueModel>,
)
    ensures
        times(
            picked(op, all, left, right, left.len()),
            picked(op, all, left, right, left.len()).len(),
            values,
        ) == how_many(
            op,
            all,
            times(left, left.len(), values),
            times(right, right.len(), values),
        ),
{
    lemma_how_many(op, all, left, right, left.len(), values);
}

proof fn lemma_has_values(rows: Seq<TupleModel>, n: nat, values: Seq<ValueModel>)
    requires
        n <= rows.len(),
    ensures
        (times(rows, n, values) > 0) == semantics::has_values(rows.take(n as int), values),
    decreases n,
{
    if n > 0 {
        lemma_has_values(rows, (n - 1) as nat, values);
        let before = rows.take(n - 1);
        let now = rows.take(n as int);
        assert(now[n - 1] == rows[n - 1]);
        if semantics::has_values(before, values) {
            let i = choose|i: int| 0 <= i < before.len() && (#[trigger] before[i]).values == values;
            assert(now[i].values == values);
        }
        if semantics::has_values(now, values) && rows[n - 1].values != values {
            let i = choose|i: int| 0 <= i < now.len() && (#[trigger] now[i]).values == values;
            assert(before[i].values == values);
        }
    }
}

proof fn lemma_distinct_count(rows: Seq<TupleModel>, n: nat, values: Seq<ValueModel>)
    requires
        n <= rows.len(),
    ensures
        times(
            semantics::distinct_rows(rows, n),
            semantics::distinct_rows(rows, n).len(),
            values,
        ) == if times(rows, n, values) > 0 {
            1nat
        } else {
            0nat
        },
    decreases n,
{
    if n > 0 {
        lemma_distinct_count(rows, (n - 1) as nat, values);
        let before = semantics::distinct_rows(rows, (n - 1) as nat);
        let row = rows[n - 1];
        lemma_has_values(before, before.len(), row.values);
        assert(before.take(before.len() as int) =~= before);
        lemma_times_of_push(before, row, before.len(), values);
    }
}

/// `UNION` gives each kind of row that one of its sides has once.
pub proof fn law_a_union_gives_each_kind_once(
    left: Seq<TupleModel>,
    right: Seq<TupleModel>,
    values: Seq<ValueModel>,
)
    ensures
        ({
            let out = semantics::distinct_rows(left + right, (left + right).len());
            times(out, out.len(), values) == if times(left, left.len(), values) > 0 || times(
                right,
                right.len(),
                values,
            ) > 0 {
                1nat
            } else {
                0nat
            }
        }),
{
    lemma_distinct_count(left + right, (left + right).len(), values);
    lemma_times_of_both(left, right, right.len(), values);
}

proof fn lemma_times_of_both(
    left: Seq<TupleModel>,
    right: Seq<TupleModel>,
    n: nat,
    values: Seq<ValueModel>,
)
    requires
        n <= right.len(),
    ensures
        times(left + right, left.len() + n, values) == times(left, left.len(), values) + times(
            right,
            n,
            values,
        ),
    decreases n,
{
    if n > 0 {
        lemma_times_of_both(left, right, (n - 1) as nat, values);
    } else {
        lemma_times_of_first(left, right, left.len(), values);
    }
}

proof fn lemma_times_of_first(
    left: Seq<TupleModel>,
    right: Seq<TupleModel>,
    n: nat,
    values: Seq<ValueModel>,
)
    requires
        n <= left.len(),
    ensures
        times(left + right, n, values) == times(left, n, values),
    decreases n,
{
    if n > 0 {
        lemma_times_of_first(left, right, (n - 1) as nat, values);
    }
}

proof fn lemma_times_bound(rows: Seq<TupleModel>, n: nat, values: Seq<ValueModel>)
    ensures
        times(rows, n, values) <= n,
    decreases n,
{
    if n > 0 && n <= rows.len() {
        lemma_times_bound(rows, (n - 1) as nat, values);
    }
}

/// How many of the first `n` rows have some values.
pub fn count_rows_with(rows: &Vec<Tuple>, n: usize, values: &Vec<Value>) -> (r: usize)
    requires
        n <= rows.len(),
    ensures
        r == times(schema::rows_model(rows@), n as nat, value::values_model(values@)),
{
    let ghost model = schema::rows_model(rows@);
    let ghost wanted = value::values_model(values@);
    let mut count: usize = 0;
    let mut i: usize = 0;
    while i < n
        invariant
            i <= n <= rows.len(),
            model == schema::rows_model(rows@),
            wanted == value::values_model(values@),
            count == times(model, i as nat, wanted),
            count <= i,
        decreases n - i,
    {
        assert(model[i as int] == rows@[i as int]@);
        if value::same_values(&rows[i].values, values) {
            count += 1;
        }
        i += 1;
        proof {
            lemma_times_bound(model, i as nat, wanted);
        }
    }
    count
}

/// The rows of the left side that stay.
pub fn pick_rows(op: SetOperation, all: bool, left: &Vec<Tuple>, right: &Vec<Tuple>) -> (r: Vec<
    Tuple,
>)
    ensures
        schema::rows_model(r@) == picked(
            op,
            all,
            schema::rows_model(left@),
            schema::rows_model(right@),
            left@.len(),
        ),
{
    let ghost lm = schema::rows_model(left@);
    let ghost rm = schema::rows_model(right@);
    let mut out: Vec<Tuple> = Vec::new();
    assert(schema::rows_model(out@) =~= picked(op, all, lm, rm, 0));
    let mut i: usize = 0;
    while i < left.len()
        invariant
            i <= left.len(),
            lm == schema::rows_model(left@),
            rm == schema::rows_model(right@),
            schema::rows_model(out@) == picked(op, all, lm, rm, i as nat),
        decreases left.len() - i,
    {
        assert(lm[i as int] == left@[i as int]@);
        let k: usize = count_rows_with(left, i + 1, &left[i].values);
        let m: usize = count_rows_with(right, right.len(), &left[i].values);
        let stay: bool = match op {
            SetOperation::Intersect => if all {
                k <= m
            } else {
                k == 1 && m > 0
            },
            SetOperation::Except => if all {
                k > m
            } else {
                k == 1 && m == 0
            },
        };
        if stay {
            let ghost before = out@;
            out.push(left[i].clone());
            assert(schema::rows_model(out@) =~= schema::rows_model(before).push(lm[i as int]));
        }
        i += 1;
    }
    out
}

} // verus!
