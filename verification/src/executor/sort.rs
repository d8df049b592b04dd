//! Sorting rows by the values of expressions.

use crate::compare;
use crate::evaluator;
use crate::evaluator::Evaluator;
use crate::logical_plan;
use crate::logical_plan::{ExprModel, LogicalExpr};
use crate::schema;
use crate::schema::{ColumnModel, Error, ErrorModel, Tuple, TupleModel};
use crate::text;
use crate::text::Order;
use crate::value;
use crate::value::{Value, ValueModel};
use vstd::prelude::*;

verus! {

/// How two rows of sort keys stand from position `i` on: by the first key on
/// which they differ, the other way round where the key is descending.
pub open spec fn keys_order(
    a: Seq<ValueModel>,
    b: Seq<ValueModel>,
    asc: Seq<bool>,
    i: int,
) -> Order
    decreases a.len() - i,
{
    if i < 0 || i >= a.len() || i >= b.len() {
        Order::Equal
    } else {
        match compare::sort_order(a[i], b[i]) {
            Order::Equal => keys_order(a, b, asc, i + 1),
            o => if i < asc.len() && !asc[i] {
                text::flip(o)
            } else {
                o
            },
        }
    }
}

fn flip_order(o: Order) -> (r: Order)
    ensures
        r == text::flip(o),
{
    match o {
        Order::Less => Order::Greater,
        Order::Equal => Order::Equal,
        Order::Greater => Order::Less,
    }
}

/// Compares two rows of sort keys.
pub fn compare_sort_keys(a: &Vec<Value>, b: &Vec<Value>, asc: &Vec<bool>) -> (r: Order)
    ensures
        r == keys_order(value::values_model(a@), value::values_model(b@), asc@, 0),
{
    let ghost am = value::values_model(a@);
    let ghost bm = value::values_model(b@);
    let mut i: usize = 0;
    proof {
        value::lemma_values_model(a@);
        value::lemma_values_model(b@);
    }
    while i < a.len() && i < b.len()
        invariant
            am == value::values_model(a@),
            bm == value::values_model(b@),
            am.len() == a.len(),
            bm.len() == b.len(),
            forall|j: int| 0 <= j < a.len() ==> #[trigger] am[j] == a@[j]@,
            forall|j: int| 0 <= j < b.len() ==> #[trigger] bm[j] == b@[j]@,
            keys_order(am, bm, asc@, 0) == keys_order(am, bm, asc@, i as int),
        decreases a.len() - i,
    {
        assert(am[i as int] == a@[i as int]@);
        assert(bm[i as int] == b@[i as int]@);
        match compare::compare_values(&a[i], &b[i]) {
            Order::Equal => {},
            o => {
                return if i < asc.len() && !asc[i] {
                    flip_order(o)
                } else {
                    o
                };
            },
        }
        i = i + 1;
    }
    Order::Equal
}

/// A row with its sort keys.
pub struct KeyedRow {
    pub keys: Vec<Value>,
    pub row: Tuple,
}

/// What a row with its sort keys stands for.
pub type Keyed = (Seq<ValueModel>, TupleModel);

pub open spec fn keyed_model(r: KeyedRow) -> Keyed {
    (value::values_model(r.keys@), r.row@)
}

pub open spec fn keyed_rows(s: Seq<KeyedRow>) -> Seq<Keyed> {
    Seq::new(s.len(), |i: int| keyed_model(s[i]))
}

/// Whether a row belongs behind another one.
pub open spec fn goes_behind(a: Keyed, b: Keyed, asc: Seq<bool>) -> bool {
    keys_order(a.0, b.0, asc, 0) == Order::Greater
}

/// A row put behind the last row that does not belong behind it.
pub open spec fn placed(s: Seq<Keyed>, x: Keyed, asc: Seq<bool>) -> Seq<Keyed>
    decreases s.len(),
{
    if s.len() == 0 || !goes_behind(s.last(), x, asc) {
        s.push(x)
    } else {
        placed(s.drop_last(), x, asc).push(s.last())
    }
}

/// Rows in the order of their keys; rows with equal keys stay in order.
pub open spec fn in_order(s: Seq<Keyed>, asc: Seq<bool>) -> Seq<Keyed>
    decreases s.len(),
{
    if s.len() == 0 {
        Seq::empty()
    } else {
        placed(in_order(s.drop_last(), asc), s.last(), asc)
    }
}

/// The rows with their sort keys; the first error in a key ends it.
pub open spec fn with_keys(
    rows: Seq<TupleModel>,
    exprs: Seq<ExprModel>,
    cols: Seq<ColumnModel>,
    params: Seq<ValueModel>,
) -> Result<Seq<Keyed>, ErrorModel>
    decreases rows.len(),
{
    if rows.len() == 0 {
        Ok(Seq::empty())
    } else {
        match with_keys(rows.drop_last(), exprs, cols, params) {
            Err(e) => Err(e),
            Ok(s) => match evaluator::eval_all(exprs, cols, params, rows.last().values) {
                Err(e) => Err(e),
                Ok(k) => Ok(s.push((k, rows.last()))),
            },
        }
    }
}

pub open spec fn rows_only(s: Seq<Keyed>) -> Seq<TupleModel> {
    Seq::new(s.len(), |i: int| s[i].1)
}

/// Rows in the order of sort expressions.
pub open spec fn sorted_rows(
    rows: Seq<TupleModel>,
    exprs: Seq<ExprModel>,
    asc: Seq<bool>,
    cols: Seq<ColumnModel>,
    params: Seq<ValueModel>,
) -> Result<Seq<TupleModel>, ErrorModel> {
    match with_keys(rows, exprs, cols, params) {
        Err(e) => Err(e),
        Ok(s) => Ok(rows_only(in_order(s, asc))),
    }
}

proof fn lemma_placed_at(s: Seq<Keyed>, x: Keyed, asc: Seq<bool>, k: int)
    requires
        0 <= k <= s.len(),
        forall|i: int| k <= i < s.len() ==> goes_behind(#[trigger] s[i], x, asc),
        k > 0 ==> !goes_behind(s[k - 1], x, asc),
    ensures
        placed(s, x, asc) == s.insert(k, x),
    decreases s.len(),
{
    if k == s.len() {
        assert(s.insert(k, x) =~= s.push(x));
    } else {
        assert(goes_behind(s[s.len() - 1], x, asc));
        let shorter = s.drop_last();
        assert forall|i: int| k <= i < shorter.len() implies goes_behind(
            #[trigger] shorter[i],
            x,
            asc,
        ) by {
            assert(goes_behind(s[i], x, asc));
        }
        lemma_placed_at(shorter, x, asc, k);
        assert(s.insert(k, x) =~= shorter.insert(k, x).push(s.last()));
    }
}

fn place(v: &mut Vec<KeyedRow>, x: KeyedRow, asc: &Vec<bool>)
    ensures
        keyed_rows(final(v)@) == placed(keyed_rows(old(v)@), keyed_model(x), asc@),
{
    let ghost before = keyed_rows(v@);
    let ghost item = keyed_model(x);
    let mut k: usize = v.len();
    while k > 0
        invariant_except_break
            k <= v.len(),
            before == keyed_rows(v@),
            item == keyed_model(x),
            forall|i: int| k <= i < v.len() ==> goes_behind(#[trigger] before[i], item, asc@),
        ensures
            k <= v.len(),
            forall|i: int| k <= i < v.len() ==> goes_behind(#[trigger] before[i], item, asc@),
            k > 0 ==> !goes_behind(before[k - 1], item, asc@),
        decreases k,
    {
        assert(before[k - 1] == keyed_model(v@[k - 1]));
        let behind: bool = match compare_sort_keys(&v[k - 1].keys, &x.keys, asc) {
            Order::Greater => true,
            _ => false,
        };
        if !behind {
            break;
        }
        k = k - 1;
    }
    proof {
        lemma_placed_at(before, item, asc@, k as int);
    }
    v.insert(k, x);
    assert(keyed_rows(v@) =~= before.insert(k as int, item));
}

pub open spec fn rows_result(r: Result<Vec<Tuple>, Error>) -> Result<Seq<TupleModel>, ErrorModel> {
    match r {
        Ok(v) => Ok(schema::rows_model(v@)),
        Err(e) => Err(e@),
    }
}

proof fn lemma_with_keys_stop(
    rows: Seq<TupleModel>,
    n: int,
    exprs: Seq<ExprModel>,
    cols: Seq<ColumnModel>,
    params: Seq<ValueModel>,
)
    requires
        0 <= n <= rows.len(),
        with_keys(rows.take(n), exprs, cols, params) is Err,
    ensures
        with_keys(rows, exprs, cols, params) == with_keys(rows.take(n), exprs, cols, params),
    decreases rows.len() - n,
{
    if n < rows.len() {
        assert(rows.take(n + 1).drop_last() =~= rows.take(n));
        lemma_with_keys_stop(rows, n + 1, exprs, cols, params);
    } else {
        assert(rows.take(n) =~= rows);
    }
}

/// Sorts rows by expressions, ascending where `asc` does not say otherwise.
pub fn sort_rows(
    rows: Vec<Tuple>,
    exprs: &Vec<LogicalExpr>,
    asc: &Vec<bool>,
    evaluator: &Evaluator,
) -> (r: Result<Vec<Tuple>, Error>)
    ensures
        rows_result(r) == sorted_rows(
            schema::rows_model(rows@),
            logical_plan::exprs_model(exprs@),
            asc@,
            evaluator.columns(),
            evaluator.params(),
        ),
{
    let ghost all = schema::rows_model(rows@);
    let ghost em = logical_plan::exprs_model(exprs@);
    let ghost cols = evaluator.columns();
    let ghost params = evaluator.params();
    let mut out: Vec<KeyedRow> = Vec::new();
    assert(keyed_rows(out@) =~= Seq::<Keyed>::empty());
    assert(all.take(0) =~= Seq::<TupleModel>::empty());
    let mut i: usize = 0;
    while i < rows.len()
        invariant
            i <= rows.len(),
            all == schema::rows_model(rows@),
            em == logical_plan::exprs_model(exprs@),
            cols == evaluator.columns(),
            params == evaluator.params(),
            with_keys(all.take(i as int), em, cols, params) is Ok,
            keyed_rows(out@) == in_order(
                with_keys(all.take(i as int), em, cols, params)->Ok_0,
                asc@,
            ),
        decreases rows.len() - i,
    {
        let ghost next = all.take(i + 1);
        assert(next.drop_last() =~= all.take(i as int));
        assert(next.last() == rows@[i as int]@);
        let ghost given = with_keys(all.take(i as int), em, cols, params)->Ok_0;
        match evaluator.evaluate_all(exprs, &rows[i]) {
            Err(e) => {
                proof {
                    lemma_with_keys_stop(all, i + 1, em, cols, params);
                }
                return Err(e);
            },
            Ok(keys) => {
                let x: KeyedRow = KeyedRow { keys, row: rows[i].clone() };
                let ghost item = keyed_model(x);
                assert(with_keys(next, em, cols, params) == Ok::<Seq<Keyed>, ErrorModel>(
                    given.push(item),
                ));
                assert(given.push(item).drop_last() =~= given);
                place(&mut out, x, asc);
            },
        }
        i = i + 1;
    }
    assert(all.take(rows.len() as int) =~= all);
    let ghost done = keyed_rows(out@);
    let mut plain: Vec<Tuple> = Vec::new();
    for j in 0..out.len()
        invariant
            done == keyed_rows(out@),
            plain.len() == j,
            forall|k: int| 0 <= k < j ==> (#[trigger] plain@[k])@ == done[k].1,
    {
        assert(done[j as int] == keyed_model(out@[j as int]));
        plain.push(out[j].row.clone());
    }
    assert(schema::rows_model(plain@) =~= rows_only(done));
    Ok(plain)
}

proof fn lemma_placed_is_insert(s: Seq<Keyed>, x: Keyed, asc: Seq<bool>)
    ensures
        placed(s, x, asc).len() == s.len() + 1,
        placed(s, x, asc).to_multiset() == s.to_multiset().insert(x),
    decreases s.len(),
{
    broadcast use vstd::seq_lib::group_to_multiset_ensures;

    if s.len() != 0 && goes_behind(s.last(), x, asc) {
        let shorter = s.drop_last();
        lemma_placed_is_insert(shorter, x, asc);
        assert(s =~= shorter.push(s.last()));
        assert(placed(s, x, asc).to_multiset() =~= s.to_multiset().insert(x));
    } else {
        assert(s.push(x).to_multiset() =~= s.to_multiset().insert(x));
    }
}

/// Sorting gives every row as often as it was there.
pub proof fn law_sorting_keeps_the_rows(s: Seq<Keyed>, asc: Seq<bool>)
    ensures
        in_order(s, asc).len() == s.len(),
        in_order(s, asc).to_multiset() == s.to_multiset(),
    decreases s.len(),
{
    broadcast use vstd::seq_lib::group_to_multiset_ensures;

    if s.len() > 0 {
        law_sorting_keeps_the_rows(s.drop_last(), asc);
        lemma_placed_is_insert(in_order(s.drop_last(), asc), s.last(), asc);
        assert(s =~= s.drop_last().push(s.last()));
        assert(s.to_multiset() =~= s.drop_last().to_multiset().insert(s.last()));
    } else {
        assert(s =~= Seq::<Keyed>::empty());
    }
}

proof fn lemma_placed_follows(s: Seq<Keyed>, x: Keyed, asc: Seq<bool>)
    requires
        forall|i: int| 0 <= i < s.len() - 1 ==> !goes_behind(#[trigger] s[i], s[i + 1], asc),
    ensures
        placed(s, x, asc).len() == s.len() + 1,
        forall|i: int|
            0 <= i < s.len() ==> !goes_behind(
                #[trigger] placed(s, x, asc)[i],
                placed(s, x, asc)[i + 1],
                asc,
            ),
        s.len() > 0 ==> placed(s, x, asc).last() == s.last() || placed(s, x, asc).last() == x,
    decreases s.len(),
{
    if s.len() != 0 && goes_behind(s.last(), x, asc) {
        let shorter = s.drop_last();
        assert forall|i: int| 0 <= i < shorter.len() - 1 implies !goes_behind(
            #[trigger] shorter[i],
            shorter[i + 1],
            asc,
        ) by {
            assert(!goes_behind(s[i], s[i + 1], asc));
        }
        lemma_placed_follows(shorter, x, asc);
        let p = placed(shorter, x, asc);
        let r = placed(s, x, asc);
        assert(r =~= p.push(s.last()));
        if shorter.len() == 0 {
            assert(p =~= seq![x]);
        }
        lemma_keys_flip(s.last().0, x.0, asc, 0);
        assert(!goes_behind(x, s.last(), asc));
        assert(p.last() == x || p.last() == shorter.last());
        if shorter.len() > 0 {
            assert(!goes_behind(s[shorter.len() - 1], s[shorter.len() as int], asc));
        }
        assert forall|i: int| 0 <= i < s.len() implies !goes_behind(
            #[trigger] r[i],
            r[i + 1],
            asc,
        ) by {
            if i < shorter.len() {
                assert(r[i] == p[i]);
                assert(r[i + 1] == p[i + 1]);
            }
        }
    }
}

proof fn lemma_keys_flip(a: Seq<ValueModel>, b: Seq<ValueModel>, asc: Seq<bool>, i: int)
    ensures
        keys_order(b, a, asc, i) == text::flip(keys_order(a, b, asc, i)),
    decreases a.len() - i,
{
    if 0 <= i < a.len() && i < b.len() {
        compare::law_sort_order_is_antisymmetric(a[i], b[i]);
        lemma_keys_flip(a, b, asc, i + 1);
    }
}

/// No sorted row belongs behind the row that follows it.
pub proof fn law_sorted_rows_follow_each_other(s: Seq<Keyed>, asc: Seq<bool>)
    ensures
        forall|i: int|
            0 <= i < in_order(s, asc).len() - 1 ==> !goes_behind(
                #[trigger] in_order(s, asc)[i],
                in_order(s, asc)[i + 1],
                asc,
            ),
    decreases s.len(),
{
    if s.len() > 0 {
        law_sorted_rows_follow_each_other(s.drop_last(), asc);
        lemma_placed_follows(in_order(s.drop_last(), asc), s.last(), asc);
    }
}

/// The direction of a sort key: ascending where nothing else is said.
pub open spec fn ascends(asc: Seq<bool>, i: int) -> bool {
    i < asc.len() ==> asc[i]
}

/// Whether two rows of keys agree on every key before position `i`, and the first of
/// them has the smaller value there.
pub open spec fn first_smaller_at(a: Seq<ValueModel>, b: Seq<ValueModel>, i: int) -> bool {
    &&& 0 <= i < a.len()
    &&& i < b.len()
    &&& compare::sort_order(a[i], b[i]) == Order::Less
    &&& forall|j: int| 0 <= j < i ==> compare::sort_order(#[trigger] a[j], b[j]) == Order::Equal
}

/// Whether two rows of keys agree on every key.
pub open spec fn same_keys(a: Seq<ValueModel>, b: Seq<ValueModel>) -> bool {
    &&& a.len() == b.len()
    &&& forall|j: int| 0 <= j < a.len() ==> compare::sort_order(#[trigger] a[j], b[j])
        == Order::Equal
}

/// Of two rows of keys, the first key on which they differ decides, whatever its
/// position: the smaller value comes first where that key ascends, and last where it
/// descends. Rows that differ on no key stand equal.
pub proof fn law_the_first_different_key_decides(
    a: Seq<ValueModel>,
    b: Seq<ValueModel>,
    asc: Seq<bool>,
    i: int,
)
    ensures
        first_smaller_at(a, b, i) ==> keys_order(a, b, asc, 0) == (if ascends(asc, i) {
            Order::Less
        } else {
            Order::Greater
        }),
        first_smaller_at(b, a, i) ==> keys_order(a, b, asc, 0) == (if ascends(asc, i) {
            Order::Greater
        } else {
            Order::Less
        }),
        same_keys(a, b) ==> keys_order(a, b, asc, 0) == Order::Equal,
{
    if first_smaller_at(a, b, i) {
        lemma_equal_until(a, b, asc, 0, i);
    }
    if first_smaller_at(b, a, i) {
        lemma_equal_until(b, a, asc, 0, i);
        lemma_keys_flip(b, a, asc, 0);
    }
    if same_keys(a, b) {
        lemma_equal_until(a, b, asc, 0, a.len() as int);
    }
}

proof fn lemma_equal_until(
    a: Seq<ValueModel>,
    b: Seq<ValueModel>,
    asc: Seq<bool>,
    from: int,
    i: int,
)
    requires
        0 <= from <= i <= a.len(),
        i <= b.len(),
        forall|j: int| from <= j < i ==> compare::sort_order(#[trigger] a[j], b[j])
            == Order::Equal,
    ensures
        keys_order(a, b, asc, from) == keys_order(a, b, asc, i),
    decreases i - from,
{
    if from < i {
        assert(compare::sort_order(a[from], b[from]) == Order::Equal);
        lemma_equal_until(a, b, asc, from + 1, i);
    }
}

/// Rows of keys that can be sorted: as many keys each, and no NaN among them, which
/// stands equal to every number.
pub open spec fn sortable(s: Seq<Keyed>, width: nat) -> bool {
    forall|i: int| 0 <= i < s.len() ==> sortable_keys((#[trigger] s[i]).0, width)
}

pub open spec fn sortable_keys(k: Seq<ValueModel>, width: nat) -> bool {
    &&& k.len() == width
    &&& forall|j: int| 0 <= j < k.len() ==> compare::nan_free(#[trigger] k[j])
}

proof fn lemma_keys_chain(
    a: Seq<ValueModel>,
    b: Seq<ValueModel>,
    c: Seq<ValueModel>,
    asc: Seq<bool>,
    width: nat,
    i: int,
)
    requires
        sortable_keys(a, width),
        sortable_keys(b, width),
        sortable_keys(c, width),
        0 <= i <= width,
        keys_order(a, b, asc, i) != Order::Greater,
        keys_order(b, c, asc, i) != Order::Greater,
    ensures
        keys_order(a, c, asc, i) != Order::Greater,
        keys_order(a, c, asc, i) == Order::Equal ==> keys_order(a, b, asc, i) == Order::Equal
            && keys_order(b, c, asc, i) == Order::Equal,
    decreases width - i,
{
    if i < width {
        compare::law_sort_order_is_antisymmetric(a[i], b[i]);
        compare::law_sort_order_is_antisymmetric(b[i], c[i]);
        compare::law_sort_order_is_antisymmetric(a[i], c[i]);
        if i < asc.len() && !asc[i] {
            compare::law_sort_order_is_transitive(c[i], b[i], a[i]);
        } else {
            compare::law_sort_order_is_transitive(a[i], b[i], c[i]);
        }
        if compare::sort_order(a[i], b[i]) == Order::Equal && compare::sort_order(b[i], c[i])
            == Order::Equal {
            compare::law_sort_order_is_transitive(a[i], b[i], c[i]);
            compare::law_sort_order_is_transitive(c[i], b[i], a[i]);
            lemma_keys_chain(a, b, c, asc, width, i + 1);
        }
    }
}

/// The place of a row in a sorted sequence is decided by its keys alone, of any two
/// rows and not only of neighbours: of two rows that agree on all keys before position
/// `i` and differ there, the one with the smaller value comes first where key `i`
/// ascends and last where it descends.
pub proof fn law_sorted_rows_are_in_key_order(
    s: Seq<Keyed>,
    asc: Seq<bool>,
    width: nat,
    x: int,
    y: int,
    i: int,
)
    requires
        sortable(s, width),
        0 <= x < in_order(s, asc).len(),
        0 <= y < in_order(s, asc).len(),
        first_smaller_at(in_order(s, asc)[x].0, in_order(s, asc)[y].0, i),
    ensures
        ascends(asc, i) ==> x < y,
        !ascends(asc, i) ==> y < x,
{
    let out = in_order(s, asc);
    law_the_first_different_key_decides(out[x].0, out[y].0, asc, i);
    lemma_keys_flip(out[x].0, out[y].0, asc, 0);
    lemma_in_order_sortable(s, asc, width);
    if x == y {
        compare::law_sort_order_is_reflexive(out[x].0[i]);
    } else if x < y {
        lemma_no_row_goes_behind(s, asc, width, x, y);
    } else {
        lemma_no_row_goes_behind(s, asc, width, y, x);
    }
}

proof fn lemma_in_order_sortable(s: Seq<Keyed>, asc: Seq<bool>, width: nat)
    requires
        sortable(s, width),
    ensures
        sortable(in_order(s, asc), width),
{
    let out = in_order(s, asc);
    law_sorting_keeps_the_rows(s, asc);
    assert forall|i: int| 0 <= i < out.len() implies sortable_keys((#[trigger] out[i]).0, width) by {
        broadcast use vstd::seq_lib::group_to_multiset_ensures;

        assert(out.contains(out[i]));
        assert(out.to_multiset().count(out[i]) > 0);
        assert(s.to_multiset().count(out[i]) > 0);
        assert(s.contains(out[i]));
        let n = choose|n: int| 0 <= n < s.len() && s[n] == out[i];
        assert(sortable_keys(s[n].0, width));
    }
}

proof fn lemma_neighbours(s: Seq<Keyed>, asc: Seq<bool>, y: int)
    requires
        0 < y < in_order(s, asc).len(),
    ensures
        !goes_behind(in_order(s, asc)[y - 1], in_order(s, asc)[y], asc),
{
    law_sorted_rows_follow_each_other(s, asc);
    assert(!goes_behind(in_order(s, asc)[y - 1], in_order(s, asc)[y - 1 + 1], asc));
}

proof fn lemma_no_row_goes_behind(s: Seq<Keyed>, asc: Seq<bool>, width: nat, x: int, y: int)
    requires
        sortable(s, width),
        0 <= x < y < in_order(s, asc).len(),
    ensures
        !goes_behind(in_order(s, asc)[x], in_order(s, asc)[y], asc),
    decreases y - x,
{
    let out = in_order(s, asc);
    lemma_neighbours(s, asc, y);
    lemma_in_order_sortable(s, asc, width);
    if x < y - 1 {
        lemma_no_row_goes_behind(s, asc, width, x, y - 1);
        assert(sortable_keys(out[x].0, width));
        assert(sortable_keys(out[y - 1].0, width));
        assert(sortable_keys(out[y].0, width));
        lemma_keys_chain(out[x].0, out[y - 1].0, out[y].0, asc, width, 0);
    }
}

/// Rows whose keys all agree with the given ones.
pub open spec fn keyed_like(k: Seq<ValueModel>) -> spec_fn(Keyed) -> bool {
    |r: Keyed| same_keys(r.0, k)
}

proof fn lemma_placed_among_others(
    s: Seq<Keyed>,
    x: Keyed,
    asc: Seq<bool>,
    keep: spec_fn(Keyed) -> bool,
)
    requires
        forall|i: int|
            0 <= i < s.len() && keep(x) && keep(#[trigger] s[i]) ==> !goes_behind(s[i], x, asc),
    ensures
        placed(s, x, asc).filter(keep) == s.push(x).filter(keep),
    decreases s.len(),
{
    reveal(Seq::filter);
    if s.len() != 0 && goes_behind(s.last(), x, asc) {
        let shorter = s.drop_last();
        assert forall|i: int|
            0 <= i < shorter.len() && keep(x) && keep(#[trigger] shorter[i]) implies !goes_behind(
            shorter[i],
            x,
            asc,
        ) by {
            assert(shorter[i] == s[i]);
        }
        lemma_placed_among_others(shorter, x, asc, keep);
        assert(s[s.len() - 1] == s.last());
        assert(placed(s, x, asc).drop_last() =~= placed(shorter, x, asc));
        assert(s.push(x).drop_last() =~= s);
        assert(shorter.push(x).drop_last() =~= shorter);
        let kept = shorter.filter(keep);
        let tail = if keep(s.last()) {
            seq![s.last()]
        } else {
            Seq::empty()
        };
        assert(s.filter(keep) =~= kept + tail);
        assert(placed(s, x, asc).filter(keep) =~= placed(shorter, x, asc).filter(keep) + tail);
        assert(shorter.push(x).filter(keep) =~= if keep(x) {
            kept.push(x)
        } else {
            kept
        });
        assert(s.push(x).filter(keep) =~= if keep(x) {
            (kept + tail).push(x)
        } else {
            kept + tail
        });
        if keep(x) {
            assert(tail.len() == 0);
        }
        assert(placed(s, x, asc).filter(keep) =~= s.push(x).filter(keep));
    }
}

/// Rows whose keys all agree stay in the order in which they came.
pub proof fn law_sorting_is_stable(s: Seq<Keyed>, asc: Seq<bool>, width: nat, k: Seq<ValueModel>)
    requires
        sortable(s, width),
        sortable_keys(k, width),
    ensures
        in_order(s, asc).filter(keyed_like(k)) == s.filter(keyed_like(k)),
    decreases s.len(),
{
    reveal(Seq::filter);
    if s.len() > 0 {
        let shorter = s.drop_last();
        let x = s.last();
        let out = in_order(shorter, asc);
        assert(sortable(shorter, width)) by {
            assert forall|i: int| 0 <= i < shorter.len() implies sortable_keys(
                (#[trigger] shorter[i]).0,
                width,
            ) by {
                assert(shorter[i] == s[i]);
            }
        }
        law_sorting_is_stable(shorter, asc, width, k);
        lemma_in_order_sortable(shorter, asc, width);
        assert(x == s[s.len() - 1]);
        let keep = keyed_like(k);
        assert forall|i: int|
            0 <= i < out.len() && keep(x) && keep(#[trigger] out[i]) implies !goes_behind(
            out[i],
            x,
            asc,
        ) by {
            assert(sortable_keys(out[i].0, width));
            law_the_first_different_key_decides(out[i].0, k, asc, 0);
            law_the_first_different_key_decides(x.0, k, asc, 0);
            lemma_keys_flip(x.0, k, asc, 0);
            lemma_keys_chain(out[i].0, k, x.0, asc, width, 0);
        }
        lemma_placed_among_others(out, x, asc, keep);
        assert(out.push(x).drop_last() =~= out);
    }
}

/// The keys of a row: one value for each sort expression.
pub open spec fn key_at(
    row: TupleModel,
    exprs: Seq<ExprModel>,
    cols: Seq<ColumnModel>,
    params: Seq<ValueModel>,
    i: int,
) -> Result<ValueModel, ErrorModel> {
    evaluator::eval(exprs[i], cols, params, row.values)
}

proof fn lemma_keys_are_values(
    rows: Seq<TupleModel>,
    exprs: Seq<ExprModel>,
    cols: Seq<ColumnModel>,
    params: Seq<ValueModel>,
)
    requires
        with_keys(rows, exprs, cols, params) is Ok,
    ensures
        rows_only(with_keys(rows, exprs, cols, params)->Ok_0) == rows,
        forall|n: int, i: int|
            0 <= n < rows.len() && 0 <= i < exprs.len() ==> key_at(
                (#[trigger] with_keys(rows, exprs, cols, params)->Ok_0[n]).1,
                exprs,
                cols,
                params,
                i,
            ) == Ok::<ValueModel, ErrorModel>(
                #[trigger] with_keys(rows, exprs, cols, params)->Ok_0[n].0[i],
            ),
        forall|n: int|
            0 <= n < rows.len() ==> (#[trigger] with_keys(
                rows,
                exprs,
                cols,
                params,
            )->Ok_0[n]).0.len() == exprs.len(),
    decreases rows.len(),
{
    let s = with_keys(rows, exprs, cols, params)->Ok_0;
    if rows.len() > 0 {
        let shorter = rows.drop_last();
        lemma_keys_are_values(shorter, exprs, cols, params);
        let t = with_keys(shorter, exprs, cols, params)->Ok_0;
        evaluator::lemma_list_values(exprs, cols, params, rows.last().values);
        assert(rows_only(s) =~= rows_only(t).push(rows.last()));
        assert(rows =~= shorter.push(rows.last()));
        assert forall|n: int, i: int| 0 <= n < rows.len() && 0 <= i < exprs.len() implies key_at(
            (#[trigger] s[n]).1,
            exprs,
            cols,
            params,
            i,
        ) == Ok::<ValueModel, ErrorModel>(#[trigger] s[n].0[i]) by {
            if n < shorter.len() {
                assert(s[n] == t[n]);
                assert(key_at(t[n].1, exprs, cols, params, i) == Ok::<ValueModel, ErrorModel>(
                    t[n].0[i],
                ));
            }
        }
        assert forall|n: int| 0 <= n < rows.len() implies (#[trigger] s[n]).0.len()
            == exprs.len() by {
            if n < shorter.len() {
                assert(s[n] == t[n]);
            }
        }
    } else {
        assert(rows_only(s) =~= rows);
    }
}

/// Whether the value of sort expression `i` is smaller for one row than for another,
/// and those of the expressions before it agree.
pub open spec fn row_smaller_at(
    a: TupleModel,
    b: TupleModel,
    exprs: Seq<ExprModel>,
    cols: Seq<ColumnModel>,
    params: Seq<ValueModel>,
    i: int,
) -> bool {
    &&& 0 <= i < exprs.len()
    &&& forall|j: int|
        0 <= j <= i ==> (#[trigger] key_at(a, exprs, cols, params, j)) is Ok && key_at(
            b,
            exprs,
            cols,
            params,
            j,
        ) is Ok && compare::sort_order(
            key_at(a, exprs, cols, params, j)->Ok_0,
            key_at(b, exprs, cols, params, j)->Ok_0,
        ) == (if j < i {
            Order::Equal
        } else {
            Order::Less
        })
}

/// No NaN is among the values of the sort expressions.
pub open spec fn keys_without_nan(
    rows: Seq<TupleModel>,
    exprs: Seq<ExprModel>,
    cols: Seq<ColumnModel>,
    params: Seq<ValueModel>,
) -> bool {
    forall|n: int, i: int|
        0 <= n < rows.len() && 0 <= i < exprs.len() ==> (#[trigger] key_at(
            rows[n],
            exprs,
            cols,
            params,
            i,
        ) matches Ok(v) ==> compare::nan_free(v))
}

/// Rows sorted by expressions are the same rows, each as often as it was there, and of
/// any two of them the first expression whose values differ says which comes first: the
/// one with the smaller value where that expression is sorted upwards, and the other one
/// where it is sorted downwards.
pub proof fn law_sorted_rows_follow_their_expressions(
    rows: Seq<TupleModel>,
    exprs: Seq<ExprModel>,
    asc: Seq<bool>,
    cols: Seq<ColumnModel>,
    params: Seq<ValueModel>,
)
    requires
        sorted_rows(rows, exprs, asc, cols, params) is Ok,
        keys_without_nan(rows, exprs, cols, params),
    ensures
        sorted_rows(rows, exprs, asc, cols, params)->Ok_0.to_multiset() == rows.to_multiset(),
        ({
            let out = sorted_rows(rows, exprs, asc, cols, params)->Ok_0;
            forall|x: int, y: int, i: int|
                0 <= x < out.len() && 0 <= y < out.len() && #[trigger] row_smaller_at(
                    out[x],
                    out[y],
                    exprs,
                    cols,
                    params,
                    i,
                ) ==> (if ascends(asc, i) {
                    x < y
                } else {
                    y < x
                })
        }),
{
    let s = with_keys(rows, exprs, cols, params)->Ok_0;
    let sorted = in_order(s, asc);
    let out = rows_only(sorted);
    lemma_keys_are_values(rows, exprs, cols, params);
    law_sorting_keeps_the_rows(s, asc);
    lemma_rows_of_same(sorted, s);
    assert(sortable(s, exprs.len())) by {
        assert forall|n: int| 0 <= n < s.len() implies sortable_keys(
            (#[trigger] s[n]).0,
            exprs.len(),
        ) by {
            assert(rows_only(s)[n] == rows[n]);
            assert forall|j: int| 0 <= j < s[n].0.len() implies compare::nan_free(
                #[trigger] s[n].0[j],
            ) by {
                assert(key_at(s[n].1, exprs, cols, params, j) == Ok::<ValueModel, ErrorModel>(
                    s[n].0[j],
                ));
                assert(key_at(rows[n], exprs, cols, params, j) is Ok);
            }
        }
    }
    assert forall|x: int, y: int, i: int|
        0 <= x < out.len() && 0 <= y < out.len() && #[trigger] row_smaller_at(
            out[x],
            out[y],
            exprs,
            cols,
            params,
            i,
        ) implies (if ascends(asc, i) {
        x < y
    } else {
        y < x
    }) by {
        lemma_sorted_from(s, asc, x);
        lemma_sorted_from(s, asc, y);
        let a = choose|a: int| 0 <= a < s.len() && s[a] == sorted[x];
        let b = choose|b: int| 0 <= b < s.len() && s[b] == sorted[y];
        assert(s[a].0.len() == exprs.len());
        assert(s[b].0.len() == exprs.len());
        assert forall|j: int| 0 <= j <= i implies compare::sort_order(
            #[trigger] sorted[x].0[j],
            sorted[y].0[j],
        ) == (if j < i {
            Order::Equal
        } else {
            Order::Less
        }) by {
            assert(key_at(s[a].1, exprs, cols, params, j) == Ok::<ValueModel, ErrorModel>(
                s[a].0[j],
            ));
            assert(key_at(s[b].1, exprs, cols, params, j) == Ok::<ValueModel, ErrorModel>(
                s[b].0[j],
            ));
            assert(key_at(out[x], exprs, cols, params, j) is Ok);
        }
        assert(compare::sort_order(sorted[x].0[i], sorted[y].0[i]) == Order::Less);
        law_sorted_rows_are_in_key_order(s, asc, exprs.len(), x, y, i);
    }
}

proof fn lemma_sorted_from(s: Seq<Keyed>, asc: Seq<bool>, x: int)
    requires
        0 <= x < in_order(s, asc).len(),
    ensures
        exists|a: int| 0 <= a < s.len() && s[a] == in_order(s, asc)[x],
{
    broadcast use vstd::seq_lib::group_to_multiset_ensures;

    let out = in_order(s, asc);
    law_sorting_keeps_the_rows(s, asc);
    assert(out.contains(out[x]));
    assert(out.to_multiset().count(out[x]) > 0);
    assert(s.to_multiset().count(out[x]) > 0);
    assert(s.contains(out[x]));
}

proof fn lemma_rows_of_same(a: Seq<Keyed>, b: Seq<Keyed>)
    requires
        a.to_multiset() == b.to_multiset(),
    ensures
        rows_only(a).to_multiset() == rows_only(b).to_multiset(),
    decreases a.len(),
{
    broadcast use vstd::seq_lib::group_to_multiset_ensures;

    assert(a.to_multiset().len() == a.len());
    assert(b.to_multiset().len() == b.len());
    if a.len() > 0 {
        let x = a.last();
        let shorter = a.drop_last();
        assert(a =~= shorter.push(x));
        assert(a.to_multiset().count(x) > 0);
        assert(b.contains(x));
        let n = choose|n: int| 0 <= n < b.len() && b[n] == x;
        let others = b.remove(n);
        assert(b =~= others.insert(n, x));
        assert(others.insert(n, x).to_multiset() =~= others.to_multiset().insert(x));
        assert(shorter.to_multiset() =~= others.to_multiset());
        lemma_rows_of_same(shorter, others);
        assert(rows_only(a) =~= rows_only(shorter).push(x.1));
        assert(rows_only(b) =~= rows_only(others).insert(n, x.1));
        assert(rows_only(a).to_multiset() =~= rows_only(b).to_multiset());
    } else {
        assert(rows_only(a) =~= rows_only(b));
    }
}

} // verus!
