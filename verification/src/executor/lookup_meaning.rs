//! What a join by lookups gives: for each left row the right rows whose column equals its
//! value, as the index finds them.

use crate::executor::filter;
use crate::executor::hash_rows;
use crate::executor::index_agreement;
use crate::executor::join_meaning;
use crate::executor::join_pair;
use crate::executor::join_planning;
use crate::executor::nested_loop;
use crate::executor::nested_loop::LoopJoin;
use crate::executor::operator::Relation;
use crate::executor::storage_view;
use crate::logical_plan::{ExprModel, JoinType};
use crate::schema::{ErrorModel, TupleModel};
use crate::value::ValueModel;
use vstd::prelude::*;

verus! {

/// Whether an index has one entry for each row of a table, with the value of a column, and
/// no other entries.
pub open spec fn index_is_exact(
    entries: Seq<(ValueModel, u64)>,
    rows: Seq<TupleModel>,
    c: int,
) -> bool {
    &&& index_agreement::numbers_differ(rows)
    &&& forall|i: int| 0 <= i < rows.len() ==> has_entry(entries, #[trigger] rows[i], c)
    &&& forall|k: int| 0 <= k < entries.len() ==> leads_to_row(#[trigger] entries[k], rows, c)
    &&& forall|i: int, j: int|
        0 <= i < j < entries.len() ==> (#[trigger] entries[i]).1 != (#[trigger] entries[j]).1
}

pub open spec fn has_entry(entries: Seq<(ValueModel, u64)>, row: TupleModel, c: int) -> bool {
    &&& row.row_id is Some
    &&& 0 <= c < row.values.len()
    &&& entries.contains((row.values[c], row.row_id->Some_0))
}

pub open spec fn leads_to_row(entry: (ValueModel, u64), rows: Seq<TupleModel>, c: int) -> bool {
    storage_view::row_with_id(rows, entry.1, 0) matches Some(row) && row.values[c] == entry.0
}

/// The rows that have a value in a column.
pub open spec fn equal_at(c: int, v: ValueModel) -> spec_fn(TupleModel) -> bool {
    |row: TupleModel| row.values[c] == v
}

proof fn lemma_ids_at(entries: Seq<(ValueModel, u64)>, v: ValueModel)
    requires
        forall|i: int, j: int|
            0 <= i < j < entries.len() ==> (#[trigger] entries[i]).1 != (#[trigger] entries[j]).1,
    ensures
        storage_view::ids_at(entries, v).no_duplicates(),
        forall|id: u64| #[trigger]
            storage_view::ids_at(entries, v).contains(id) <==> entries.contains((v, id)),
    decreases entries.len(),
{
    let ids = storage_view::ids_at(entries, v);
    if entries.len() > 0 {
        let rest = entries.drop_last();
        let last = entries.last();
        let before = storage_view::ids_at(rest, v);
        assert forall|i: int, j: int| 0 <= i < j < rest.len() implies (#[trigger] rest[i]).1 != (
        #[trigger] rest[j]).1 by {
            assert(entries[i].1 != entries[j].1);
        }
        lemma_ids_at(rest, v);
        assert forall|id: u64| #[trigger] ids.contains(id) <==> entries.contains((v, id)) by {
            if ids.contains(id) {
                let k = choose|k: int| 0 <= k < ids.len() && ids[k] == id;
                if k < before.len() {
                    assert(before[k] == id);
                    assert(before.contains(id));
                    let i = choose|i: int| 0 <= i < rest.len() && rest[i] == (v, id);
                    assert(entries[i] == (v, id));
                } else {
                    assert(entries[entries.len() - 1] == (v, id));
                }
            }
            if entries.contains((v, id)) {
                let i = choose|i: int| 0 <= i < entries.len() && entries[i] == (v, id);
                if i < rest.len() {
                    assert(rest[i] == (v, id));
                    assert(before.contains(id));
                    let k = choose|k: int| 0 <= k < before.len() && before[k] == id;
                    assert(ids[k] == id);
                } else {
                    assert(ids[ids.len() - 1] == id);
                }
            }
        }
        if last.0 == v {
            assert(!before.contains(last.1)) by {
                if before.contains(last.1) {
                    let i = choose|i: int| 0 <= i < rest.len() && rest[i] == (v, last.1);
                    assert(entries[i].1 != entries[entries.len() - 1].1);
                }
            }
            assert forall|x: int, y: int|
                0 <= x < ids.len() && 0 <= y < ids.len() && x != y implies ids[x] != ids[y] by {
                if x < before.len() {
                    assert(before[x] == ids[x]);
                    assert(before.contains(before[x]));
                }
                if y < before.len() {
                    assert(before[y] == ids[y]);
                    assert(before.contains(before[y]));
                }
            }
        }
    }
}

proof fn lemma_rows_with_ids(rows: Seq<TupleModel>, ids: Seq<u64>)
    requires
        ids.no_duplicates(),
    ensures
        ({
            let out = storage_view::rows_with_ids(rows, ids);
            &&& out.no_duplicates()
            &&& forall|x: int| 0 <= x < out.len() ==> is_named(#[trigger] out[x], rows, ids)
        }),
    decreases ids.len(),
{
    let out = storage_view::rows_with_ids(rows, ids);
    if ids.len() > 0 {
        let rest = ids.drop_last();
        let id = ids.last();
        let before = storage_view::rows_with_ids(rows, rest);
        lemma_rows_with_ids(rows, rest);
        lemma_named_row(rows, id, 0);
        assert forall|x: int| 0 <= x < out.len() implies is_named(
            #[trigger] out[x],
            rows,
            ids,
        ) by {
            if x < before.len() {
                assert(out[x] == before[x]);
                let own = before[x].row_id->Some_0;
                let k = choose|k: int| 0 <= k < rest.len() && rest[k] == own;
                assert(ids[k] == own);
            } else {
                assert(ids[ids.len() - 1] == id);
            }
        }
        assert forall|x: int, y: int|
            0 <= x < out.len() && 0 <= y < out.len() && x != y implies out[x] != out[y] by {
            if x < before.len() && y < before.len() {
                assert(out[x] == before[x]);
                assert(out[y] == before[y]);
            } else if x < before.len() {
                assert(out[x] == before[x]);
                lemma_other_id(before[x], rows, rest, ids);
            } else {
                assert(out[y] == before[y]);
                lemma_other_id(before[y], rows, rest, ids);
            }
        }
    }
}

/// Whether a row is one of some rows, and its number one of some numbers.
spec fn is_named(row: TupleModel, rows: Seq<TupleModel>, ids: Seq<u64>) -> bool {
    &&& rows.contains(row)
    &&& row.row_id is Some
    &&& ids.contains(row.row_id->Some_0)
    &&& storage_view::row_with_id(rows, row.row_id->Some_0, 0) == Some(row)
}

proof fn lemma_other_id(row: TupleModel, rows: Seq<TupleModel>, rest: Seq<u64>, ids: Seq<u64>)
    requires
        ids.no_duplicates(),
        ids.len() > 0,
        rest == ids.drop_last(),
        is_named(row, rows, rest),
    ensures
        row.row_id != Some(ids.last()),
{
    let own = row.row_id->Some_0;
    let k = choose|k: int| 0 <= k < rest.len() && rest[k] == own;
    assert(ids[k] == own);
    assert(ids[ids.len() - 1] == ids.last());
}

proof fn lemma_named_row(rows: Seq<TupleModel>, id: u64, from: int)
    requires
        0 <= from,
    ensures
        storage_view::row_with_id(rows, id, from) matches Some(row) ==> rows.contains(row)
            && row.row_id == Some(id),
    decreases rows.len() - from,
{
    if from < rows.len() {
        if rows[from].row_id == Some(id) {
            assert(rows.contains(rows[from]));
        } else {
            lemma_named_row(rows, id, from + 1);
        }
    }
}

/// A lookup in an exact index finds exactly the rows that have the value, each once.
pub proof fn law_a_lookup_finds_the_rows_with_the_value(
    entries: Seq<(ValueModel, u64)>,
    rows: Seq<TupleModel>,
    c: int,
    v: ValueModel,
)
    requires
        index_is_exact(entries, rows, c),
    ensures
        storage_view::rows_with_ids(rows, storage_view::ids_at(entries, v)).to_multiset()
            == rows.filter(equal_at(c, v)).to_multiset(),
{
    broadcast use vstd::seq_lib::group_to_multiset_ensures;

    let ids = storage_view::ids_at(entries, v);
    let found = storage_view::rows_with_ids(rows, ids);
    let keep = equal_at(c, v);
    lemma_ids_at(entries, v);
    lemma_rows_with_ids(rows, ids);
    found.lemma_multiset_has_no_duplicates();
    assert(rows.no_duplicates()) by {
        assert forall|i: int, j: int|
            0 <= i < rows.len() && 0 <= j < rows.len() && i != j implies rows[i] != rows[j] by {
            if i < j {
                assert(rows[i].row_id != rows[j].row_id);
            } else {
                assert(rows[j].row_id != rows[i].row_id);
            }
        }
    }
    rows.lemma_multiset_has_no_duplicates();
    assert forall|x: TupleModel| found.to_multiset().count(x) == rows.filter(
        keep,
    ).to_multiset().count(x) by {
        join_meaning::lemma_filter_counts(rows, keep, x);
        assert(rows.contains(x) == (rows.to_multiset().count(x) > 0));
        assert(found.contains(x) == (found.to_multiset().count(x) > 0));
        if found.contains(x) {
            let n = choose|n: int| 0 <= n < found.len() && found[n] == x;
            assert(is_named(found[n], rows, ids));
            let id = x.row_id->Some_0;
            assert(entries.contains((v, id)));
            let k = choose|k: int| 0 <= k < entries.len() && entries[k] == (v, id);
            assert(leads_to_row(entries[k], rows, c));
            assert(keep(x));
        }
        if rows.contains(x) && keep(x) {
            let i = choose|i: int| 0 <= i < rows.len() && rows[i] == x;
            assert(has_entry(entries, rows[i], c));
            let id = x.row_id->Some_0;
            assert(entries.contains((v, id)));
            assert(ids.contains(id));
            index_agreement::lemma_fetched(rows, ids, x);
        }
    }
    assert(found.to_multiset() =~= rows.filter(keep).to_multiset());
}

proof fn lemma_paired_alike(l: TupleModel, a: Seq<TupleModel>, b: Seq<TupleModel>)
    requires
        a.to_multiset() == b.to_multiset(),
    ensures
        paired_with(l, a).to_multiset() == paired_with(l, b).to_multiset(),
        a.len() == b.len(),
    decreases a.len(),
{
    broadcast use vstd::seq_lib::group_to_multiset_ensures;

    assert(a.to_multiset().len() == a.len());
    assert(b.to_multiset().len() == b.len());
    if a.len() > 0 {
        let x = a.last();
        let rest = a.drop_last();
        join_meaning::lemma_same_members(a, b, a.len() - 1);
        let n = choose|n: int| 0 <= n < b.len() && b[n] == a[a.len() - 1];
        let others = b.remove(n);
        assert(a =~= rest.push(x));
        assert(b =~= others.insert(n, x));
        assert(others.insert(n, x).to_multiset() =~= others.to_multiset().insert(x));
        assert(rest.to_multiset() =~= others.to_multiset());
        lemma_paired_alike(l, rest, others);
        let pair = join_pair::combined_row(l, x);
        assert(paired_with(l, a) =~= paired_with(l, rest).push(pair));
        assert(paired_with(l, b) =~= paired_with(l, others).insert(n, pair));
        assert(paired_with(l, a).to_multiset() =~= paired_with(l, b).to_multiset());
    } else {
        assert(paired_with(l, a) =~= paired_with(l, b));
    }
}

/// A left row with each of some right rows.
pub open spec fn paired_with(l: TupleModel, rows: Seq<TupleModel>) -> Seq<TupleModel> {
    Seq::new(rows.len(), |i: int| join_pair::combined_row(l, rows[i]))
}

/// What one left row gives in a join by lookups: a pair with each right row that has its
/// value, each once; the row alone where there is none and the join keeps it. NULL has no
/// partner.
pub proof fn law_a_lookup_pairs_a_row_with_its_equals(
    l: TupleModel,
    position: usize,
    entries: Seq<(ValueModel, u64)>,
    rows: Seq<TupleModel>,
    c: int,
    right_width: nat,
    keep_left: bool,
)
    requires
        index_is_exact(entries, rows, c),
        position < l.values.len(),
    ensures
        ({
            let v = l.values[position as int];
            let partners = rows.filter(equal_at(c, v));
            let given = join_planning::looked_up_rows(
                l,
                position,
                entries,
                rows,
                right_width,
                keep_left,
            );
            if v is Null || partners.len() == 0 {
                given == if keep_left {
                    seq![join_pair::left_alone(l, right_width)]
                } else {
                    Seq::empty()
                }
            } else {
                given.to_multiset() == paired_with(l, partners).to_multiset()
            }
        }),
{
    let v = l.values[position as int];
    let ids = storage_view::ids_at(entries, v);
    let found = storage_view::rows_with_ids(rows, ids);
    law_a_lookup_finds_the_rows_with_the_value(entries, rows, c, v);
    lemma_paired_alike(l, found, rows.filter(equal_at(c, v)));
    lemma_ids_at(entries, v);
    if ids.len() > 0 {
        assert(ids.contains(ids[0]));
        let k = choose|k: int| 0 <= k < entries.len() && entries[k] == (v, ids[0]);
        assert(leads_to_row(entries[k], rows, c));
        lemma_named_row(rows, ids[0], 0);
        let row = storage_view::row_with_id(rows, ids[0], 0)->Some_0;
        index_agreement::lemma_fetched(rows, ids, row);
        assert(found.len() > 0);
        assert(paired_with(l, found) =~= Seq::new(
            found.len(),
            |i: int| join_pair::combined_row(l, found[i]),
        ));
    } else {
        assert(found.len() == 0);
    }
}

/// Whether a test joins a left row with exactly the rows that have its value.
spec fn tests_for_equals(
    l: TupleModel,
    position: usize,
    rows: Seq<TupleModel>,
    c: int,
    whole: LoopJoin,
) -> bool {
    forall|j: int|
        0 <= j < rows.len() ==> ((whole.test)(l, #[trigger] rows[j]) == Ok::<bool, ErrorModel>(
            true,
        )) == (!(l.values[position as int] is Null) && rows[j].values[c]
            == l.values[position as int])
}

proof fn lemma_contribution_is_equals(
    l: TupleModel,
    position: usize,
    rows: Seq<TupleModel>,
    i: int,
    had: bool,
    c: int,
    whole: LoopJoin,
)
    requires
        0 <= i <= rows.len(),
        tests_for_equals(l, position, rows, c, whole),
    ensures
        ({
            let v = l.values[position as int];
            let partners = if v is Null {
                Seq::empty()
            } else {
                rows.skip(i).filter(equal_at(c, v))
            };
            nested_loop::contribution(l, rows, i, had, whole) == paired_with(l, partners) + (
            if !had && partners.len() == 0 && join_pair::keeps_left(whole.join_type) {
                seq![join_pair::left_alone(l, whole.right_width)]
            } else {
                Seq::empty()
            })
        }),
    decreases rows.len() - i,
{
    let v = l.values[position as int];
    let keep = equal_at(c, v);
    let none = Seq::<TupleModel>::empty();
    filter::lemma_filter_none(keep);
    assert(paired_with(l, none) =~= none);
    if i == rows.len() {
        assert(rows.skip(i) =~= none);
        let alone = seq![join_pair::left_alone(l, whole.right_width)];
        assert(none + alone =~= alone);
        assert(none + none =~= none);
    } else {
        let r = rows[i];
        let joined = (whole.test)(l, rows[i]) == Ok::<bool, ErrorModel>(true);
        lemma_contribution_is_equals(l, position, rows, i + 1, had || joined, c, whole);
        let rest = rows.skip(i + 1);
        assert(rows.skip(i) =~= seq![r] + rest);
        Seq::filter_distributes_over_add(seq![r], rest, keep);
        filter::lemma_filter_one(r, keep);
        let later = rest.filter(keep);
        assert(none + later =~= later);
        if joined {
            let pair = seq![join_pair::combined_row(l, r)];
            assert(paired_with(l, seq![r] + later) =~= pair + paired_with(l, later));
            assert(pair + (paired_with(l, later) + none) =~= (pair + paired_with(l, later))
                + none);
        }
    }
}

proof fn lemma_looked_up_are_contributions(
    left: Seq<TupleModel>,
    n: nat,
    position: usize,
    entries: Seq<(ValueModel, u64)>,
    rows: Seq<TupleModel>,
    c: int,
    whole: LoopJoin,
)
    requires
        index_is_exact(entries, rows, c),
        n <= left.len(),
        !join_pair::keeps_right(whole.join_type),
        forall|i: int|
            0 <= i < left.len() ==> position < (#[trigger] left[i]).values.len()
                && tests_for_equals(left[i], position, rows, c, whole),
    ensures
        join_planning::lookup_join(
            left,
            n,
            position,
            entries,
            rows,
            whole.right_width,
            join_pair::keeps_left(whole.join_type),
        ).to_multiset() == nested_loop::contributions(
            left.take(n as int),
            rows,
            whole,
        ).to_multiset(),
    decreases n,
{
    broadcast use vstd::seq_lib::group_to_multiset_ensures;

    let keep_left = join_pair::keeps_left(whole.join_type);
    if n > 0 {
        let m = (n - 1) as nat;
        let l = left[n - 1];
        lemma_looked_up_are_contributions(left, m, position, entries, rows, c, whole);
        assert(position < left[n - 1].values.len());
        law_a_lookup_pairs_a_row_with_its_equals(
            l,
            position,
            entries,
            rows,
            c,
            whole.right_width,
            keep_left,
        );
        lemma_contribution_is_equals(l, position, rows, 0, false, c, whole);
        assert(rows.skip(0) =~= rows);
        let own = join_planning::looked_up_rows(
            l,
            position,
            entries,
            rows,
            whole.right_width,
            keep_left,
        );
        let owed = nested_loop::contribution(l, rows, 0, false, whole);
        let none = Seq::<TupleModel>::empty();
        assert(paired_with(l, none) =~= none);
        assert(paired_with(l, rows.filter(equal_at(c, l.values[position as int]))) + none
            =~= paired_with(l, rows.filter(equal_at(c, l.values[position as int]))));
        let alone = seq![join_pair::left_alone(l, whole.right_width)];
        assert(none + alone =~= alone);
        assert(none + none =~= none);
        assert(own.to_multiset() == owed.to_multiset()) by {
            let partners = rows.filter(equal_at(c, l.values[position as int]));
            if partners.len() == 0 {
                assert(partners =~= none);
            }
        }
        lemma_contributions_push(left.take(m as int), l, rows, whole);
        assert(left.take(n as int) =~= left.take(m as int).push(l));
        let before = join_planning::lookup_join(
            left,
            m,
            position,
            entries,
            rows,
            whole.right_width,
            keep_left,
        );
        let given = nested_loop::contributions(left.take(m as int), rows, whole);
        vstd::seq_lib::lemma_multiset_commutative(before, own);
        vstd::seq_lib::lemma_multiset_commutative(given, owed);
    } else {
        assert(left.take(0) =~= Seq::<TupleModel>::empty());
    }
}

proof fn lemma_contributions_push(
    left: Seq<TupleModel>,
    l: TupleModel,
    right: Seq<TupleModel>,
    whole: LoopJoin,
)
    ensures
        nested_loop::contributions(left.push(l), right, whole) == nested_loop::contributions(
            left,
            right,
            whole,
        ) + nested_loop::contribution(l, right, 0, false, whole),
    decreases left.len(),
{
    let own = nested_loop::contribution(l, right, 0, false, whole);
    let all = left.push(l);
    let none = Seq::<TupleModel>::empty();
    if left.len() == 0 {
        assert(all[0] == l);
        assert(all.drop_first() =~= none);
        assert(nested_loop::contributions(none, right, whole) == none);
        assert(nested_loop::contributions(left, right, whole) == none);
        assert(own + none =~= none + own);
    } else {
        let rest = left.drop_first();
        lemma_contributions_push(rest, l, right, whole);
        assert(all[0] == left[0]);
        assert(all.drop_first() =~= rest.push(l));
        let first = nested_loop::contribution(left[0], right, 0, false, whole);
        let later = nested_loop::contributions(rest, right, whole);
        assert(first + (later + own) =~= (first + later) + own);
    }
}

/// A join by lookups gives the rows that it owes: one for each pair on which its condition
/// is true, and with a left join one for each left row without such a pair. So it is where
/// the index is exact and the condition is true of a pair exactly where the two values are
/// the same, and not NULL.
pub proof fn law_a_join_by_lookups_gives_the_rows_it_owes(
    left: Relation,
    right: Relation,
    join_type: JoinType,
    condition: ExprModel,
    params: Seq<ValueModel>,
    position: usize,
    c: int,
    entries: Seq<(ValueModel, u64)>,
    given: Relation,
)
    requires
        join_type == JoinType::Inner || join_type == JoinType::Left,
        index_is_exact(entries, right.rows.rows, c),
        forall|i: int|
            0 <= i < left.rows.rows.len() ==> position < (
            #[trigger] left.rows.rows[i]).values.len(),
        forall|i: int, j: int|
            0 <= i < left.rows.rows.len() && 0 <= j < right.rows.rows.len() ==> (
            #[trigger] join_meaning::is_true_pair(left, right, condition, params, i, j)) == (!(
            left.rows.rows[i].values[position as int] is Null) && right.rows.rows[j].values[c]
                == left.rows.rows[i].values[position as int]),
        given.columns == left.columns + right.columns,
        given.rows.end is None,
        given.rows.rows == join_planning::lookup_join(
            left.rows.rows,
            left.rows.rows.len(),
            position,
            entries,
            right.rows.rows,
            right.columns.len(),
            join_type == JoinType::Left,
        ),
    ensures
        join_meaning::gives_what_is_owed(given, left, right, join_type, condition, params),
{
    let ls = left.rows.rows;
    let rs = right.rows.rows;
    let whole = join_meaning::whole_join(left, right, join_type, condition, params);
    assert forall|i: int| 0 <= i < ls.len() implies position < (#[trigger] ls[i]).values.len()
        && tests_for_equals(ls[i], position, rs, c, whole) by {
        assert forall|j: int| 0 <= j < rs.len() implies ((whole.test)(ls[i], #[trigger] rs[j])
            == Ok::<bool, ErrorModel>(true)) == (!(ls[i].values[position as int] is Null)
            && rs[j].values[c] == ls[i].values[position as int]) by {
            let t = join_meaning::is_true_pair(left, right, condition, params, i, j);
            assert(t == ((whole.test)(ls[i], rs[j]) == Ok::<bool, ErrorModel>(true)));
        }
    }
    lemma_looked_up_are_contributions(ls, ls.len(), position, entries, rs, c, whole);
    assert(ls.take(ls.len() as int) =~= ls);
    let owed = nested_loop::contributions(ls, rs, whole);
    assert(owed + Seq::<TupleModel>::empty() =~= owed);
    assert(hash_rows::loop_rows(ls, rs, whole) == owed);
    join_meaning::lemma_owed_whatever_the_order(
        given.rows.rows,
        left,
        right,
        join_type,
        condition,
        params,
    );
    reveal(join_meaning::gives_what_is_owed);
}

} // verus!
