//! A join by keys gives the rows that testing every pair gives, whichever side is
//! held in memory.

use crate::compare;
use crate::evaluator;
use crate::executor::hash_join;
use crate::executor::hash_join::{
    HashJoin, HashJoinBuildSide, HashJoinOperator, JoinInput, KeyChoice, KeyRule, TableModel,
};
use crate::executor::join_keys;
use crate::executor::join_keys::{
    DirectJoinKeySide, DirectJoinNameCase, DirectJoinQualifierTier,
};
use crate::executor::join_pair;
use crate::executor::join_table;
use crate::executor::join_table::Entry;
use crate::executor::nested_loop;
use crate::executor::nested_loop::{LoopJoin, NestedLoopJoinOperator};
use crate::executor::operator;
use crate::executor::operator::PhysicalOperator;
use crate::logical_plan::{BinaryOperator, ExprModel, JoinType};
use crate::schema;
use crate::schema::{ColumnModel, Error, ErrorModel, TupleModel};
use crate::text;
use crate::value::ValueModel;
use vstd::prelude::*;

verus! {

/// The kind of a key value: whole numbers are of one kind.
pub open spec fn kind(v: ValueModel) -> int {
    if compare::int_value(v) is Some {
        -1
    } else {
        compare::type_priority(v)
    }
}

/// Whether the values of a key are of given kinds.
pub open spec fn of_kinds(k: Seq<ValueModel>, kinds: Seq<int>) -> bool {
    k.len() == kinds.len() && forall|i: int|
        0 <= i < k.len() ==> kind(#[trigger] k[i]) == kinds[i]
}

/// Whether each of some rows has a key of given kinds, or none.
pub open spec fn keyed(rows: Seq<TupleModel>, rule: KeyRule, kinds: Seq<int>) -> bool {
    forall|i: int|
        0 <= i < rows.len() ==> key_fits(hash_join::row_key(rule, (#[trigger] rows[i]).values), kinds)
}

/// Whether a key is of given kinds, or missing.
pub open spec fn key_fits(
    k: Result<Option<Seq<ValueModel>>, ErrorModel>,
    kinds: Seq<int>,
) -> bool {
    match k {
        Ok(Some(k)) => of_kinds(k, kinds),
        Ok(None) => true,
        Err(_) => false,
    }
}

proof fn lemma_values_meet_both(a: ValueModel, b: ValueModel, c: ValueModel)
    requires
        kind(a) == kind(b),
        kind(b) == kind(c),
        join_table::values_meet(a, b),
        join_table::values_meet(b, c),
    ensures
        join_table::values_meet(a, c),
        join_table::values_meet(b, a),
{
    if let ValueModel::Vector(x) = a {
        let y = b->Vector_0;
        let z = c->Vector_0;
        assert forall|i: int| 0 <= i < x.len() implies compare::float4_order(#[trigger] x[i], z[i])
            == Some(text::Order::Equal) by {
            assert(compare::float4_order(x[i], y[i]) == Some(text::Order::Equal));
            assert(compare::float4_order(y[i], z[i]) == Some(text::Order::Equal));
        }
        assert forall|i: int| 0 <= i < y.len() implies compare::float4_order(#[trigger] y[i], x[i])
            == Some(text::Order::Equal) by {
            assert(compare::float4_order(x[i], y[i]) == Some(text::Order::Equal));
        }
    }
}

/// Keys of one kind that meet the same key meet each other.
pub proof fn lemma_keys_meet_both(a: Seq<ValueModel>, b: Seq<ValueModel>, c: Seq<ValueModel>, kinds: Seq<int>)
    requires
        of_kinds(a, kinds),
        of_kinds(b, kinds),
        of_kinds(c, kinds),
        join_table::keys_meet(b, c),
    ensures
        join_table::keys_meet(a, b) == join_table::keys_meet(a, c),
{
    join_table::law_meeting_is_symmetric(b, c);
    if join_table::keys_meet(a, b) {
        assert forall|i: int| 0 <= i < a.len() implies join_table::values_meet(
            #[trigger] a[i],
            c[i],
        ) by {
            assert(join_table::values_meet(a[i], b[i]));
            assert(join_table::values_meet(b[i], c[i]));
            assert(kind(a[i]) == kinds[i] && kind(b[i]) == kinds[i] && kind(c[i]) == kinds[i]);
            lemma_values_meet_both(a[i], b[i], c[i]);
        }
    }
    if join_table::keys_meet(a, c) {
        assert forall|i: int| 0 <= i < a.len() implies join_table::values_meet(
            #[trigger] a[i],
            b[i],
        ) by {
            assert(join_table::values_meet(a[i], c[i]));
            assert(join_table::values_meet(c[i], b[i]));
            assert(kind(a[i]) == kinds[i] && kind(b[i]) == kinds[i] && kind(c[i]) == kinds[i]);
            lemma_values_meet_both(a[i], c[i], b[i]);
        }
    }
}

/// The rows of a table under the first key that meets a given one.
pub open spec fn found(table: Seq<Entry>, k: Seq<ValueModel>) -> Seq<TupleModel> {
    match join_table::first_meeting(join_table::entry_keys(table), k, 0) {
        Some(b) => table[b as int].1,
        None => Seq::empty(),
    }
}

/// The rows whose key meets a given one, in order.
pub open spec fn matching(rows: Seq<TupleModel>, rule: KeyRule, k: Seq<ValueModel>) -> Seq<
    TupleModel,
>
    decreases rows.len(),
{
    if rows.len() == 0 {
        Seq::empty()
    } else {
        let rest = matching(rows.drop_first(), rule, k);
        if row_meets(rows[0], rule, k) {
            seq![rows[0]] + rest
        } else {
            rest
        }
    }
}

/// Whether the key of a row meets a given one.
pub open spec fn row_meets(row: TupleModel, rule: KeyRule, k: Seq<ValueModel>) -> bool {
    hash_join::row_key(rule, row.values) matches Ok(Some(own)) && join_table::keys_meet(own, k)
}

/// Whether the keys of a table are of given kinds.
pub open spec fn table_fits(table: Seq<Entry>, kinds: Seq<int>) -> bool {
    forall|i: int| 0 <= i < table.len() ==> of_kinds((#[trigger] table[i]).0, kinds)
}

pub proof fn lemma_same_first_meeting(
    keys: Seq<Seq<ValueModel>>,
    a: Seq<ValueModel>,
    b: Seq<ValueModel>,
    from: int,
    kinds: Seq<int>,
)
    requires
        0 <= from,
        forall|i: int| 0 <= i < keys.len() ==> of_kinds(#[trigger] keys[i], kinds),
        of_kinds(a, kinds),
        of_kinds(b, kinds),
        join_table::keys_meet(a, b),
    ensures
        join_table::first_meeting(keys, a, from) == join_table::first_meeting(keys, b, from),
    decreases keys.len() - from,
{
    if from < keys.len() {
        lemma_keys_meet_both(keys[from], a, b, kinds);
        lemma_same_first_meeting(keys, a, b, from + 1, kinds);
    }
}

proof fn lemma_pushed_first_meeting(
    keys: Seq<Seq<ValueModel>>,
    key: Seq<ValueModel>,
    k: Seq<ValueModel>,
    from: int,
)
    requires
        0 <= from <= keys.len(),
        keys.len() < usize::MAX,
    ensures
        join_table::first_meeting(keys.push(key), k, from) == match join_table::first_meeting(
            keys,
            k,
            from,
        ) {
            Some(i) => Some(i),
            None => if join_table::keys_meet(key, k) {
                Some(keys.len() as usize)
            } else {
                None
            },
        },
    decreases keys.len() - from,
{
    if from < keys.len() {
        assert(keys.push(key)[from] == keys[from]);
        lemma_pushed_first_meeting(keys, key, k, from + 1);
    } else {
        assert(keys.push(key)[from] == key);
        assert(join_table::first_meeting(keys.push(key), k, from + 1) is None);
    }
}

pub proof fn lemma_found_after(
    table: Seq<Entry>,
    key: Seq<ValueModel>,
    row: TupleModel,
    k: Seq<ValueModel>,
    kinds: Seq<int>,
)
    requires
        table_fits(table, kinds),
        of_kinds(key, kinds),
        of_kinds(k, kinds),
        table.len() < usize::MAX,
    ensures
        found(join_table::with_row(table, key, row), k) == if join_table::keys_meet(key, k) {
            found(table, k).push(row)
        } else {
            found(table, k)
        },
        table_fits(join_table::with_row(table, key, row), kinds),
        join_table::with_row(table, key, row).len() <= table.len() + 1,
{
    let keys = join_table::entry_keys(table);
    let now = join_table::with_row(table, key, row);
    let new_keys = join_table::entry_keys(now);
    join_table::lemma_first_meeting_in_range(keys, key, 0);
    join_table::lemma_first_meeting_in_range(keys, k, 0);
    assert forall|i: int| 0 <= i < keys.len() implies of_kinds(#[trigger] keys[i], kinds) by {
        assert(of_kinds(table[i].0, kinds));
    }
    if join_table::keys_meet(key, k) {
        lemma_same_first_meeting(keys, key, k, 0, kinds);
    }
    match join_table::first_meeting(keys, key, 0) {
        Some(i) => {
            assert(new_keys =~= keys);
            if let Some(j) = join_table::first_meeting(keys, k, 0) {
                if i == j && !join_table::keys_meet(key, k) {
                    join_table::law_meeting_is_symmetric(keys[i as int], key);
                    lemma_keys_meet_both(key, keys[i as int], k, kinds);
                }
            }
            assert forall|x: int| 0 <= x < now.len() implies of_kinds(
                (#[trigger] now[x]).0,
                kinds,
            ) by {
                assert(of_kinds(table[x].0, kinds));
            }
        },
        None => {
            assert(new_keys =~= keys.push(key));
            lemma_pushed_first_meeting(keys, key, k, 0);
            assert(found(table, k).push(row) =~= seq![row] || !join_table::keys_meet(key, k));
            assert forall|x: int| 0 <= x < now.len() implies of_kinds(
                (#[trigger] now[x]).0,
                kinds,
            ) by {
                if x < table.len() {
                    assert(of_kinds(table[x].0, kinds));
                }
            }
        },
    }
}

/// What a built table has under a key are the rows of the build side whose key meets
/// it.
pub proof fn lemma_built_rows(
    rows: Seq<TupleModel>,
    table: TableModel,
    used: nat,
    limit: usize,
    rule: KeyRule,
    keep: bool,
    k: Seq<ValueModel>,
    kinds: Seq<int>,
)
    requires
        keyed(rows, rule, kinds),
        of_kinds(k, kinds),
        table_fits(table.entries, kinds),
        table.entries.len() + rows.len() < usize::MAX,
        hash_join::built(operator::just_rows(rows), table, used, limit, rule, keep) is Ok,
    ensures
        ({
            let t = hash_join::built(
                operator::just_rows(rows),
                table,
                used,
                limit,
                rule,
                keep,
            )->Ok_0.entries;
            &&& found(t, k) == found(table.entries, k) + matching(rows, rule, k)
            &&& table_fits(t, kinds)
            &&& t.len() <= table.entries.len() + rows.len()
        }),
    decreases rows.len(),
{
    if rows.len() == 0 {
        assert(found(table.entries, k) + Seq::<TupleModel>::empty() =~= found(table.entries, k));
    } else {
        let rest = rows.drop_first();
        let row = rows[0];
        assert(operator::just_rows(rows).rest() =~= operator::just_rows(rest));
        assert(key_fits(hash_join::row_key(rule, rows[0].values), kinds));
        assert forall|i: int| 0 <= i < rest.len() implies key_fits(
            hash_join::row_key(rule, (#[trigger] rest[i]).values),
            kinds,
        ) by {
            assert(rest[i] == rows[i + 1]);
        }
        match hash_join::row_key(rule, row.values) {
            Ok(Some(own)) => {
                let next = TableModel {
                    entries: join_table::with_row(table.entries, own, row),
                    keyless: table.keyless,
                };
                let now = used + join_pair::tuple_size(row) + join_table::key_size(own) + 24;
                lemma_found_after(table.entries, own, row, k, kinds);
                lemma_built_rows(rest, next, now, limit, rule, keep, k, kinds);
                let tail = matching(rest, rule, k);
                assert(found(table.entries, k).push(row) + tail =~= found(table.entries, k) + (
                seq![row] + tail));
            },
            _ => {
                if keep {
                    let next = TableModel {
                        entries: table.entries,
                        keyless: table.keyless.push(row),
                    };
                    lemma_built_rows(
                        rest,
                        next,
                        used + join_pair::tuple_size(row),
                        limit,
                        rule,
                        keep,
                        k,
                        kinds,
                    );
                } else {
                    lemma_built_rows(rest, table, used, limit, rule, keep, k, kinds);
                }
            },
        }
    }
}

/// Rows of a table are rows of the build side.
pub proof fn lemma_buckets_hold_rows(
    rows: Seq<TupleModel>,
    table: TableModel,
    used: nat,
    limit: usize,
    rule: KeyRule,
    keep: bool,
    all: Seq<TupleModel>,
)
    requires
        forall|i: int| 0 <= i < rows.len() ==> all.contains(#[trigger] rows[i]),
        buckets_from(table.entries, all),
        table.entries.len() + rows.len() < usize::MAX,
        hash_join::built(operator::just_rows(rows), table, used, limit, rule, keep) is Ok,
    ensures
        buckets_from(
            hash_join::built(
                operator::just_rows(rows),
                table,
                used,
                limit,
                rule,
                keep,
            )->Ok_0.entries,
            all,
        ),
    decreases rows.len(),
{
    if rows.len() > 0 {
        let rest = rows.drop_first();
        let row = rows[0];
        assert(all.contains(rows[0]));
        assert(operator::just_rows(rows).rest() =~= operator::just_rows(rest));
        assert forall|i: int| 0 <= i < rest.len() implies all.contains(#[trigger] rest[i]) by {
            assert(rest[i] == rows[i + 1]);
        }
        match hash_join::row_key(rule, row.values) {
            Ok(Some(own)) => {
                let now = join_table::with_row(table.entries, own, row);
                join_table::lemma_first_meeting_in_range(
                    join_table::entry_keys(table.entries),
                    own,
                    0,
                );
                assert(buckets_from(now, all)) by {
                    assert forall|b: int, i: int|
                        0 <= b < now.len() && 0 <= i < now[b].1.len() implies all.contains(
                        #[trigger] now[b].1[i],
                    ) by {
                        if b < table.entries.len() && i < table.entries[b].1.len() {
                            assert(all.contains(table.entries[b].1[i]));
                            assert(now[b].1[i] == table.entries[b].1[i]);
                        } else {
                            assert(now[b].1[i] == row);
                        }
                    }
                }
                lemma_buckets_hold_rows(
                    rest,
                    (TableModel { entries: now, keyless: table.keyless }),
                    used + join_pair::tuple_size(row) + join_table::key_size(own) + 24,
                    limit,
                    rule,
                    keep,
                    all,
                );
            },
            _ => {
                if keep {
                    lemma_buckets_hold_rows(
                        rest,
                        (TableModel {
                            entries: table.entries,
                            keyless: table.keyless.push(row),
                        }),
                        used + join_pair::tuple_size(row),
                        limit,
                        rule,
                        keep,
                        all,
                    );
                } else {
                    lemma_buckets_hold_rows(rest, table, used, limit, rule, keep, all);
                }
            },
        }
    }
}

/// Whether the rows of a table are among given ones.
pub open spec fn buckets_from(table: Seq<Entry>, all: Seq<TupleModel>) -> bool {
    forall|b: int, i: int|
        0 <= b < table.len() && 0 <= i < table[b].1.len() ==> all.contains(
            #[trigger] table[b].1[i],
        )
}

proof fn lemma_partners_shift(
    p: TupleModel,
    r: TupleModel,
    rest: Seq<TupleModel>,
    i: int,
    join: HashJoin,
)
    requires
        0 <= i <= rest.len(),
    ensures
        hash_join::partners(p, seq![r] + rest, i + 1, join) == hash_join::partners(p, rest, i, join),
    decreases rest.len() - i,
{
    if i < rest.len() {
        assert((seq![r] + rest)[i + 1] == rest[i]);
        lemma_partners_shift(p, r, rest, i + 1, join);
    }
}

/// Whether a left and a right row are joined: by the test of all pairs exactly where
/// their keys meet and the test behind the keys passes.
pub open spec fn pair_agrees(
    l: TupleModel,
    r: TupleModel,
    whole: LoopJoin,
    join: HashJoin,
    rule: KeyRule,
    key: Option<Seq<ValueModel>>,
) -> bool {
    (whole.test)(l, r) == Ok::<bool, ErrorModel>(
        key is Some && row_meets(r, rule, key->Some_0) && (join.test)(l, r) == Ok::<
            bool,
            ErrorModel,
        >(true),
    )
}

/// The partners of a left row among right rows, by their keys.
pub open spec fn partners_by_key(
    l: TupleModel,
    right: Seq<TupleModel>,
    join: HashJoin,
    rule: KeyRule,
    key: Option<Seq<ValueModel>>,
) -> Seq<TupleModel> {
    match key {
        Some(k) => hash_join::partners(l, matching(right, rule, k), 0, join),
        None => Seq::empty(),
    }
}

proof fn lemma_contribution_is_partners(
    l: TupleModel,
    right: Seq<TupleModel>,
    i: int,
    had: bool,
    whole: LoopJoin,
    join: HashJoin,
    rule: KeyRule,
    key: Option<Seq<ValueModel>>,
)
    requires
        0 <= i <= right.len(),
        forall|j: int|
            0 <= j < right.len() ==> pair_agrees(l, #[trigger] right[j], whole, join, rule, key),
        join.build_side == HashJoinBuildSide::Right,
        join.projection is None,
    ensures
        ({
            let own = partners_by_key(l, right.skip(i), join, rule, key);
            nested_loop::contribution(l, right, i, had, whole) == own + (if !had && own.len() == 0
                && join_pair::keeps_left(whole.join_type) {
                seq![join_pair::left_alone(l, whole.right_width)]
            } else {
                Seq::empty()
            })
        }),
    decreases right.len() - i,
{
    let rest = right.skip(i);
    let own = partners_by_key(l, rest, join, rule, key);
    if i == right.len() {
        assert(rest =~= Seq::<TupleModel>::empty());
        assert(own =~= Seq::<TupleModel>::empty());
        assert(nested_loop::contribution(l, right, i, had, whole) =~= own + (if !had
            && join_pair::keeps_left(whole.join_type) {
            seq![join_pair::left_alone(l, whole.right_width)]
        } else {
            Seq::empty()
        }));
    } else {
        let r = right[i];
        assert(pair_agrees(l, right[i], whole, join, rule, key));
        assert(rest[0] == r);
        assert(rest.drop_first() =~= right.skip(i + 1));
        let later = partners_by_key(l, right.skip(i + 1), join, rule, key);
        if let Some(k) = key {
            let tail = matching(right.skip(i + 1), rule, k);
            if row_meets(r, rule, k) {
                assert((seq![r] + tail)[0] == r);
                lemma_partners_shift(l, r, tail, 0, join);
            }
        }
        if (whole.test)(l, r) == Ok::<bool, ErrorModel>(true) {
            lemma_contribution_is_partners(l, right, i + 1, true, whole, join, rule, key);
            let head = seq![join_pair::combined_row(l, r)];
            assert(own =~= head + later);
            assert(head + (later + Seq::<TupleModel>::empty()) =~= own + Seq::<
                TupleModel,
            >::empty());
        } else {
            lemma_contribution_is_partners(l, right, i + 1, had, whole, join, rule, key);
            assert(own =~= later);
        }
    }
}

/// The key of a row, where it has one.
pub open spec fn own_key(rule: KeyRule, row: TupleModel) -> Option<Seq<ValueModel>> {
    match hash_join::row_key(rule, row.values) {
        Ok(k) => k,
        Err(_) => None,
    }
}

pub proof fn lemma_same_output(
    left: Seq<TupleModel>,
    right: Seq<TupleModel>,
    table: Seq<Entry>,
    whole: LoopJoin,
    join: HashJoin,
    rule: KeyRule,
    kinds: Seq<int>,
)
    requires
        keyed(left, join.probe, kinds),
        forall|k: Seq<ValueModel>|
            of_kinds(k, kinds) ==> #[trigger] found(table, k) == matching(right, rule, k),
        forall|i: int, j: int|
            0 <= i < left.len() && 0 <= j < right.len() ==> pair_agrees(
                #[trigger] left[i],
                #[trigger] right[j],
                whole,
                join,
                rule,
                own_key(join.probe, left[i]),
            ),
        join.build_side == HashJoinBuildSide::Right,
        join.projection is None,
        join.join_type == whole.join_type,
        join.right_width == whole.right_width,
    ensures
        nested_loop::contributions(left, right, whole) == hash_join::all_probe_rows(
            left,
            table,
            join,
        ),
    decreases left.len(),
{
    if left.len() > 0 {
        let l = left[0];
        let rest = left.drop_first();
        let key = own_key(join.probe, l);
        assert(key_fits(hash_join::row_key(join.probe, left[0].values), kinds));
        assert forall|j: int| 0 <= j < right.len() implies pair_agrees(
            l,
            #[trigger] right[j],
            whole,
            join,
            rule,
            key,
        ) by {
            assert(pair_agrees(left[0], right[j], whole, join, rule, key));
        }
        lemma_contribution_is_partners(l, right, 0, false, whole, join, rule, key);
        assert(right.skip(0) =~= right);
        let own = partners_by_key(l, right, join, rule, key);
        if let Some(k) = key {
            assert(found(table, k) == matching(right, rule, k));
        }
        assert(hash_join::probe_rows(l, table, join) =~= nested_loop::contribution(
            l,
            right,
            0,
            false,
            whole,
        ));
        assert forall|i: int| 0 <= i < rest.len() implies key_fits(
            hash_join::row_key(join.probe, (#[trigger] rest[i]).values),
            kinds,
        ) by {
            assert(rest[i] == left[i + 1]);
        }
        assert forall|i: int, j: int|
            0 <= i < rest.len() && 0 <= j < right.len() implies pair_agrees(
            #[trigger] rest[i],
            #[trigger] right[j],
            whole,
            join,
            rule,
            own_key(join.probe, rest[i]),
        ) by {
            assert(rest[i] == left[i + 1]);
        }
        lemma_same_output(rest, right, table, whole, join, rule, kinds);
    }
}

/// Whether an operand is a qualified column that exactly one of the columns is
/// called, the one at a given position.
pub open spec fn named_once(e: ExprModel, cols: Seq<ColumnModel>, k: int) -> bool {
    match e {
        ExprModel::Column { table: Some(q), name } => {
            &&& 0 <= k < cols.len()
            &&& is_called(cols[k], q, name)
            &&& forall|j: int| 0 <= j < cols.len() && j != k ==> !is_called(#[trigger] cols[j], q, name)
        },
        _ => false,
    }
}

/// Whether a column is seen under a name and a qualifier.
pub open spec fn is_called(c: ColumnModel, q: Seq<char>, name: Seq<char>) -> bool {
    c.name == name && c.source_table == Some(q)
}

/// Whether the operands of an equality are a column of the left and one of the right
/// input, each at a given position.
pub open spec fn is_key_term(
    p: (ExprModel, ExprModel),
    left: Seq<ColumnModel>,
    right: Seq<ColumnModel>,
    x: int,
    y: int,
) -> bool {
    let both = left + right;
    &&& 0 <= x < left.len()
    &&& 0 <= y < right.len()
    &&& (named_once(p.0, both, x) && named_once(p.1, both, left.len() + y)) || (named_once(
        p.1,
        both,
        x,
    ) && named_once(p.0, both, left.len() + y))
}

/// Whether a condition is made up of equalities of a column of the left input with one
/// of the right input.
pub open spec fn equi_condition(
    on: ExprModel,
    left: Seq<ColumnModel>,
    right: Seq<ColumnModel>,
) -> bool {
    match join_keys::equality_operands(on) {
        Some(ps) => ps.len() > 0 && forall|i: int|
            0 <= i < ps.len() ==> exists|x: int, y: int|
                is_key_term(#[trigger] ps[i], left, right, x, y),
        None => false,
    }
}

/// Whether a value is a whole number or NULL.
pub open spec fn int_or_null(v: ValueModel) -> bool {
    v is Null || compare::int_value(v) is Some
}

/// Whether rows have a value for each column, and whole numbers or NULL at given
/// positions.
pub open spec fn has_numbers(
    rows: Seq<TupleModel>,
    cols: Seq<ColumnModel>,
    positions: Seq<usize>,
) -> bool {
    &&& forall|i: int| 0 <= i < rows.len() ==> (#[trigger] rows[i]).values.len() == cols.len()
    &&& forall|i: int, j: int|
        0 <= i < rows.len() && 0 <= j < positions.len() ==> int_or_null(
            (#[trigger] rows[i]).values[#[trigger] positions[j] as int],
        )
}

proof fn lemma_first_meant_at(
    cols: Seq<ColumnModel>,
    q: Seq<char>,
    name: Seq<char>,
    from: int,
    k: int,
)
    requires
        0 <= from <= k <= cols.len(),
        k < cols.len() ==> is_called(cols[k], q, name),
        forall|j: int| from <= j < k ==> !is_called(#[trigger] cols[j], q, name),
        cols.len() <= usize::MAX,
    ensures
        join_keys::first_meant(
            cols,
            Some(q),
            name,
            DirectJoinQualifierTier::Alias,
            DirectJoinNameCase::Exact,
            from,
        ) == if k < cols.len() {
            Some(k as usize)
        } else {
            None::<usize>
        },
        schema::find_aliased(cols, q, name, from) == if k < cols.len() {
            Some(k as usize)
        } else {
            None::<usize>
        },
    decreases k - from,
{
    if from < k {
        assert(!is_called(cols[from], q, name));
        lemma_first_meant_at(cols, q, name, from + 1, k);
    }
}

/// A column that is named once is found at its place, in the input that it belongs to
/// and in both together.
proof fn lemma_named_once(e: ExprModel, left: Seq<ColumnModel>, right: Seq<ColumnModel>, k: int)
    requires
        named_once(e, left + right, k),
        left.len() + right.len() <= usize::MAX,
    ensures
        join_keys::direct_side(e, left, right) == Some(
            if k < left.len() {
                DirectJoinKeySide::Left(k as usize)
            } else {
                DirectJoinKeySide::Right((k - left.len()) as usize)
            },
        ),
        e matches ExprModel::Column { table, name } && schema::qualified_index(
            left + right,
            table,
            name,
        ) == Some(k as usize),
{
    let both = left + right;
    if let ExprModel::Column { table: Some(q), name } = e {
        lemma_first_meant_at(both, q, name, 0, k);
        assert forall|j: int| 0 <= j < left.len() && j != k implies !is_called(
            #[trigger] left[j],
            q,
            name,
        ) by {
            assert(both[j] == left[j]);
        }
        assert forall|j: int| 0 <= j < right.len() && j + left.len() != k implies !is_called(
            #[trigger] right[j],
            q,
            name,
        ) by {
            assert(both[j + left.len()] == right[j]);
        }
        if k < left.len() {
            assert(both[k] == left[k]);
            lemma_first_meant_at(left, q, name, 0, k);
            lemma_first_meant_at(left, q, name, k + 1, left.len() as int);
            lemma_first_meant_at(right, q, name, 0, right.len() as int);
        } else {
            let at = k - left.len();
            assert(both[k] == right[at]);
            lemma_first_meant_at(right, q, name, 0, at);
            lemma_first_meant_at(right, q, name, at + 1, right.len() as int);
            lemma_first_meant_at(left, q, name, 0, left.len() as int);
        }
    }
}

/// Whether an equality is one of two whole numbers or NULLs, a value of either row.
spec fn term_fits(
    p: (ExprModel, ExprModel),
    left: Seq<ColumnModel>,
    right: Seq<ColumnModel>,
    params: Seq<ValueModel>,
    l: Seq<ValueModel>,
    r: Seq<ValueModel>,
) -> bool {
    let a = evaluator::eval(p.0, left + right, params, l + r);
    let b = evaluator::eval(p.1, left + right, params, l + r);
    match join_keys::direct_pair(p, left, right) {
        Some((x, y)) => {
            &&& x < l.len()
            &&& y < r.len()
            &&& int_or_null(l[x as int])
            &&& int_or_null(r[y as int])
            &&& (a == Ok::<ValueModel, ErrorModel>(l[x as int]) && b == Ok::<
                ValueModel,
                ErrorModel,
            >(r[y as int])) || (b == Ok::<ValueModel, ErrorModel>(l[x as int]) && a == Ok::<
                ValueModel,
                ErrorModel,
            >(r[y as int]))
        },
        None => false,
    }
}

/// Whether both sides of an equality are the same number.
spec fn term_holds(
    p: (ExprModel, ExprModel),
    left: Seq<ColumnModel>,
    right: Seq<ColumnModel>,
    l: Seq<ValueModel>,
    r: Seq<ValueModel>,
) -> bool {
    let at = join_keys::direct_pair(p, left, right)->Some_0;
    compare::int_value(l[at.0 as int]) is Some && compare::int_value(l[at.0 as int])
        == compare::int_value(r[at.1 as int])
}

proof fn lemma_key_term(
    p: (ExprModel, ExprModel),
    left: Seq<ColumnModel>,
    right: Seq<ColumnModel>,
    x: int,
    y: int,
)
    requires
        is_key_term(p, left, right, x, y),
        left.len() + right.len() <= usize::MAX,
    ensures
        join_keys::direct_pair(p, left, right) == Some((x as usize, y as usize)),
        forall|params: Seq<ValueModel>, l: Seq<ValueModel>, r: Seq<ValueModel>|
            l.len() == left.len() && r.len() == right.len() && int_or_null(l[x]) && int_or_null(
                r[y],
            ) ==> #[trigger] term_fits(p, left, right, params, l, r),
{
    if named_once(p.0, left + right, x) && named_once(p.1, left + right, left.len() + y) {
        lemma_named_once(p.0, left, right, x);
        lemma_named_once(p.1, left, right, left.len() + y);
    } else {
        lemma_named_once(p.1, left, right, x);
        lemma_named_once(p.0, left, right, left.len() + y);
    }
    assert forall|params: Seq<ValueModel>, l: Seq<ValueModel>, r: Seq<ValueModel>|
        l.len() == left.len() && r.len() == right.len() && int_or_null(l[x]) && int_or_null(
            r[y],
        ) implies #[trigger] term_fits(p, left, right, params, l, r) by {
        assert((l + r)[x] == l[x]);
        assert((l + r)[left.len() + y] == r[y]);
    }
}

proof fn lemma_term_value(
    e: ExprModel,
    left: Seq<ColumnModel>,
    right: Seq<ColumnModel>,
    params: Seq<ValueModel>,
    l: Seq<ValueModel>,
    r: Seq<ValueModel>,
)
    requires
        e is BinaryExpr,
        e->BinaryExpr_op == BinaryOperator::Eq,
        term_fits((*e->BinaryExpr_left, *e->BinaryExpr_right), left, right, params, l, r),
    ensures
        ({
            let v = evaluator::eval(e, left + right, params, l + r);
            &&& v is Ok
            &&& v->Ok_0 is Boolean || v->Ok_0 is Null
            &&& (v->Ok_0 == ValueModel::Boolean(true)) == term_holds(
                (*e->BinaryExpr_left, *e->BinaryExpr_right),
                left,
                right,
                l,
                r,
            )
        }),
{
    let p = (*e->BinaryExpr_left, *e->BinaryExpr_right);
    let at = join_keys::direct_pair(p, left, right)->Some_0;
    let a = l[at.0 as int];
    let b = r[at.1 as int];
    lemma_equal_numbers(a, b);
    lemma_equal_numbers(b, a);
}

proof fn lemma_equal_numbers(a: ValueModel, b: ValueModel)
    requires
        int_or_null(a),
        int_or_null(b),
    ensures
        ({
            let v = evaluator::binary_value(a, BinaryOperator::Eq, b);
            &&& v is Ok
            &&& v->Ok_0 is Boolean || v->Ok_0 is Null
            &&& (v->Ok_0 == ValueModel::Boolean(true)) == (compare::int_value(a) is Some
                && compare::int_value(a) == compare::int_value(b))
        }),
{
}

/// A condition of equalities is true exactly where each of them holds.
proof fn lemma_condition_value(
    e: ExprModel,
    left: Seq<ColumnModel>,
    right: Seq<ColumnModel>,
    params: Seq<ValueModel>,
    l: Seq<ValueModel>,
    r: Seq<ValueModel>,
)
    requires
        join_keys::equality_operands(e) is Some,
        forall|i: int|
            0 <= i < join_keys::equality_operands(e)->Some_0.len() ==> term_fits(
                #[trigger] join_keys::equality_operands(e)->Some_0[i],
                left,
                right,
                params,
                l,
                r,
            ),
    ensures
        ({
            let v = evaluator::eval(e, left + right, params, l + r);
            &&& v is Ok
            &&& v->Ok_0 is Boolean || v->Ok_0 is Null
            &&& (v->Ok_0 == ValueModel::Boolean(true)) == (forall|i: int|
                0 <= i < join_keys::equality_operands(e)->Some_0.len() ==> term_holds(
                    #[trigger] join_keys::equality_operands(e)->Some_0[i],
                    left,
                    right,
                    l,
                    r,
                ))
        }),
    decreases e,
{
    let ps = join_keys::equality_operands(e)->Some_0;
    match e {
        ExprModel::BinaryExpr { left: a, op: BinaryOperator::And, right: b } => {
            let x = join_keys::equality_operands(*a)->Some_0;
            let y = join_keys::equality_operands(*b)->Some_0;
            assert forall|i: int| 0 <= i < x.len() implies term_fits(
                #[trigger] x[i],
                left,
                right,
                params,
                l,
                r,
            ) by {
                assert(ps[i] == x[i]);
            }
            assert forall|i: int| 0 <= i < y.len() implies term_fits(
                #[trigger] y[i],
                left,
                right,
                params,
                l,
                r,
            ) by {
                assert(ps[x.len() + i] == y[i]);
            }
            lemma_condition_value(*a, left, right, params, l, r);
            lemma_condition_value(*b, left, right, params, l, r);
            let v = evaluator::eval(e, left + right, params, l + r);
            if v->Ok_0 == ValueModel::Boolean(true) {
                assert forall|i: int| 0 <= i < ps.len() implies term_holds(
                    #[trigger] ps[i],
                    left,
                    right,
                    l,
                    r,
                ) by {
                    if i < x.len() {
                        assert(ps[i] == x[i]);
                    } else {
                        assert(ps[i] == y[i - x.len()]);
                    }
                }
            } else if forall|i: int|
                0 <= i < ps.len() ==> term_holds(#[trigger] ps[i], left, right, l, r) {
                assert forall|i: int| 0 <= i < x.len() implies term_holds(
                    #[trigger] x[i],
                    left,
                    right,
                    l,
                    r,
                ) by {
                    assert(ps[i] == x[i]);
                }
                assert forall|i: int| 0 <= i < y.len() implies term_holds(
                    #[trigger] y[i],
                    left,
                    right,
                    l,
                    r,
                ) by {
                    assert(ps[x.len() + i] == y[i]);
                }
            }
        },
        _ => {
            assert(ps[0] == (*e->BinaryExpr_left, *e->BinaryExpr_right));
            lemma_term_value(e, left, right, params, l, r);
        },
    }
}

proof fn lemma_number_key(row: Seq<ValueModel>, ps: Seq<usize>)
    requires
        forall|j: int| 0 <= j < ps.len() ==> #[trigger] ps[j] < row.len() && int_or_null(row[ps[j] as int]),
    ensures
        match hash_join::values_at(row, ps) {
            Ok(Some(vs)) => vs.len() == ps.len() && forall|j: int|
                0 <= j < ps.len() ==> #[trigger] vs[j] == row[ps[j] as int]
                    && compare::int_value(vs[j]) is Some,
            Ok(None) => exists|j: int| 0 <= j < ps.len() && row[#[trigger] ps[j] as int] is Null,
            Err(_) => false,
        },
    decreases ps.len(),
{
    if ps.len() > 0 {
        let before = ps.drop_last();
        assert forall|j: int| 0 <= j < before.len() implies #[trigger] before[j] < row.len()
            && int_or_null(row[before[j] as int]) by {
            assert(before[j] == ps[j]);
        }
        lemma_number_key(row, before);
        assert(ps[ps.len() - 1] == ps.last());
        match hash_join::values_at(row, ps) {
            Ok(Some(vs)) => {
                let prior = hash_join::values_at(row, before)->Ok_0->Some_0;
                assert forall|j: int| 0 <= j < ps.len() implies #[trigger] vs[j] == row[ps[j] as int]
                    && compare::int_value(vs[j]) is Some by {
                    if j < before.len() {
                        assert(vs[j] == prior[j]);
                        assert(before[j] == ps[j]);
                    }
                }
            },
            Ok(None) => {
                if hash_join::values_at(row, before) == Ok::<Option<Seq<ValueModel>>, ErrorModel>(
                    None,
                ) {
                    let j = choose|j: int|
                        0 <= j < before.len() && row[#[trigger] before[j] as int] is Null;
                    assert(ps[j] == before[j]);
                } else {
                    assert(row[ps[ps.len() - 1] as int] is Null);
                }
            },
            Err(_) => {},
        }
    }
}

/// The kinds of keys of whole numbers.
pub open spec fn number_kinds(n: nat) -> Seq<int> {
    Seq::new(n, |i: int| -1int)
}

/// The rule by which a key is taken at positions.
spec fn takes(rule: KeyRule, ps: Seq<usize>) -> bool {
    rule.positions == Some(ps)
}

/// The keys of two rows meet exactly where the numbers at their positions are the same.
proof fn lemma_number_keys_meet(
    l: Seq<ValueModel>,
    r: Seq<ValueModel>,
    lp: Seq<usize>,
    rp: Seq<usize>,
    left: KeyRule,
    right: KeyRule,
)
    requires
        lp.len() == rp.len(),
        takes(left, lp),
        takes(right, rp),
        forall|j: int| 0 <= j < lp.len() ==> #[trigger] lp[j] < l.len() && int_or_null(l[lp[j] as int]),
        forall|j: int| 0 <= j < rp.len() ==> #[trigger] rp[j] < r.len() && int_or_null(r[rp[j] as int]),
    ensures
        key_fits(hash_join::row_key(left, l), number_kinds(lp.len())),
        key_fits(hash_join::row_key(right, r), number_kinds(lp.len())),
        ({
            let a = hash_join::row_key(left, l);
            let b = hash_join::row_key(right, r);
            (a->Ok_0 is Some && b->Ok_0 is Some && join_table::keys_meet(
                b->Ok_0->Some_0,
                a->Ok_0->Some_0,
            )) == (forall|j: int|
                0 <= j < lp.len() ==> compare::int_value(l[#[trigger] lp[j] as int]) is Some
                    && compare::int_value(l[lp[j] as int]) == compare::int_value(r[rp[j] as int]))
        }),
{
    lemma_number_key(l, lp);
    lemma_number_key(r, rp);
    let a = hash_join::row_key(left, l);
    let b = hash_join::row_key(right, r);
    let same = forall|j: int|
        0 <= j < lp.len() ==> compare::int_value(l[#[trigger] lp[j] as int]) is Some
            && compare::int_value(l[lp[j] as int]) == compare::int_value(r[rp[j] as int]);
    match (hash_join::values_at(l, lp), hash_join::values_at(r, rp)) {
        (Ok(Some(x)), Ok(Some(y))) => {
            let ka = a->Ok_0->Some_0;
            let kb = b->Ok_0->Some_0;
            assert(ka.len() == lp.len());
            assert(kb.len() == lp.len());
            assert forall|j: int| 0 <= j < lp.len() implies compare::int_value(
                #[trigger] ka[j],
            ) == compare::int_value(l[lp[j] as int]) && compare::int_value(ka[j]) is Some by {
                assert(x[j] == l[lp[j] as int]);
            }
            assert forall|j: int| 0 <= j < lp.len() implies compare::int_value(
                #[trigger] kb[j],
            ) == compare::int_value(r[rp[j] as int]) && compare::int_value(kb[j]) is Some by {
                assert(y[j] == r[rp[j] as int]);
            }
            if join_table::keys_meet(kb, ka) {
                assert forall|j: int| 0 <= j < lp.len() implies compare::int_value(
                    l[#[trigger] lp[j] as int],
                ) is Some && compare::int_value(l[lp[j] as int]) == compare::int_value(
                    r[rp[j] as int],
                ) by {
                    assert(join_table::values_meet(kb[j], ka[j]));
                    join_table::law_numbers_meet_across_widths(kb[j], ka[j]);
                    assert(compare::int_value(ka[j]) == compare::int_value(kb[j]));
                }
            }
            if same {
                assert forall|j: int| 0 <= j < kb.len() implies join_table::values_meet(
                    #[trigger] kb[j],
                    ka[j],
                ) by {
                    assert(lp[j] == lp[j]);
                    assert(compare::int_value(ka[j]) == compare::int_value(kb[j]));
                    join_table::law_numbers_meet_across_widths(kb[j], ka[j]);
                }
            }
        },
        (Ok(None), _) => {
            let j = choose|j: int| 0 <= j < lp.len() && l[#[trigger] lp[j] as int] is Null;
            assert(compare::int_value(l[lp[j] as int]) is None);
        },
        (_, Ok(None)) => {
            let j = choose|j: int| 0 <= j < rp.len() && r[#[trigger] rp[j] as int] is Null;
            assert(compare::int_value(r[rp[j] as int]) is None);
            if same {
                assert(compare::int_value(l[lp[j] as int]) is Some);
            }
        },
        _ => {},
    }
}

pub proof fn lemma_loaded_are_all(s: operator::RowStream, used: nat, limit: usize)
    requires
        s.end is None,
        nested_loop::loaded(s, used, limit) is Ok,
    ensures
        nested_loop::loaded(s, used, limit)->Ok_0 == s.rows,
    decreases s.rows.len(),
{
    if s.rows.len() > 0 {
        let now = used + join_pair::tuple_size(s.rows[0]) + 1;
        lemma_loaded_are_all(s.rest(), now, limit);
        assert(seq![s.rows[0]] + s.rest().rows =~= s.rows);
    } else {
        assert(s.rows =~= Seq::<TupleModel>::empty());
    }
}

/// What a nested loop join of two inputs is told.
pub open spec fn loop_join_of(
    left: Seq<ColumnModel>,
    right: Seq<ColumnModel>,
    join_type: JoinType,
    on: ExprModel,
    params: Seq<ValueModel>,
) -> LoopJoin {
    LoopJoin {
        test: nested_loop::pair_tester(Some(on), left + right, params),
        join_type,
        left_width: left.len(),
        right_width: right.len(),
    }
}

proof fn lemma_equi_keys(on: ExprModel, left: Seq<ColumnModel>, right: Seq<ColumnModel>)
    requires
        equi_condition(on, left, right),
        left.len() + right.len() <= usize::MAX,
    ensures
        join_keys::direct_keys(on, left, right) is Some,
        ({
            let d = join_keys::direct_keys(on, left, right)->Some_0;
            let ps = join_keys::equality_operands(on)->Some_0;
            &&& d.0.len() == ps.len()
            &&& d.1.len() == ps.len()
            &&& forall|i: int|
                0 <= i < ps.len() ==> #[trigger] d.0[i] < left.len() && d.1[i] < right.len()
                    && join_keys::direct_pair(ps[i], left, right) == Some((d.0[i], d.1[i]))
                    && is_key_term(ps[i], left, right, d.0[i] as int, d.1[i] as int)
        }),
{
    let ps = join_keys::equality_operands(on)->Some_0;
    assert forall|i: int| 0 <= i < ps.len() implies join_keys::direct_pair(
        #[trigger] ps[i],
        left,
        right,
    ) is Some && ({
        let at = join_keys::direct_pair(ps[i], left, right)->Some_0;
        is_key_term(ps[i], left, right, at.0 as int, at.1 as int)
    }) by {
        let (x, y) = choose|x: int, y: int| is_key_term(ps[i], left, right, x, y);
        lemma_key_term(ps[i], left, right, x, y);
    }
}

/// Where the condition is made up of equalities of a column of the left input with one
/// of the right input, and these columns hold whole numbers or NULL, an inner or left
/// join by keys gives exactly the rows of the join that tests every pair, in the same
/// order, and fails on none. Both joins stay under their memory limit.
pub proof fn law_hash_join_gives_the_rows_of_the_nested_loop(
    left: JoinInput,
    right: JoinInput,
    on: ExprModel,
    params: Seq<ValueModel>,
    join_type: JoinType,
    limit: usize,
)
    requires
        join_type == JoinType::Inner || join_type == JoinType::Left,
        left.rows.end is None,
        right.rows.end is None,
        left.cols.len() + right.cols.len() <= usize::MAX,
        right.rows.rows.len() < usize::MAX,
        equi_condition(on, left.cols, right.cols),
        has_numbers(
            left.rows.rows,
            left.cols,
            join_keys::direct_keys(on, left.cols, right.cols)->Some_0.0,
        ),
        has_numbers(
            right.rows.rows,
            right.cols,
            join_keys::direct_keys(on, left.cols, right.cols)->Some_0.1,
        ),
        hash_join::table_of(
            left,
            right,
            Some(on),
            params,
            hash_join::chosen_keys(None, Some(on), left.cols, right.cols),
            HashJoinBuildSide::Right,
            limit,
            join_type,
        ) is Ok,
        nested_loop::loaded(right.rows, 0, limit) is Ok,
    ensures
        ({
            let keys = hash_join::chosen_keys(None, Some(on), left.cols, right.cols);
            let table = hash_join::table_of(
                left,
                right,
                Some(on),
                params,
                keys,
                HashJoinBuildSide::Right,
                limit,
                join_type,
            )->Ok_0;
            let held = nested_loop::loaded(right.rows, 0, limit)->Ok_0;
            let looped = nested_loop::loop_from_left(
                left.rows,
                held,
                nested_loop::none_matched(held.len()),
                loop_join_of(left.cols, right.cols, join_type, on, params),
            );
            &&& looped.end is None
            &&& hash_join::hash_joined(
                left,
                right,
                table.entries,
                hash_join::hash_join_of(
                    left.cols,
                    right.cols,
                    join_type,
                    Some(on),
                    None,
                    params,
                    keys,
                    HashJoinBuildSide::Right,
                    None,
                    table.keyless,
                ),
            ) == looped
        }),
{
    let keys = hash_join::chosen_keys(None, Some(on), left.cols, right.cols);
    let keep = join_pair::keeps_right(join_type);
    let rule = hash_join::side_rule(keys.direct, keys.pairs, false, right.cols, params, true);
    let table = hash_join::built(right.rows, hash_join::empty_table(), 0, limit, rule, keep)->Ok_0;
    let join = hash_join::hash_join_of(
        left.cols,
        right.cols,
        join_type,
        Some(on),
        None,
        params,
        keys,
        HashJoinBuildSide::Right,
        None,
        table.keyless,
    );
    let whole = loop_join_of(left.cols, right.cols, join_type, on, params);
    lemma_equi_keys(on, left.cols, right.cols);
    let d = join_keys::direct_keys(on, left.cols, right.cols)->Some_0;
    let ps = join_keys::equality_operands(on)->Some_0;
    let kinds = number_kinds(ps.len());
    let ls = left.rows.rows;
    let rs = right.rows.rows;
    assert(left.rows =~= operator::just_rows(ls));
    assert(right.rows =~= operator::just_rows(rs));
    lemma_loaded_are_all(right.rows, 0, limit);
    assert(takes(join.probe, d.0));
    assert(takes(rule, d.1));
    assert forall|i: int, j: int| 0 <= i < ls.len() && 0 <= j < rs.len() implies pair_agrees(
        #[trigger] ls[i],
        #[trigger] rs[j],
        whole,
        join,
        rule,
        own_key(join.probe, ls[i]),
    ) by {
        lemma_pair_agrees(ls[i], rs[j], left.cols, right.cols, on, params, whole, join, rule, d);
    }
    assert forall|i: int| 0 <= i < ls.len() implies key_fits(
        hash_join::row_key(join.probe, (#[trigger] ls[i]).values),
        kinds,
    ) by {
        assert forall|j: int| 0 <= j < d.0.len() implies #[trigger] d.0[j] < ls[i].values.len()
            && int_or_null(ls[i].values[d.0[j] as int]) by {}
        lemma_own_number_key(ls[i].values, d.0, join.probe);
    }
    assert forall|i: int| 0 <= i < rs.len() implies key_fits(
        hash_join::row_key(rule, (#[trigger] rs[i]).values),
        kinds,
    ) by {
        assert forall|j: int| 0 <= j < d.1.len() implies #[trigger] d.1[j] < rs[i].values.len()
            && int_or_null(rs[i].values[d.1[j] as int]) by {
            assert(d.0[j] < left.cols.len());
        }
        lemma_own_number_key(rs[i].values, d.1, rule);
    }
    assert forall|k: Seq<ValueModel>| of_kinds(k, kinds) implies #[trigger] found(
        table.entries,
        k,
    ) == matching(rs, rule, k) by {
        lemma_built_rows(rs, hash_join::empty_table(), 0, limit, rule, keep, k, kinds);
        assert(found(Seq::<Entry>::empty(), k) =~= Seq::<TupleModel>::empty());
        assert(Seq::<TupleModel>::empty() + matching(rs, rule, k) =~= matching(rs, rule, k));
    }
    lemma_same_output(ls, rs, table.entries, whole, join, rule, kinds);
    lemma_built_size(rs, hash_join::empty_table(), 0, limit, rule, keep);
    assert forall|i: int| 0 <= i < ls.len() implies hash_join::row_never_fails(
        #[trigger] ls[i],
        table.entries,
        join,
    ) by {
        assert(key_fits(hash_join::row_key(join.probe, ls[i].values), kinds));
    }
    hash_join::law_hash_join_rows(ls, table.entries, Seq::empty(), join);
    assert forall|i: int| 0 <= i < ls.len() implies nested_loop::row_never_fails(
        #[trigger] ls[i],
        rs,
        whole,
    ) by {
        assert forall|j: int| 0 <= j < rs.len() implies (whole.test)(
            ls[i],
            #[trigger] rs[j],
        ) is Ok by {
            assert(pair_agrees(ls[i], rs[j], whole, join, rule, own_key(join.probe, ls[i])));
        }
    }
    nested_loop::law_nested_loop_rows(ls, rs, whole);
    let given = nested_loop::contributions(ls, rs, whole);
    assert(given + Seq::<TupleModel>::empty() =~= given);
}

proof fn lemma_own_number_key(row: Seq<ValueModel>, ps: Seq<usize>, rule: KeyRule)
    requires
        takes(rule, ps),
        forall|j: int| 0 <= j < ps.len() ==> #[trigger] ps[j] < row.len() && int_or_null(row[ps[j] as int]),
    ensures
        key_fits(hash_join::row_key(rule, row), number_kinds(ps.len())),
{
    lemma_number_keys_meet(row, row, ps, ps, rule, rule);
}

/// A table has no more keys than its build side has rows.
pub proof fn lemma_built_size(
    rows: Seq<TupleModel>,
    table: TableModel,
    used: nat,
    limit: usize,
    rule: KeyRule,
    keep: bool,
)
    requires
        hash_join::built(operator::just_rows(rows), table, used, limit, rule, keep) is Ok,
        table.entries.len() + rows.len() <= usize::MAX,
    ensures
        hash_join::built(
            operator::just_rows(rows),
            table,
            used,
            limit,
            rule,
            keep,
        )->Ok_0.entries.len() <= table.entries.len() + rows.len(),
    decreases rows.len(),
{
    if rows.len() > 0 {
        let rest = rows.drop_first();
        let row = rows[0];
        assert(operator::just_rows(rows).rest() =~= operator::just_rows(rest));
        match hash_join::row_key(rule, row.values) {
            Ok(Some(own)) => {
                join_table::lemma_first_meeting_in_range(
                    join_table::entry_keys(table.entries),
                    own,
                    0,
                );
                lemma_built_size(
                    rest,
                    (TableModel {
                        entries: join_table::with_row(table.entries, own, row),
                        keyless: table.keyless,
                    }),
                    used + join_pair::tuple_size(row) + join_table::key_size(own) + 24,
                    limit,
                    rule,
                    keep,
                );
            },
            _ => {
                if keep {
                    lemma_built_size(
                        rest,
                        (TableModel {
                            entries: table.entries,
                            keyless: table.keyless.push(row),
                        }),
                        used + join_pair::tuple_size(row),
                        limit,
                        rule,
                        keep,
                    );
                } else {
                    lemma_built_size(rest, table, used, limit, rule, keep);
                }
            },
        }
    }
}

proof fn lemma_pair_agrees(
    l: TupleModel,
    r: TupleModel,
    left: Seq<ColumnModel>,
    right: Seq<ColumnModel>,
    on: ExprModel,
    params: Seq<ValueModel>,
    whole: LoopJoin,
    join: HashJoin,
    rule: KeyRule,
    d: (Seq<usize>, Seq<usize>),
)
    requires
        left.len() + right.len() <= usize::MAX,
        equi_condition(on, left, right),
        join_keys::direct_keys(on, left, right) == Some(d),
        l.values.len() == left.len(),
        r.values.len() == right.len(),
        forall|j: int| 0 <= j < d.0.len() ==> int_or_null(l.values[#[trigger] d.0[j] as int]),
        forall|j: int| 0 <= j < d.1.len() ==> int_or_null(r.values[#[trigger] d.1[j] as int]),
        whole.test == nested_loop::pair_tester(Some(on), left + right, params),
        join.test == nested_loop::pair_tester(None, left + right, params),
        takes(join.probe, d.0),
        takes(rule, d.1),
    ensures
        pair_agrees(l, r, whole, join, rule, own_key(join.probe, l)),
{
    lemma_equi_keys(on, left, right);
    let ps = join_keys::equality_operands(on)->Some_0;
    assert forall|i: int| 0 <= i < ps.len() implies term_fits(
        #[trigger] ps[i],
        left,
        right,
        params,
        l.values,
        r.values,
    ) by {
        assert(d.0[i] < left.len());
        assert(int_or_null(r.values[d.1[i] as int]));
        lemma_key_term(ps[i], left, right, d.0[i] as int, d.1[i] as int);
    }
    lemma_condition_value(on, left, right, params, l.values, r.values);
    assert forall|j: int| 0 <= j < d.0.len() implies #[trigger] d.0[j] < l.values.len()
        && int_or_null(l.values[d.0[j] as int]) by {}
    assert forall|j: int| 0 <= j < d.1.len() implies #[trigger] d.1[j] < r.values.len()
        && int_or_null(r.values[d.1[j] as int]) by {
        assert(d.0[j] < left.len());
    }
    lemma_number_keys_meet(l.values, r.values, d.0, d.1, join.probe, rule);
    let hold = forall|i: int|
        0 <= i < ps.len() ==> term_holds(#[trigger] ps[i], left, right, l.values, r.values);
    let same = forall|j: int|
        0 <= j < d.0.len() ==> compare::int_value(l.values[#[trigger] d.0[j] as int]) is Some
            && compare::int_value(l.values[d.0[j] as int]) == compare::int_value(
            r.values[d.1[j] as int],
        );
    if hold {
        assert forall|j: int| 0 <= j < d.0.len() implies compare::int_value(
            l.values[#[trigger] d.0[j] as int],
        ) is Some && compare::int_value(l.values[d.0[j] as int]) == compare::int_value(
            r.values[d.1[j] as int],
        ) by {
            assert(term_holds(ps[j], left, right, l.values, r.values));
        }
    }
    if same {
        assert forall|i: int| 0 <= i < ps.len() implies term_holds(
            #[trigger] ps[i],
            left,
            right,
            l.values,
            r.values,
        ) by {
            assert(d.0[i] < left.len());
        }
    }
    assert(hold == same);
    assert((join.test)(l, r) == Ok::<bool, ErrorModel>(true));
}

/// Which pairs of rows are joined, and what each pair gives.
pub struct Pairing {
    pub joined: spec_fn(TupleModel, TupleModel) -> bool,
    pub given: spec_fn(TupleModel, TupleModel) -> TupleModel,
}

/// What one left row gives with right rows.
pub open spec fn line(l: TupleModel, right: Seq<TupleModel>, p: Pairing) -> Seq<TupleModel>
    decreases right.len(),
{
    if right.len() == 0 {
        Seq::empty()
    } else if (p.joined)(l, right[0]) {
        seq![(p.given)(l, right[0])] + line(l, right.drop_first(), p)
    } else {
        line(l, right.drop_first(), p)
    }
}

/// What one right row gives with left rows.
pub open spec fn column(left: Seq<TupleModel>, r: TupleModel, p: Pairing) -> Seq<TupleModel>
    decreases left.len(),
{
    if left.len() == 0 {
        Seq::empty()
    } else if (p.joined)(left[0], r) {
        seq![(p.given)(left[0], r)] + column(left.drop_first(), r, p)
    } else {
        column(left.drop_first(), r, p)
    }
}

/// What the left rows give, one after the other.
pub open spec fn by_lines(left: Seq<TupleModel>, right: Seq<TupleModel>, p: Pairing) -> Seq<TupleModel>
    decreases left.len(),
{
    if left.len() == 0 {
        Seq::empty()
    } else {
        line(left[0], right, p) + by_lines(left.drop_first(), right, p)
    }
}

/// What the right rows give, one after the other.
pub open spec fn by_columns(left: Seq<TupleModel>, right: Seq<TupleModel>, p: Pairing) -> Seq<TupleModel>
    decreases right.len(),
{
    if right.len() == 0 {
        Seq::empty()
    } else {
        column(left, right[0], p) + by_columns(left, right.drop_first(), p)
    }
}

proof fn lemma_first_line(left: Seq<TupleModel>, right: Seq<TupleModel>, p: Pairing)
    requires
        left.len() > 0,
    ensures
        by_columns(left, right, p).to_multiset() =~= line(left[0], right, p).to_multiset().add(
            by_columns(left.drop_first(), right, p).to_multiset(),
        ),
    decreases right.len(),
{
    broadcast use vstd::seq_lib::group_to_multiset_ensures;

    if right.len() > 0 {
        let rest = right.drop_first();
        lemma_first_line(left, rest, p);
        let own = column(left.drop_first(), right[0], p);
        vstd::seq_lib::lemma_multiset_commutative(
            column(left, right[0], p),
            by_columns(left, rest, p),
        );
        vstd::seq_lib::lemma_multiset_commutative(own, by_columns(left.drop_first(), rest, p));
        if (p.joined)(left[0], right[0]) {
            let head = seq![(p.given)(left[0], right[0])];
            vstd::seq_lib::lemma_multiset_commutative(head, own);
            vstd::seq_lib::lemma_multiset_commutative(head, line(left[0], rest, p));
        }
    } else {
        assert(by_columns(left, right, p) =~= Seq::<TupleModel>::empty());
    }
}

pub proof fn lemma_lines_are_columns(left: Seq<TupleModel>, right: Seq<TupleModel>, p: Pairing)
    ensures
        by_lines(left, right, p).to_multiset() =~= by_columns(left, right, p).to_multiset(),
    decreases left.len(),
{
    broadcast use vstd::seq_lib::group_to_multiset_ensures;

    if left.len() > 0 {
        lemma_lines_are_columns(left.drop_first(), right, p);
        lemma_first_line(left, right, p);
        vstd::seq_lib::lemma_multiset_commutative(
            line(left[0], right, p),
            by_lines(left.drop_first(), right, p),
        );
    } else {
        lemma_no_columns(left, right, p);
        assert(by_lines(left, right, p) =~= by_columns(left, right, p));
    }
}

proof fn lemma_no_columns(left: Seq<TupleModel>, right: Seq<TupleModel>, p: Pairing)
    requires
        left.len() == 0,
    ensures
        by_columns(left, right, p) == Seq::<TupleModel>::empty(),
    decreases right.len(),
{
    if right.len() > 0 {
        lemma_no_columns(left, right.drop_first(), p);
        assert(by_columns(left, right, p) =~= Seq::<TupleModel>::empty());
    }
}

/// The pairs of a join by keys.
pub open spec fn pairing(join: HashJoin, left: KeyRule, right: KeyRule) -> Pairing {
    Pairing {
        joined: |l: TupleModel, r: TupleModel|
            own_key(left, l) is Some && own_key(right, r) is Some && join_table::keys_meet(
                own_key(right, r)->Some_0,
                own_key(left, l)->Some_0,
            ) && (join.test)(l, r) == Ok::<bool, ErrorModel>(true),
        given: |l: TupleModel, r: TupleModel| hash_join::paired(l, r, join),
    }
}

pub proof fn lemma_line(
    l: TupleModel,
    right: Seq<TupleModel>,
    join: HashJoin,
    lr: KeyRule,
    rr: KeyRule,
    kinds: Seq<int>,
)
    requires
        join.build_side == HashJoinBuildSide::Right,
        keyed(right, rr, kinds),
    ensures
        partners_by_key(l, right, join, rr, own_key(lr, l)) == line(l, right, pairing(join, lr, rr)),
    decreases right.len(),
{
    if right.len() > 0 {
        let rest = right.drop_first();
        assert(key_fits(hash_join::row_key(rr, right[0].values), kinds));
        lemma_keyed_rest(right, rr, kinds);
        lemma_line(l, rest, join, lr, rr, kinds);
        if let Some(k) = own_key(lr, l) {
            let tail = matching(rest, rr, k);
            if row_meets(right[0], rr, k) {
                assert((seq![right[0]] + tail)[0] == right[0]);
                lemma_partners_shift(l, right[0], tail, 0, join);
            }
        } else {
            assert(line(l, right, pairing(join, lr, rr)) =~= Seq::<TupleModel>::empty());
        }
    }
}

pub proof fn lemma_keyed_rest(rows: Seq<TupleModel>, rule: KeyRule, kinds: Seq<int>)
    requires
        rows.len() > 0,
        keyed(rows, rule, kinds),
    ensures
        keyed(rows.drop_first(), rule, kinds),
{
    let rest = rows.drop_first();
    assert forall|i: int| 0 <= i < rest.len() implies key_fits(
        hash_join::row_key(rule, (#[trigger] rest[i]).values),
        kinds,
    ) by {
        assert(rest[i] == rows[i + 1]);
    }
}

proof fn lemma_column(
    left: Seq<TupleModel>,
    r: TupleModel,
    join: HashJoin,
    lr: KeyRule,
    rr: KeyRule,
    kinds: Seq<int>,
)
    requires
        join.build_side == HashJoinBuildSide::Left,
        keyed(left, lr, kinds),
    ensures
        partners_by_key(r, left, join, lr, own_key(rr, r)) == column(left, r, pairing(join, lr, rr)),
    decreases left.len(),
{
    if left.len() > 0 {
        let rest = left.drop_first();
        assert(key_fits(hash_join::row_key(lr, left[0].values), kinds));
        lemma_keyed_rest(left, lr, kinds);
        lemma_column(rest, r, join, lr, rr, kinds);
        if let Some(k) = own_key(rr, r) {
            let tail = matching(rest, lr, k);
            if let Some(own) = own_key(lr, left[0]) {
                join_table::law_meeting_is_symmetric(own, k);
            }
            if row_meets(left[0], lr, k) {
                assert((seq![left[0]] + tail)[0] == left[0]);
                lemma_partners_shift(r, left[0], tail, 0, join);
            }
        } else {
            assert(column(left, r, pairing(join, lr, rr)) =~= Seq::<TupleModel>::empty());
        }
    }
}

/// Whether what a table has under a key are the rows whose key meets it.
pub open spec fn table_holds(
    table: Seq<Entry>,
    rows: Seq<TupleModel>,
    rule: KeyRule,
    kinds: Seq<int>,
) -> bool {
    forall|k: Seq<ValueModel>|
        of_kinds(k, kinds) ==> #[trigger] found(table, k) == matching(rows, rule, k)
}

pub proof fn lemma_rows_by_lines(
    left: Seq<TupleModel>,
    right: Seq<TupleModel>,
    table: Seq<Entry>,
    join: HashJoin,
    rr: KeyRule,
    kinds: Seq<int>,
)
    requires
        join.build_side == HashJoinBuildSide::Right,
        join.join_type == JoinType::Inner,
        keyed(left, join.probe, kinds),
        keyed(right, rr, kinds),
        table_holds(table, right, rr, kinds),
    ensures
        hash_join::all_probe_rows(left, table, join) == by_lines(
            left,
            right,
            pairing(join, join.probe, rr),
        ),
    decreases left.len(),
{
    if left.len() > 0 {
        assert(key_fits(hash_join::row_key(join.probe, left[0].values), kinds));
        lemma_keyed_rest(left, join.probe, kinds);
        lemma_rows_by_lines(left.drop_first(), right, table, join, rr, kinds);
        lemma_line(left[0], right, join, join.probe, rr, kinds);
        if let Some(k) = own_key(join.probe, left[0]) {
            assert(found(table, k) == matching(right, rr, k));
        }
    }
}

pub proof fn lemma_rows_by_columns(
    left: Seq<TupleModel>,
    right: Seq<TupleModel>,
    table: Seq<Entry>,
    join: HashJoin,
    lr: KeyRule,
    kinds: Seq<int>,
)
    requires
        join.build_side == HashJoinBuildSide::Left,
        join.join_type == JoinType::Inner,
        keyed(right, join.probe, kinds),
        keyed(left, lr, kinds),
        table_holds(table, left, lr, kinds),
    ensures
        hash_join::all_probe_rows(right, table, join) == by_columns(
            left,
            right,
            pairing(join, lr, join.probe),
        ),
    decreases right.len(),
{
    if right.len() > 0 {
        assert(key_fits(hash_join::row_key(join.probe, right[0].values), kinds));
        lemma_keyed_rest(right, join.probe, kinds);
        lemma_rows_by_columns(left, right.drop_first(), table, join, lr, kinds);
        lemma_column(left, right[0], join, lr, join.probe, kinds);
        if let Some(k) = own_key(join.probe, right[0]) {
            assert(found(table, k) == matching(left, lr, k));
        }
    }
}

/// The join of two inputs by keys with one of them held in memory.
pub open spec fn joined_on_side(
    left: JoinInput,
    right: JoinInput,
    on: Option<ExprModel>,
    residual: Option<ExprModel>,
    params: Seq<ValueModel>,
    keys: KeyChoice,
    side: HashJoinBuildSide,
    limit: usize,
) -> Result<operator::RowStream, ErrorModel> {
    match hash_join::table_of(left, right, on, params, keys, side, limit, JoinType::Inner) {
        Err(e) => Err(e),
        Ok(table) => Ok(
            hash_join::hash_joined(
                left,
                right,
                table.entries,
                hash_join::hash_join_of(
                    left.cols,
                    right.cols,
                    JoinType::Inner,
                    on,
                    residual,
                    params,
                    keys,
                    side,
                    None,
                    table.keyless,
                ),
            ),
        ),
    }
}

pub proof fn lemma_built_holds(
    rows: Seq<TupleModel>,
    limit: usize,
    rule: KeyRule,
    kinds: Seq<int>,
)
    requires
        keyed(rows, rule, kinds),
        rows.len() < usize::MAX,
        hash_join::built(
            operator::just_rows(rows),
            hash_join::empty_table(),
            0,
            limit,
            rule,
            false,
        ) is Ok,
    ensures
        ({
            let t = hash_join::built(
                operator::just_rows(rows),
                hash_join::empty_table(),
                0,
                limit,
                rule,
                false,
            )->Ok_0.entries;
            &&& table_holds(t, rows, rule, kinds)
            &&& buckets_from(t, rows)
            &&& t.len() <= rows.len()
        }),
{
    let t = hash_join::built(
        operator::just_rows(rows),
        hash_join::empty_table(),
        0,
        limit,
        rule,
        false,
    )->Ok_0.entries;
    assert forall|k: Seq<ValueModel>| of_kinds(k, kinds) implies #[trigger] found(t, k)
        == matching(rows, rule, k) by {
        lemma_built_rows(rows, hash_join::empty_table(), 0, limit, rule, false, k, kinds);
        assert(found(Seq::<Entry>::empty(), k) =~= Seq::<TupleModel>::empty());
        assert(Seq::<TupleModel>::empty() + matching(rows, rule, k) =~= matching(rows, rule, k));
    }
    lemma_buckets_hold_rows(rows, hash_join::empty_table(), 0, limit, rule, false, rows);
    lemma_built_size(rows, hash_join::empty_table(), 0, limit, rule, false);
}

/// An inner join by keys gives the same rows whichever side is held in memory, up to
/// their order, where the values of each key column of both sides are of one kind, and
/// nothing fails. The columns of the left side come first either way.
pub proof fn law_the_build_side_keeps_the_rows(
    left: JoinInput,
    right: JoinInput,
    on: Option<ExprModel>,
    residual: Option<ExprModel>,
    params: Seq<ValueModel>,
    keys: KeyChoice,
    kinds: Seq<int>,
    limit: usize,
)
    requires
        left.rows.end is None,
        right.rows.end is None,
        left.rows.rows.len() < usize::MAX,
        right.rows.rows.len() < usize::MAX,
        keyed(
            left.rows.rows,
            hash_join::side_rule(keys.direct, keys.pairs, on is None, left.cols, params, false),
            kinds,
        ),
        keyed(
            right.rows.rows,
            hash_join::side_rule(keys.direct, keys.pairs, on is None, right.cols, params, true),
            kinds,
        ),
        forall|i: int, j: int|
            0 <= i < left.rows.rows.len() && 0 <= j < right.rows.rows.len() ==> (
            hash_join::pair_check(on, residual, keys.covered, left.cols + right.cols, params))(
                #[trigger] left.rows.rows[i],
                #[trigger] right.rows.rows[j],
            ) is Ok,
        joined_on_side(left, right, on, residual, params, keys, HashJoinBuildSide::Left, limit) is Ok,
        joined_on_side(left, right, on, residual, params, keys, HashJoinBuildSide::Right, limit) is Ok,
    ensures
        ({
            let l = joined_on_side(
                left,
                right,
                on,
                residual,
                params,
                keys,
                HashJoinBuildSide::Left,
                limit,
            )->Ok_0;
            let r = joined_on_side(
                left,
                right,
                on,
                residual,
                params,
                keys,
                HashJoinBuildSide::Right,
                limit,
            )->Ok_0;
            &&& l.end is None
            &&& r.end is None
            &&& l.rows.to_multiset() == r.rows.to_multiset()
        }),
{
    let ls = left.rows.rows;
    let rs = right.rows.rows;
    let lr = hash_join::side_rule(keys.direct, keys.pairs, on is None, left.cols, params, false);
    let rr = hash_join::side_rule(keys.direct, keys.pairs, on is None, right.cols, params, true);
    assert(left.rows =~= operator::just_rows(ls));
    assert(right.rows =~= operator::just_rows(rs));
    lemma_built_holds(ls, limit, lr, kinds);
    lemma_built_holds(rs, limit, rr, kinds);
    let lt = hash_join::built(left.rows, hash_join::empty_table(), 0, limit, lr, false)->Ok_0;
    let rt = hash_join::built(right.rows, hash_join::empty_table(), 0, limit, rr, false)->Ok_0;
    let on_left = hash_join::hash_join_of(
        left.cols,
        right.cols,
        JoinType::Inner,
        on,
        residual,
        params,
        keys,
        HashJoinBuildSide::Left,
        None,
        lt.keyless,
    );
    let on_right = hash_join::hash_join_of(
        left.cols,
        right.cols,
        JoinType::Inner,
        on,
        residual,
        params,
        keys,
        HashJoinBuildSide::Right,
        None,
        rt.keyless,
    );
    assert forall|i: int| 0 <= i < rs.len() implies hash_join::row_never_fails(
        #[trigger] rs[i],
        lt.entries,
        on_left,
    ) by {
        assert(key_fits(hash_join::row_key(rr, rs[i].values), kinds));
        assert forall|b: int| 0 <= b < lt.entries.len() implies hash_join::bucket_never_fails(
            rs[i],
            (#[trigger] lt.entries[b]).1,
            on_left,
        ) by {
            let bucket = lt.entries[b].1;
            assert forall|x: int| 0 <= x < bucket.len() implies hash_join::probe_test(
                rs[i],
                #[trigger] bucket[x],
                on_left,
            ) is Ok by {
                assert(ls.contains(lt.entries[b].1[x]));
                let y = choose|y: int| 0 <= y < ls.len() && ls[y] == bucket[x];
                assert((on_left.test)(ls[y], rs[i]) is Ok);
            }
        }
    }
    assert forall|i: int| 0 <= i < ls.len() implies hash_join::row_never_fails(
        #[trigger] ls[i],
        rt.entries,
        on_right,
    ) by {
        assert(key_fits(hash_join::row_key(lr, ls[i].values), kinds));
        assert forall|b: int| 0 <= b < rt.entries.len() implies hash_join::bucket_never_fails(
            ls[i],
            (#[trigger] rt.entries[b]).1,
            on_right,
        ) by {
            let bucket = rt.entries[b].1;
            assert forall|x: int| 0 <= x < bucket.len() implies hash_join::probe_test(
                ls[i],
                #[trigger] bucket[x],
                on_right,
            ) is Ok by {
                assert(rs.contains(rt.entries[b].1[x]));
                let y = choose|y: int| 0 <= y < rs.len() && rs[y] == bucket[x];
                assert((on_right.test)(ls[i], rs[y]) is Ok);
            }
        }
    }
    hash_join::law_hash_join_rows(rs, lt.entries, Seq::empty(), on_left);
    hash_join::law_hash_join_rows(ls, rt.entries, Seq::empty(), on_right);
    lemma_rows_by_lines(ls, rs, rt.entries, on_right, rr, kinds);
    lemma_rows_by_columns(ls, rs, lt.entries, on_left, lr, kinds);
    let p = pairing(on_right, lr, rr);
    let q = pairing(on_left, lr, rr);
    assert(p.joined =~= q.joined);
    assert(p.given =~= q.given);
    assert(p == q);
    lemma_lines_are_columns(ls, rs, p);
}

/// The operators of a join by keys and of a join that tests every pair, made of the same
/// inputs on the same condition, give the same rows in the same order and end alike,
/// and both have the same columns. The condition is made up of equalities of a column
/// of the left input with one of the right input, and these columns hold whole numbers
/// or NULL.
pub proof fn law_join_operators_agree<
    P: PhysicalOperator + ?Sized,
    L: PhysicalOperator + ?Sized,
>(
    hashed: HashJoinOperator<P>,
    looped: NestedLoopJoinOperator<L>,
    left: JoinInput,
    right: JoinInput,
    on: ExprModel,
    params: Seq<ValueModel>,
    join_type: JoinType,
    limit: usize,
    limits: Set<u64>,
    building: Set<u64>,
)
    requires
        join_type == JoinType::Inner || join_type == JoinType::Left,
        left.rows.end is None,
        right.rows.end is None,
        left.cols.len() + right.cols.len() <= usize::MAX,
        right.rows.rows.len() < usize::MAX,
        equi_condition(on, left.cols, right.cols),
        has_numbers(
            left.rows.rows,
            left.cols,
            join_keys::direct_keys(on, left.cols, right.cols)->Some_0.0,
        ),
        has_numbers(
            right.rows.rows,
            right.cols,
            join_keys::direct_keys(on, left.cols, right.cols)->Some_0.1,
        ),
        hash_join::hash_result(
            Ok::<HashJoinOperator<P>, Error>(hashed),
            left,
            right,
            join_type,
            Some(on),
            None,
            params,
            hash_join::chosen_keys(None, Some(on), left.cols, right.cols),
            HashJoinBuildSide::Right,
            None,
            left.cols + right.cols,
            limit,
            limits,
            building,
        ),
        nested_loop::joins_as(
            looped,
            left.rows,
            left.cols,
            right.rows,
            right.cols,
            join_type,
            Some(on),
            params,
            limit,
        ),
    ensures
        hashed.stream() == looped.stream(),
        hashed.columns() == looped.columns(),
        hashed.stream().end is None,
{
    law_hash_join_gives_the_rows_of_the_nested_loop(left, right, on, params, join_type, limit);
}

/// The operators of an inner join that hold the right or the left input in memory give
/// the same rows up to their order, with the columns of the left input first, where the
/// values of each key column of both sides are of one kind, and testing a pair never
/// fails.
pub proof fn law_build_sides_agree<P: PhysicalOperator + ?Sized>(
    on_right: HashJoinOperator<P>,
    on_left: HashJoinOperator<P>,
    left: JoinInput,
    right: JoinInput,
    on: Option<ExprModel>,
    params: Seq<ValueModel>,
    kinds: Seq<int>,
    limit: usize,
    limits: (Set<u64>, Set<u64>),
    building: (Set<u64>, Set<u64>),
)
    requires
        left.rows.end is None,
        right.rows.end is None,
        left.rows.rows.len() < usize::MAX,
        right.rows.rows.len() < usize::MAX,
        ({
            let keys = hash_join::chosen_keys(None, on, left.cols, right.cols);
            &&& keyed(
                left.rows.rows,
                hash_join::side_rule(keys.direct, keys.pairs, on is None, left.cols, params, false),
                kinds,
            )
            &&& keyed(
                right.rows.rows,
                hash_join::side_rule(keys.direct, keys.pairs, on is None, right.cols, params, true),
                kinds,
            )
            &&& forall|i: int, j: int|
                0 <= i < left.rows.rows.len() && 0 <= j < right.rows.rows.len() ==> (
                hash_join::pair_check(on, None, keys.covered, left.cols + right.cols, params))(
                    #[trigger] left.rows.rows[i],
                    #[trigger] right.rows.rows[j],
                ) is Ok
            &&& hash_join::hash_result(
                Ok::<HashJoinOperator<P>, Error>(on_right),
                left,
                right,
                JoinType::Inner,
                on,
                None,
                params,
                keys,
                HashJoinBuildSide::Right,
                None,
                left.cols + right.cols,
                limit,
                limits.0,
                building.0,
            )
            &&& hash_join::hash_result(
                Ok::<HashJoinOperator<P>, Error>(on_left),
                left,
                right,
                JoinType::Inner,
                on,
                None,
                params,
                keys,
                HashJoinBuildSide::Left,
                None,
                left.cols + right.cols,
                limit,
                limits.1,
                building.1,
            )
        }),
    ensures
        on_left.stream().rows.to_multiset() == on_right.stream().rows.to_multiset(),
        on_left.stream().end is None,
        on_right.stream().end is None,
        on_left.columns() == on_right.columns(),
        on_left.columns() == left.cols + right.cols,
{
    let keys = hash_join::chosen_keys(None, on, left.cols, right.cols);
    law_the_build_side_keeps_the_rows(left, right, on, None, params, keys, kinds, limit);
}

} // verus!
