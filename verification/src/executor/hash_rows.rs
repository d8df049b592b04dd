//! The rows of a join by keys, those of outer joins too: the partners of each left row,
//! and behind them the right rows that found none.

use crate::executor::hash_join;
use crate::executor::hash_join::{HashJoin, HashJoinBuildSide, KeyRule, TableModel};
use crate::executor::join_agreement;
use crate::executor::join_pair;
use crate::executor::join_table;
use crate::executor::join_table::Entry;
use crate::executor::nested_loop;
use crate::executor::nested_loop::LoopJoin;
use crate::executor::operator;
use crate::schema::{ErrorModel, TupleModel};
use crate::value::ValueModel;
use vstd::multiset::Multiset;
use vstd::prelude::*;

verus! {

/// The partners of a probe row among the rows of a table.
pub open spec fn partners_of(p: TupleModel, table: Seq<Entry>, join: HashJoin) -> Seq<TupleModel> {
    match join_agreement::own_key(join.probe, p) {
        Some(k) => hash_join::partners(p, join_agreement::found(table, k), 0, join),
        None => Seq::empty(),
    }
}

/// The keys that met a row, after the given probe rows.
pub open spec fn met_by(
    ps: Seq<TupleModel>,
    table: Seq<Entry>,
    met: Seq<Seq<ValueModel>>,
    join: HashJoin,
) -> Seq<Seq<ValueModel>>
    decreases ps.len(),
{
    if ps.len() == 0 {
        met
    } else {
        met_by(ps.drop_first(), table, met_then(ps[0], table, met, join), join)
    }
}

/// The keys that met a row, after one more probe row.
pub open spec fn met_then(
    p: TupleModel,
    table: Seq<Entry>,
    met: Seq<Seq<ValueModel>>,
    join: HashJoin,
) -> Seq<Seq<ValueModel>> {
    if partners_of(p, table, join).len() > 0 {
        hash_join::met_after(false, met, join_agreement::own_key(join.probe, p)->Some_0, join)
    } else {
        met
    }
}

/// The rows behind the last probe row: where the join keeps them, those that no key met.
pub open spec fn unmet_tail(table: Seq<Entry>, met: Seq<Seq<ValueModel>>, join: HashJoin) -> Seq<
    TupleModel,
> {
    if join_pair::keeps_right(join.join_type) {
        hash_join::unmet_rows(table, met, 0, 0, join.left_width) + hash_join::all_alone(
            join.keyless,
            join.left_width,
        )
    } else {
        Seq::empty()
    }
}

/// Whether a probe row has a key, or none, and the test fails on none of the rows that
/// its key finds.
pub open spec fn probes_well(p: TupleModel, table: Seq<Entry>, join: HashJoin) -> bool {
    &&& hash_join::row_key(join.probe, p.values) is Ok
    &&& join_agreement::own_key(join.probe, p) matches Some(k) ==> hash_join::bucket_never_fails(
        p,
        join_agreement::found(table, k),
        join,
    )
}

proof fn lemma_bucket_gives(
    p: TupleModel,
    k: Seq<ValueModel>,
    bucket: Seq<TupleModel>,
    i: int,
    had: bool,
    ps: Seq<TupleModel>,
    table: Seq<Entry>,
    met: Seq<Seq<ValueModel>>,
    join: HashJoin,
)
    requires
        hash_join::bucket_never_fails(p, bucket, join),
        0 <= i <= bucket.len(),
    ensures
        ({
            let own = hash_join::partners(p, bucket, i, join);
            let after = if own.len() > 0 {
                hash_join::met_after(had, met, k, join)
            } else {
                met
            };
            let whole = hash_join::hash_from_bucket(
                p,
                k,
                bucket,
                i,
                had,
                operator::just_rows(ps),
                table,
                met,
                join,
            );
            let rest = hash_join::hash_from_probe(operator::just_rows(ps), table, after, join);
            &&& whole.end == rest.end
            &&& whole.rows == (if !had && own.len() == 0 && join_pair::keeps_left(join.join_type) {
                seq![join_pair::left_alone(p, join.right_width)]
            } else {
                own
            }) + rest.rows
        }),
    decreases bucket.len() - i,
{
    if i == bucket.len() {
        let rest = hash_join::hash_from_probe(operator::just_rows(ps), table, met, join);
        assert(Seq::<TupleModel>::empty() + rest.rows =~= rest.rows);
    } else {
        let t = hash_join::probe_test(p, bucket[i], join);
        assert(t is Ok);
        if t == Ok::<bool, ErrorModel>(true) {
            let now = hash_join::met_after(had, met, k, join);
            lemma_bucket_gives(p, k, bucket, i + 1, true, ps, table, now, join);
            let own = hash_join::partners(p, bucket, i + 1, join);
            let rest = hash_join::hash_from_probe(operator::just_rows(ps), table, now, join);
            assert(hash_join::met_after(true, now, k, join) == now);
            let head = seq![hash_join::paired_probe(p, bucket[i], join)];
            assert(head + (own + rest.rows) =~= (head + own) + rest.rows);
        } else {
            lemma_bucket_gives(p, k, bucket, i + 1, had, ps, table, met, join);
        }
    }
}

/// A join by keys gives, for each probe row in order, its partners, or the row alone
/// where the join keeps it; behind them, where the join keeps them, the rows that no key
/// met.
pub proof fn lemma_hash_rows(
    ps: Seq<TupleModel>,
    table: Seq<Entry>,
    met: Seq<Seq<ValueModel>>,
    join: HashJoin,
)
    requires
        forall|i: int| 0 <= i < ps.len() ==> probes_well(#[trigger] ps[i], table, join),
        table.len() <= usize::MAX,
    ensures
        hash_join::hash_from_probe(operator::just_rows(ps), table, met, join)
            == operator::just_rows(
            hash_join::all_probe_rows(ps, table, join) + unmet_tail(
                table,
                met_by(ps, table, met, join),
                join,
            ),
        ),
    decreases ps.len(),
{
    let whole = hash_join::hash_from_probe(operator::just_rows(ps), table, met, join);
    let tail = unmet_tail(table, met_by(ps, table, met, join), join);
    if ps.len() == 0 {
        assert(Seq::<TupleModel>::empty() + tail =~= tail);
        assert(whole =~= operator::just_rows(tail));
    } else {
        let p = ps[0];
        let rest = ps.drop_first();
        assert(probes_well(ps[0], table, join));
        assert forall|i: int| 0 <= i < rest.len() implies probes_well(
            #[trigger] rest[i],
            table,
            join,
        ) by {
            assert(rest[i] == ps[i + 1]);
        }
        let after = met_then(p, table, met, join);
        lemma_hash_rows(rest, table, after, join);
        assert(operator::just_rows(ps).rest() =~= operator::just_rows(rest));
        let others = hash_join::all_probe_rows(rest, table, join);
        let own = hash_join::probe_rows(p, table, join);
        if let Some(k) = join_agreement::own_key(join.probe, p) {
            join_table::lemma_first_meeting_in_range(join_table::entry_keys(table), k, 0);
            if let Some(b) = join_table::first_meeting(join_table::entry_keys(table), k, 0) {
                let bucket = table[b as int].1;
                lemma_bucket_gives(p, k, bucket, 0, false, rest, table, met, join);
            }
        }
        assert(own + (others + tail) =~= (own + others) + tail);
        assert(whole =~= operator::just_rows(own + (others + tail)));
    }
}

proof fn lemma_was_met(met: Seq<Seq<ValueModel>>, x: Seq<ValueModel>, from: int)
    requires
        0 <= from,
    ensures
        join_table::first_meeting(met, x, from) is Some == exists|i: int|
            from <= i < met.len() && join_table::keys_meet(#[trigger] met[i], x),
    decreases met.len() - from,
{
    if from < met.len() {
        lemma_was_met(met, x, from + 1);
        if join_table::keys_meet(met[from], x) {
            assert(join_table::first_meeting(met, x, from) is Some);
        } else if exists|i: int| from <= i < met.len() && join_table::keys_meet(
            #[trigger] met[i],
            x,
        ) {
            let i = choose|i: int|
                from <= i < met.len() && join_table::keys_meet(#[trigger] met[i], x);
            assert(from + 1 <= i);
        }
    }
}

/// Whether all keys are of given kinds.
pub open spec fn all_of_kinds(keys: Seq<Seq<ValueModel>>, kinds: Seq<int>) -> bool {
    forall|i: int| 0 <= i < keys.len() ==> join_agreement::of_kinds(#[trigger] keys[i], kinds)
}

proof fn lemma_noted(
    met: Seq<Seq<ValueModel>>,
    k: Seq<ValueModel>,
    x: Seq<ValueModel>,
    kinds: Seq<int>,
)
    requires
        all_of_kinds(met, kinds),
        join_agreement::of_kinds(k, kinds),
        join_agreement::of_kinds(x, kinds),
    ensures
        all_of_kinds(hash_join::note_met(met, k), kinds),
        hash_join::was_met(hash_join::note_met(met, k), x) == (hash_join::was_met(met, x)
            || join_table::keys_meet(k, x)),
{
    let now = hash_join::note_met(met, k);
    lemma_was_met(met, x, 0);
    lemma_was_met(now, x, 0);
    if hash_join::was_met(met, k) {
        if join_table::keys_meet(k, x) {
            join_agreement::lemma_same_first_meeting(met, k, x, 0, kinds);
        }
    } else {
        if hash_join::was_met(met, x) {
            let i = choose|i: int| 0 <= i < met.len() && join_table::keys_meet(#[trigger] met[i], x);
            assert(now[i] == met[i]);
        }
        if join_table::keys_meet(k, x) {
            assert(now[met.len() as int] == k);
        }
        if hash_join::was_met(now, x) {
            let i = choose|i: int| 0 <= i < now.len() && join_table::keys_meet(#[trigger] now[i], x);
            if i < met.len() {
                assert(now[i] == met[i]);
            } else {
                assert(now[i] == k);
            }
        }
    }
}

/// Whether one of some probe rows has partners, and a key that meets a given one.
pub open spec fn meets_one(
    ps: Seq<TupleModel>,
    table: Seq<Entry>,
    join: HashJoin,
    x: Seq<ValueModel>,
) -> bool {
    exists|i: int| 0 <= i < ps.len() && row_meets_key(#[trigger] ps[i], table, join, x)
}

pub open spec fn row_meets_key(
    p: TupleModel,
    table: Seq<Entry>,
    join: HashJoin,
    x: Seq<ValueModel>,
) -> bool {
    partners_of(p, table, join).len() > 0 && join_table::keys_meet(
        join_agreement::own_key(join.probe, p)->Some_0,
        x,
    )
}

proof fn lemma_met_by(
    ps: Seq<TupleModel>,
    table: Seq<Entry>,
    met: Seq<Seq<ValueModel>>,
    join: HashJoin,
    x: Seq<ValueModel>,
    kinds: Seq<int>,
)
    requires
        join_agreement::keyed(ps, join.probe, kinds),
        all_of_kinds(met, kinds),
        join_agreement::of_kinds(x, kinds),
        join_pair::keeps_right(join.join_type),
    ensures
        all_of_kinds(met_by(ps, table, met, join), kinds),
        hash_join::was_met(met_by(ps, table, met, join), x) == (hash_join::was_met(met, x)
            || meets_one(ps, table, join, x)),
    decreases ps.len(),
{
    if ps.len() > 0 {
        let p = ps[0];
        let rest = ps.drop_first();
        let now = met_then(p, table, met, join);
        assert(join_agreement::key_fits(hash_join::row_key(join.probe, ps[0].values), kinds));
        join_agreement::lemma_keyed_rest(ps, join.probe, kinds);
        if partners_of(p, table, join).len() > 0 {
            lemma_noted(met, join_agreement::own_key(join.probe, p)->Some_0, x, kinds);
        }
        lemma_met_by(rest, table, now, join, x, kinds);
        if meets_one(rest, table, join, x) {
            let i = choose|i: int|
                0 <= i < rest.len() && row_meets_key(#[trigger] rest[i], table, join, x);
            assert(ps[i + 1] == rest[i]);
        }
        if meets_one(ps, table, join, x) {
            let i = choose|i: int|
                0 <= i < ps.len() && row_meets_key(#[trigger] ps[i], table, join, x);
            if i > 0 {
                assert(rest[i - 1] == ps[i]);
            }
        }
        if row_meets_key(p, table, join, x) {
            assert(row_meets_key(ps[0], table, join, x));
        }
    }
}

/// What the keys of a table leave from bucket `b` on.
spec fn unmet_from(
    table: Seq<Entry>,
    met: Seq<Seq<ValueModel>>,
    b: int,
    width: nat,
) -> Seq<TupleModel>
    decreases table.len() - b,
{
    if b < 0 || b >= table.len() {
        Seq::empty()
    } else {
        (if hash_join::was_met(met, table[b].0) {
            Seq::empty()
        } else {
            hash_join::all_alone(table[b].1, width)
        }) + unmet_from(table, met, b + 1, width)
    }
}

proof fn lemma_unmet_bucket(
    table: Seq<Entry>,
    met: Seq<Seq<ValueModel>>,
    b: int,
    i: int,
    width: nat,
)
    requires
        0 <= b < table.len(),
        0 <= i <= table[b].1.len(),
        !hash_join::was_met(met, table[b].0),
    ensures
        hash_join::unmet_rows(table, met, b, i, width) == hash_join::all_alone(
            table[b].1.skip(i),
            width,
        ) + hash_join::unmet_rows(table, met, b + 1, 0, width),
    decreases table[b].1.len() - i,
{
    let rest = hash_join::unmet_rows(table, met, b + 1, 0, width);
    let bucket = table[b].1;
    if i < bucket.len() {
        lemma_unmet_bucket(table, met, b, i + 1, width);
        let head = seq![join_pair::right_alone(bucket[i], width)];
        assert(hash_join::all_alone(bucket.skip(i), width) =~= head + hash_join::all_alone(
            bucket.skip(i + 1),
            width,
        ));
        assert(head + (hash_join::all_alone(bucket.skip(i + 1), width) + rest) =~= (head
            + hash_join::all_alone(bucket.skip(i + 1), width)) + rest);
    } else {
        assert(hash_join::all_alone(bucket.skip(i), width) + rest =~= rest);
    }
}

proof fn lemma_unmet_is_by_bucket(
    table: Seq<Entry>,
    met: Seq<Seq<ValueModel>>,
    b: int,
    width: nat,
)
    requires
        0 <= b <= table.len(),
    ensures
        hash_join::unmet_rows(table, met, b, 0, width) == unmet_from(table, met, b, width),
    decreases table.len() - b,
{
    if b < table.len() {
        lemma_unmet_is_by_bucket(table, met, b + 1, width);
        let rest = unmet_from(table, met, b + 1, width);
        if hash_join::was_met(met, table[b].0) {
            assert(Seq::<TupleModel>::empty() + rest =~= rest);
        } else {
            lemma_unmet_bucket(table, met, b, 0, width);
            assert(table[b].1.skip(0) =~= table[b].1);
        }
    }
}

/// A row alone, unless its key was met.
spec fn lonely(
    key: Option<Seq<ValueModel>>,
    row: TupleModel,
    met: Seq<Seq<ValueModel>>,
    width: nat,
) -> Seq<TupleModel> {
    if key is Some && hash_join::was_met(met, key->Some_0) {
        Seq::empty()
    } else {
        seq![join_pair::right_alone(row, width)]
    }
}

proof fn lemma_unmet_update(
    table: Seq<Entry>,
    at: int,
    row: TupleModel,
    met: Seq<Seq<ValueModel>>,
    b: int,
    width: nat,
)
    requires
        0 <= b <= at < table.len(),
    ensures
        unmet_from(
            table.update(at, (table[at].0, table[at].1.push(row))),
            met,
            b,
            width,
        ).to_multiset() =~= unmet_from(table, met, b, width).to_multiset().add(
            lonely(Some(table[at].0), row, met, width).to_multiset(),
        ),
    decreases at - b,
{
    broadcast use vstd::seq_lib::group_to_multiset_ensures;

    let now = table.update(at, (table[at].0, table[at].1.push(row)));
    let own = |t: Seq<Entry>|
        if hash_join::was_met(met, t[b].0) {
            Seq::empty()
        } else {
            hash_join::all_alone(t[b].1, width)
        };
    vstd::seq_lib::lemma_multiset_commutative(own(table), unmet_from(table, met, b + 1, width));
    vstd::seq_lib::lemma_multiset_commutative(own(now), unmet_from(now, met, b + 1, width));
    if b == at {
        lemma_unmet_later(table, now, met, b + 1, width);
        let alone = join_pair::right_alone(row, width);
        if !hash_join::was_met(met, table[at].0) {
            assert(hash_join::all_alone(table[at].1.push(row), width) =~= hash_join::all_alone(
                table[at].1,
                width,
            ).push(alone));
            assert(seq![alone] =~= Seq::<TupleModel>::empty().push(alone));
        }
    } else {
        lemma_unmet_update(table, at, row, met, b + 1, width);
        assert(now[b] == table[b]);
    }
}

proof fn lemma_unmet_later(
    table: Seq<Entry>,
    now: Seq<Entry>,
    met: Seq<Seq<ValueModel>>,
    b: int,
    width: nat,
)
    requires
        0 <= b,
        now.len() == table.len(),
        forall|i: int| b <= i < table.len() ==> #[trigger] now[i] == table[i],
    ensures
        unmet_from(now, met, b, width) == unmet_from(table, met, b, width),
    decreases table.len() - b,
{
    if b < table.len() {
        assert(now[b] == table[b]);
        lemma_unmet_later(table, now, met, b + 1, width);
    }
}

proof fn lemma_unmet_push(
    table: Seq<Entry>,
    key: Seq<ValueModel>,
    row: TupleModel,
    met: Seq<Seq<ValueModel>>,
    b: int,
    width: nat,
)
    requires
        0 <= b <= table.len(),
    ensures
        unmet_from(table.push((key, seq![row])), met, b, width) == unmet_from(
            table,
            met,
            b,
            width,
        ) + lonely(Some(key), row, met, width),
    decreases table.len() - b,
{
    let now = table.push((key, seq![row]));
    let last = lonely(Some(key), row, met, width);
    if b < table.len() {
        assert(now[b] == table[b]);
        lemma_unmet_push(table, key, row, met, b + 1, width);
        let own = if hash_join::was_met(met, table[b].0) {
            Seq::empty()
        } else {
            hash_join::all_alone(table[b].1, width)
        };
        let rest = unmet_from(table, met, b + 1, width);
        assert(own + (rest + last) =~= (own + rest) + last);
    } else {
        assert(now[b] == (key, seq![row]));
        assert(unmet_from(now, met, b + 1, width) =~= Seq::<TupleModel>::empty());
        assert(hash_join::all_alone(seq![row], width) =~= seq![join_pair::right_alone(row, width)]);
        assert(unmet_from(now, met, b, width) =~= last);
        assert(Seq::<TupleModel>::empty() + last =~= last);
    }
}

proof fn lemma_unmet_with_row(
    table: Seq<Entry>,
    key: Seq<ValueModel>,
    row: TupleModel,
    met: Seq<Seq<ValueModel>>,
    width: nat,
    kinds: Seq<int>,
)
    requires
        join_agreement::table_fits(table, kinds),
        join_agreement::of_kinds(key, kinds),
        all_of_kinds(met, kinds),
        table.len() <= usize::MAX,
    ensures
        unmet_from(join_table::with_row(table, key, row), met, 0, width).to_multiset()
            =~= unmet_from(table, met, 0, width).to_multiset().add(
            lonely(Some(key), row, met, width).to_multiset(),
        ),
{
    let keys = join_table::entry_keys(table);
    join_table::lemma_first_meeting_in_range(keys, key, 0);
    match join_table::first_meeting(keys, key, 0) {
        Some(i) => {
            assert(keys[i as int] == table[i as int].0);
            assert(join_agreement::of_kinds(table[i as int].0, kinds));
            join_agreement::lemma_same_first_meeting(met, table[i as int].0, key, 0, kinds);
            lemma_unmet_update(table, i as int, row, met, 0, width);
        },
        None => {
            lemma_unmet_push(table, key, row, met, 0, width);
            vstd::seq_lib::lemma_multiset_commutative(
                unmet_from(table, met, 0, width),
                lonely(Some(key), row, met, width),
            );
        },
    }
}

/// The rows that no key met, in their own order.
spec fn lonely_rows(
    rows: Seq<TupleModel>,
    rule: KeyRule,
    met: Seq<Seq<ValueModel>>,
    width: nat,
) -> Seq<TupleModel>
    decreases rows.len(),
{
    if rows.len() == 0 {
        Seq::empty()
    } else {
        lonely(join_agreement::own_key(rule, rows[0]), rows[0], met, width) + lonely_rows(
            rows.drop_first(),
            rule,
            met,
            width,
        )
    }
}

/// What a table leaves: the rows that no key met, and those without a key.
spec fn left_over(t: TableModel, met: Seq<Seq<ValueModel>>, width: nat) -> Multiset<TupleModel> {
    unmet_from(t.entries, met, 0, width).to_multiset().add(
        hash_join::all_alone(t.keyless, width).to_multiset(),
    )
}

proof fn lemma_left_over(
    rows: Seq<TupleModel>,
    table: TableModel,
    used: nat,
    limit: usize,
    rule: KeyRule,
    met: Seq<Seq<ValueModel>>,
    width: nat,
    kinds: Seq<int>,
)
    requires
        join_agreement::keyed(rows, rule, kinds),
        join_agreement::table_fits(table.entries, kinds),
        all_of_kinds(met, kinds),
        table.entries.len() + rows.len() < usize::MAX,
        hash_join::built(operator::just_rows(rows), table, used, limit, rule, true) is Ok,
    ensures
        left_over(
            hash_join::built(operator::just_rows(rows), table, used, limit, rule, true)->Ok_0,
            met,
            width,
        ) =~= left_over(table, met, width).add(
            lonely_rows(rows, rule, met, width).to_multiset(),
        ),
    decreases rows.len(),
{
    broadcast use vstd::seq_lib::group_to_multiset_ensures;

    if rows.len() > 0 {
        let rest = rows.drop_first();
        let row = rows[0];
        assert(operator::just_rows(rows).rest() =~= operator::just_rows(rest));
        assert(join_agreement::key_fits(hash_join::row_key(rule, rows[0].values), kinds));
        join_agreement::lemma_keyed_rest(rows, rule, kinds);
        let own = join_agreement::own_key(rule, row);
        let alone = lonely(own, row, met, width);
        vstd::seq_lib::lemma_multiset_commutative(alone, lonely_rows(rest, rule, met, width));
        match hash_join::row_key(rule, row.values) {
            Ok(Some(k)) => {
                let next = TableModel {
                    entries: join_table::with_row(table.entries, k, row),
                    keyless: table.keyless,
                };
                let now = used + join_pair::tuple_size(row) + join_table::key_size(k) + 24;
                lemma_unmet_with_row(table.entries, k, row, met, width, kinds);
                join_agreement::lemma_found_after(table.entries, k, row, k, kinds);
                lemma_left_over(rest, next, now, limit, rule, met, width, kinds);
            },
            _ => {
                let next = TableModel {
                    entries: table.entries,
                    keyless: table.keyless.push(row),
                };
                lemma_left_over(
                    rest,
                    next,
                    used + join_pair::tuple_size(row),
                    limit,
                    rule,
                    met,
                    width,
                    kinds,
                );
                let one = join_pair::right_alone(row, width);
                assert(hash_join::all_alone(table.keyless.push(row), width)
                    =~= hash_join::all_alone(table.keyless, width).push(one));
                assert(seq![one] =~= Seq::<TupleModel>::empty().push(one));
            },
        }
    } else {
        assert(lonely_rows(rows, rule, met, width) =~= Seq::<TupleModel>::empty());
    }
}

proof fn lemma_lonely_right(
    right: Seq<TupleModel>,
    marks: Seq<bool>,
    i: int,
    rule: KeyRule,
    met: Seq<Seq<ValueModel>>,
    width: nat,
)
    requires
        0 <= i <= right.len(),
        marks.len() == right.len(),
        forall|j: int|
            0 <= j < right.len() ==> (#[trigger] marks[j]) == (join_agreement::own_key(
                rule,
                right[j],
            ) is Some && hash_join::was_met(met, join_agreement::own_key(rule, right[j])->Some_0)),
    ensures
        nested_loop::unmatched_right(right, marks, i, width) == lonely_rows(
            right.skip(i),
            rule,
            met,
            width,
        ),
    decreases right.len() - i,
{
    if i < right.len() {
        lemma_lonely_right(right, marks, i + 1, rule, met, width);
        assert(right.skip(i).drop_first() =~= right.skip(i + 1));
        assert(right.skip(i)[0] == right[i]);
        assert(marks[i] == (join_agreement::own_key(rule, right[i]) is Some && hash_join::was_met(
            met,
            join_agreement::own_key(rule, right[i])->Some_0,
        )));
        let rest = lonely_rows(right.skip(i + 1), rule, met, width);
        assert(Seq::<TupleModel>::empty() + rest =~= rest);
    } else {
        assert(right.skip(i) =~= Seq::<TupleModel>::empty());
    }
}

pub proof fn lemma_matching_rows(rows: Seq<TupleModel>, rule: KeyRule, k: Seq<ValueModel>)
    ensures
        forall|x: int|
            0 <= x < join_agreement::matching(rows, rule, k).len() ==> rows.contains(
                #[trigger] join_agreement::matching(rows, rule, k)[x],
            ) && join_agreement::row_meets(join_agreement::matching(rows, rule, k)[x], rule, k),
        forall|j: int|
            0 <= j < rows.len() && join_agreement::row_meets(#[trigger] rows[j], rule, k)
                ==> join_agreement::matching(rows, rule, k).len() > 0,
    decreases rows.len(),
{
    let all = join_agreement::matching(rows, rule, k);
    if rows.len() > 0 {
        let rest = rows.drop_first();
        let tail = join_agreement::matching(rest, rule, k);
        lemma_matching_rows(rest, rule, k);
        assert forall|x: int| 0 <= x < all.len() implies rows.contains(#[trigger] all[x])
            && join_agreement::row_meets(all[x], rule, k) by {
            if join_agreement::row_meets(rows[0], rule, k) && x == 0 {
                assert(all[x] == rows[0]);
            } else {
                let y = if join_agreement::row_meets(rows[0], rule, k) {
                    x - 1
                } else {
                    x
                };
                assert(all[x] == tail[y]);
                assert(rest.contains(tail[y]));
                let j = choose|j: int| 0 <= j < rest.len() && rest[j] == tail[y];
                assert(rows[j + 1] == all[x]);
            }
        }
        assert forall|j: int|
            0 <= j < rows.len() && join_agreement::row_meets(
                #[trigger] rows[j],
                rule,
                k,
            ) implies all.len() > 0 by {
            if j > 0 {
                assert(rest[j - 1] == rows[j]);
            }
        }
    }
}

/// Whether a join by keys and a test of every pair speak of the same pairs.
pub open spec fn speak_alike(
    left: Seq<TupleModel>,
    right: Seq<TupleModel>,
    whole: LoopJoin,
    join: HashJoin,
    rule: KeyRule,
) -> bool {
    forall|i: int, j: int|
        0 <= i < left.len() && 0 <= j < right.len() ==> pair_alike(
            #[trigger] left[i],
            #[trigger] right[j],
            whole,
            join,
            rule,
        )
}

/// Whether the test of every pair joins two rows exactly where their keys meet and the
/// test behind the keys passes; that test fails on no rows whose keys meet.
pub open spec fn pair_alike(
    l: TupleModel,
    r: TupleModel,
    whole: LoopJoin,
    join: HashJoin,
    rule: KeyRule,
) -> bool {
    let key = join_agreement::own_key(join.probe, l);
    &&& join_agreement::pair_agrees(l, r, whole, join, rule, key)
    &&& key is Some && join_agreement::row_meets(r, rule, key->Some_0) ==> (join.test)(l, r) is Ok
    &&& join_pair::keeps_right(join.join_type) ==> (join.test)(l, r) == Ok::<bool, ErrorModel>(true)
}

proof fn lemma_holds_matching(
    right: Seq<TupleModel>,
    limit: usize,
    rule: KeyRule,
    keep: bool,
    k: Seq<ValueModel>,
    kinds: Seq<int>,
)
    requires
        join_agreement::keyed(right, rule, kinds),
        join_agreement::of_kinds(k, kinds),
        right.len() < usize::MAX,
        hash_join::built(
            operator::just_rows(right),
            hash_join::empty_table(),
            0,
            limit,
            rule,
            keep,
        ) is Ok,
    ensures
        join_agreement::found(
            hash_join::built(
                operator::just_rows(right),
                hash_join::empty_table(),
                0,
                limit,
                rule,
                keep,
            )->Ok_0.entries,
            k,
        ) == join_agreement::matching(right, rule, k),
{
    join_agreement::lemma_built_rows(
        right,
        hash_join::empty_table(),
        0,
        limit,
        rule,
        keep,
        k,
        kinds,
    );
    assert(join_agreement::found(Seq::<Entry>::empty(), k) =~= Seq::<TupleModel>::empty());
    assert(Seq::<TupleModel>::empty() + join_agreement::matching(right, rule, k)
        =~= join_agreement::matching(right, rule, k));
}

proof fn lemma_probes_well(
    left: Seq<TupleModel>,
    right: Seq<TupleModel>,
    table: Seq<Entry>,
    whole: LoopJoin,
    join: HashJoin,
    rule: KeyRule,
    kinds: Seq<int>,
)
    requires
        join_agreement::keyed(left, join.probe, kinds),
        join_agreement::table_holds(table, right, rule, kinds),
        speak_alike(left, right, whole, join, rule),
        join.build_side == HashJoinBuildSide::Right,
    ensures
        forall|i: int| 0 <= i < left.len() ==> probes_well(#[trigger] left[i], table, join),
{
    assert forall|i: int| 0 <= i < left.len() implies probes_well(
        #[trigger] left[i],
        table,
        join,
    ) by {
        let l = left[i];
        assert(join_agreement::key_fits(hash_join::row_key(join.probe, left[i].values), kinds));
        if let Some(k) = join_agreement::own_key(join.probe, l) {
            let bucket = join_agreement::found(table, k);
            assert(bucket == join_agreement::matching(right, rule, k));
            lemma_matching_rows(right, rule, k);
            assert forall|x: int| 0 <= x < bucket.len() implies hash_join::probe_test(
                l,
                #[trigger] bucket[x],
                join,
            ) is Ok by {
                assert(right.contains(join_agreement::matching(right, rule, k)[x]));
                let j = choose|j: int| 0 <= j < right.len() && right[j] == bucket[x];
                assert(pair_alike(left[i], right[j], whole, join, rule));
            }
        }
    }
}

proof fn lemma_met_is_matched(
    left: Seq<TupleModel>,
    right: Seq<TupleModel>,
    table: Seq<Entry>,
    whole: LoopJoin,
    join: HashJoin,
    rule: KeyRule,
    kinds: Seq<int>,
    j: int,
)
    requires
        join_agreement::keyed(left, join.probe, kinds),
        join_agreement::keyed(right, rule, kinds),
        join_agreement::table_holds(table, right, rule, kinds),
        speak_alike(left, right, whole, join, rule),
        join.build_side == HashJoinBuildSide::Right,
        join_pair::keeps_right(join.join_type),
        0 <= j < right.len(),
    ensures
        nested_loop::has_partner(left, right[j], whole) == (join_agreement::own_key(
            rule,
            right[j],
        ) is Some && hash_join::was_met(
            met_by(left, table, Seq::empty(), join),
            join_agreement::own_key(rule, right[j])->Some_0,
        )),
{
    let r = right[j];
    let met = met_by(left, table, Seq::empty(), join);
    assert(join_agreement::key_fits(hash_join::row_key(rule, right[j].values), kinds));
    if let Some(kr) = join_agreement::own_key(rule, r) {
        lemma_met_by(left, table, Seq::empty(), join, kr, kinds);
        if meets_one(left, table, join, kr) {
            let i = choose|i: int|
                0 <= i < left.len() && row_meets_key(#[trigger] left[i], table, join, kr);
            let k = join_agreement::own_key(join.probe, left[i])->Some_0;
            assert(join_agreement::own_key(join.probe, left[i]) is Some);
            join_table::law_meeting_is_symmetric(k, kr);
            assert(pair_alike(left[i], right[j], whole, join, rule));
            assert((whole.test)(left[i], r) == Ok::<bool, ErrorModel>(true));
        }
    }
    if nested_loop::has_partner(left, r, whole) {
        let i = choose|i: int|
            0 <= i < left.len() && (whole.test)(#[trigger] left[i], r) == Ok::<bool, ErrorModel>(
                true,
            );
        assert(pair_alike(left[i], right[j], whole, join, rule));
        let k = join_agreement::own_key(join.probe, left[i])->Some_0;
        let kr = join_agreement::own_key(rule, r)->Some_0;
        join_table::law_meeting_is_symmetric(k, kr);
        assert(join_agreement::key_fits(hash_join::row_key(join.probe, left[i].values), kinds));
        let bucket = join_agreement::found(table, k);
        assert(bucket == join_agreement::matching(right, rule, k));
        lemma_matching_rows(right, rule, k);
        assert(join_agreement::row_meets(right[j], rule, k));
        assert(bucket.len() > 0);
        assert(right.contains(join_agreement::matching(right, rule, k)[0]));
        let y = choose|y: int| 0 <= y < right.len() && right[y] == bucket[0];
        assert(pair_alike(left[i], right[y], whole, join, rule));
        assert(hash_join::probe_test(left[i], bucket[0], join) == Ok::<bool, ErrorModel>(true));
        assert(partners_of(left[i], table, join).len() > 0);
        assert(row_meets_key(left[i], table, join, kr));
        lemma_met_by(left, table, Seq::empty(), join, kr, kinds);
    }
}

/// The rows that testing every pair gives: what each left row contributes, and behind
/// them, where the join keeps them, the right rows that no left row was joined with.
pub open spec fn loop_rows(left: Seq<TupleModel>, right: Seq<TupleModel>, whole: LoopJoin) -> Seq<
    TupleModel,
> {
    nested_loop::contributions(left, right, whole) + (if join_pair::keeps_right(whole.join_type) {
        nested_loop::lonely_right(left, right, whole)
    } else {
        Seq::empty()
    })
}

/// A join by keys, with the right rows held in memory, gives the rows that testing every
/// pair gives, each as often, for every type of join.
pub proof fn lemma_rows_by_key(
    left: Seq<TupleModel>,
    right: Seq<TupleModel>,
    limit: usize,
    whole: LoopJoin,
    join: HashJoin,
    rule: KeyRule,
    kinds: Seq<int>,
)
    requires
        join_agreement::keyed(left, join.probe, kinds),
        join_agreement::keyed(right, rule, kinds),
        right.len() < usize::MAX,
        ({
            let t = hash_join::built(
                operator::just_rows(right),
                hash_join::empty_table(),
                0,
                limit,
                rule,
                join_pair::keeps_right(join.join_type),
            );
            t is Ok && join.keyless == t->Ok_0.keyless
        }),
        speak_alike(left, right, whole, join, rule),
        join.build_side == HashJoinBuildSide::Right,
        join.projection is None,
        join.join_type == whole.join_type,
        join.left_width == whole.left_width,
        join.right_width == whole.right_width,
    ensures
        ({
            let t = hash_join::built(
                operator::just_rows(right),
                hash_join::empty_table(),
                0,
                limit,
                rule,
                join_pair::keeps_right(join.join_type),
            )->Ok_0;
            let out = hash_join::hash_from_probe(
                operator::just_rows(left),
                t.entries,
                Seq::empty(),
                join,
            );
            &&& out.end is None
            &&& out.rows.to_multiset() == loop_rows(left, right, whole).to_multiset()
        }),
{
    broadcast use vstd::seq_lib::group_to_multiset_ensures;

    let keep = join_pair::keeps_right(join.join_type);
    let t = hash_join::built(
        operator::just_rows(right),
        hash_join::empty_table(),
        0,
        limit,
        rule,
        keep,
    )->Ok_0;
    assert forall|k: Seq<ValueModel>| join_agreement::of_kinds(k, kinds) implies #[trigger]
        join_agreement::found(t.entries, k) == join_agreement::matching(right, rule, k) by {
        lemma_holds_matching(right, limit, rule, keep, k, kinds);
    }
    assert(join_agreement::table_holds(t.entries, right, rule, kinds));
    join_agreement::lemma_built_size(right, hash_join::empty_table(), 0, limit, rule, keep);
    lemma_probes_well(left, right, t.entries, whole, join, rule, kinds);
    lemma_hash_rows(left, t.entries, Seq::empty(), join);
    assert forall|i: int, j: int|
        0 <= i < left.len() && 0 <= j < right.len() implies join_agreement::pair_agrees(
        #[trigger] left[i],
        #[trigger] right[j],
        whole,
        join,
        rule,
        join_agreement::own_key(join.probe, left[i]),
    ) by {
        assert(pair_alike(left[i], right[j], whole, join, rule));
    }
    join_agreement::lemma_same_output(left, right, t.entries, whole, join, rule, kinds);
    let first = nested_loop::contributions(left, right, whole);
    let met = met_by(left, t.entries, Seq::empty(), join);
    let tail = unmet_tail(t.entries, met, join);
    if keep {
        let marks = Seq::new(
            right.len(),
            |j: int| nested_loop::has_partner(left, right[j], whole),
        );
        assert forall|j: int| 0 <= j < right.len() implies (#[trigger] marks[j]) == (
        join_agreement::own_key(rule, right[j]) is Some && hash_join::was_met(
            met,
            join_agreement::own_key(rule, right[j])->Some_0,
        )) by {
            lemma_met_is_matched(left, right, t.entries, whole, join, rule, kinds, j);
        }
        lemma_lonely_right(right, marks, 0, rule, met, join.left_width);
        assert(right.skip(0) =~= right);
        lemma_all_met_fit(left, t.entries, join, kinds);
        lemma_left_over(
            right,
            hash_join::empty_table(),
            0,
            limit,
            rule,
            met,
            join.left_width,
            kinds,
        );
        lemma_unmet_is_by_bucket(t.entries, met, 0, join.left_width);
        let lonely = nested_loop::lonely_right(left, right, whole);
        let unmet = hash_join::unmet_rows(t.entries, met, 0, 0, join.left_width);
        let alone = hash_join::all_alone(t.keyless, join.left_width);
        vstd::seq_lib::lemma_multiset_commutative(unmet, alone);
        assert(tail.to_multiset() =~= lonely.to_multiset()) by {
            assert(unmet_from(Seq::<Entry>::empty(), met, 0, join.left_width)
                =~= Seq::<TupleModel>::empty());
            assert(hash_join::all_alone(Seq::<TupleModel>::empty(), join.left_width)
                =~= Seq::<TupleModel>::empty());
        }
        vstd::seq_lib::lemma_multiset_commutative(first, tail);
        vstd::seq_lib::lemma_multiset_commutative(first, lonely);
    }
}

proof fn lemma_all_met_fit(
    left: Seq<TupleModel>,
    table: Seq<Entry>,
    join: HashJoin,
    kinds: Seq<int>,
)
    requires
        join_agreement::keyed(left, join.probe, kinds),
        join_pair::keeps_right(join.join_type),
    ensures
        all_of_kinds(met_by(left, table, Seq::empty(), join), kinds),
{
    lemma_all_met_fit_from(left, table, Seq::empty(), join, kinds);
}

proof fn lemma_all_met_fit_from(
    left: Seq<TupleModel>,
    table: Seq<Entry>,
    met: Seq<Seq<ValueModel>>,
    join: HashJoin,
    kinds: Seq<int>,
)
    requires
        join_agreement::keyed(left, join.probe, kinds),
        all_of_kinds(met, kinds),
    ensures
        all_of_kinds(met_by(left, table, met, join), kinds),
    decreases left.len(),
{
    if left.len() > 0 {
        assert(join_agreement::key_fits(hash_join::row_key(join.probe, left[0].values), kinds));
        join_agreement::lemma_keyed_rest(left, join.probe, kinds);
        lemma_all_met_fit_from(
            left.drop_first(),
            table,
            met_then(left[0], table, met, join),
            join,
            kinds,
        );
    }
}

} // verus!
