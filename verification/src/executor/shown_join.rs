//! A join that picks its output columns at once gives what the `SELECT` list over the
//! join gives.

use crate::evaluator;
use crate::executor::hash_join;
use crate::executor::hash_join::{HashJoin, HashJoinBuildSide};
use crate::executor::join_agreement;
use crate::executor::join_build;
use crate::executor::join_build::JoinTerms;
use crate::executor::join_keys;
use crate::executor::join_meaning;
use crate::executor::join_pair;
use crate::executor::join_table;
use crate::executor::join_table::Entry;
use crate::executor::operator;
use crate::executor::operator::{Relation, RowStream};
use crate::executor::project;
use crate::executor::project::Distinct;
use crate::logical_plan::{ExprModel, JoinType};
use crate::schema;
use crate::schema::{ColumnModel, ErrorModel, TupleModel};
use crate::value::ValueModel;
use vstd::prelude::*;

verus! {

/// The values at given positions.
spec fn values_at(row: Seq<ValueModel>, ps: Seq<usize>) -> Seq<ValueModel> {
    Seq::new(ps.len(), |i: int| row[ps[i] as int])
}

/// A row of the values at given positions.
spec fn pick(row: TupleModel, ps: Seq<usize>) -> TupleModel {
    schema::loose_row(values_at(row.values, ps))
}

/// A stream with the values of each row at given positions.
spec fn all_picked(s: RowStream, ps: Seq<usize>) -> RowStream {
    RowStream { rows: s.rows.map_values(|t: TupleModel| pick(t, ps)), end: s.end }
}

/// Whether each row of a stream is a loose row of a given width.
spec fn all_wide(s: RowStream, width: nat) -> bool {
    forall|i: int|
        0 <= i < s.rows.len() ==> is_wide(#[trigger] s.rows[i], width)
}

spec fn is_wide(row: TupleModel, width: nat) -> bool {
    row.values.len() == width && row == schema::loose_row(row.values)
}

proof fn lemma_picked_after(s: RowStream, row: TupleModel, ps: Seq<usize>, width: nat)
    requires
        all_wide(s, width),
        is_wide(row, width),
    ensures
        all_picked(s.after(row), ps) == all_picked(s, ps).after(pick(row, ps)),
        all_wide(s.after(row), width),
{
    assert(all_picked(s.after(row), ps).rows =~= all_picked(s, ps).after(pick(row, ps)).rows);
    let all = s.after(row);
    assert forall|i: int| 0 <= i < all.rows.len() implies is_wide(#[trigger] all.rows[i], width) by {
        if i > 0 {
            assert(all.rows[i] == s.rows[i - 1]);
        }
    }
}

/// Whether the positions lie within rows of a given width.
spec fn positions_fit(ps: Seq<usize>, width: nat) -> bool {
    forall|i: int| 0 <= i < ps.len() ==> (#[trigger] ps[i]) < width
}

/// Whether a probe row and the rows of a table have the widths of their inputs.
spec fn fits_probe(p: TupleModel, join: HashJoin) -> bool {
    p.values.len() == match join.build_side {
        HashJoinBuildSide::Right => join.left_width,
        HashJoinBuildSide::Left => join.right_width,
    }
}

spec fn fits_build(p: TupleModel, join: HashJoin) -> bool {
    p.values.len() == match join.build_side {
        HashJoinBuildSide::Right => join.right_width,
        HashJoinBuildSide::Left => join.left_width,
    }
}

spec fn table_is_wide(table: Seq<Entry>, join: HashJoin) -> bool {
    forall|b: int, i: int|
        0 <= b < table.len() && 0 <= i < table[b].1.len() ==> fits_build(
            #[trigger] table[b].1[i],
            join,
        )
}

/// A join that gives its pairs whole.
spec fn whole_pairs(join: HashJoin) -> HashJoin {
    HashJoin { projection: None, ..join }
}

proof fn lemma_picked_pair(p: TupleModel, b: TupleModel, join: HashJoin, ps: Seq<usize>)
    requires
        join.projection == Some(ps),
        fits_probe(p, join),
        fits_build(b, join),
        positions_fit(ps, join.left_width + join.right_width),
    ensures
        hash_join::paired_probe(p, b, join) == pick(
            hash_join::paired_probe(p, b, whole_pairs(join)),
            ps,
        ),
        is_wide(
            hash_join::paired_probe(p, b, whole_pairs(join)),
            join.left_width + join.right_width,
        ),
{
    let whole = hash_join::paired_probe(p, b, whole_pairs(join));
    let given = hash_join::paired_probe(p, b, join);
    assert(given.values =~= pick(whole, ps).values) by {
        assert forall|i: int| 0 <= i < ps.len() implies #[trigger] given.values[i] == pick(
            whole,
            ps,
        ).values[i] by {
            assert(ps[i] < join.left_width + join.right_width);
        }
    }
}

proof fn lemma_picked_probe(
    probe: RowStream,
    table: Seq<Entry>,
    met: Seq<Seq<ValueModel>>,
    join: HashJoin,
    ps: Seq<usize>,
)
    requires
        join.projection == Some(ps),
        join_meaning::keeps_none(join.join_type),
        table_is_wide(table, join),
        table.len() <= usize::MAX,
        positions_fit(ps, join.left_width + join.right_width),
        forall|i: int| 0 <= i < probe.rows.len() ==> fits_probe(#[trigger] probe.rows[i], join),
    ensures
        hash_join::hash_from_probe(probe, table, met, join) == all_picked(
            hash_join::hash_from_probe(probe, table, met, whole_pairs(join)),
            ps,
        ),
        all_wide(
            hash_join::hash_from_probe(probe, table, met, whole_pairs(join)),
            join.left_width + join.right_width,
        ),
    decreases probe.rows.len(), 0int,
{
    let other = whole_pairs(join);
    let none = Seq::<TupleModel>::empty();
    if probe.rows.len() == 0 {
        assert(none.map_values(|t: TupleModel| pick(t, ps)) =~= none);
    } else {
        let rest = probe.rest();
        let p = probe.rows[0];
        assert(fits_probe(probe.rows[0], join));
        assert forall|i: int| 0 <= i < rest.rows.len() implies fits_probe(
            #[trigger] rest.rows[i],
            join,
        ) by {
            assert(rest.rows[i] == probe.rows[i + 1]);
        }
        lemma_picked_probe(rest, table, met, join, ps);
        match hash_join::row_key(join.probe, p.values) {
            Ok(Some(k)) => {
                join_table::lemma_first_meeting_in_range(join_table::entry_keys(table), k, 0);
                if let Some(b) = join_table::first_meeting(join_table::entry_keys(table), k, 0) {
                    let bucket = table[b as int].1;
                    assert forall|i: int| 0 <= i < bucket.len() implies fits_build(
                        #[trigger] bucket[i],
                        join,
                    ) by {
                        assert(fits_build(table[b as int].1[i], join));
                    }
                    lemma_picked_bucket(p, k, bucket, 0, false, rest, table, met, join, ps);
                }
            },
            Ok(None) => {},
            Err(_) => {
                assert(none.map_values(|t: TupleModel| pick(t, ps)) =~= none);
            },
        }
    }
}

proof fn lemma_picked_bucket(
    p: TupleModel,
    k: Seq<ValueModel>,
    bucket: Seq<TupleModel>,
    i: int,
    had: bool,
    probe: RowStream,
    table: Seq<Entry>,
    met: Seq<Seq<ValueModel>>,
    join: HashJoin,
    ps: Seq<usize>,
)
    requires
        join.projection == Some(ps),
        join_meaning::keeps_none(join.join_type),
        table_is_wide(table, join),
        table.len() <= usize::MAX,
        positions_fit(ps, join.left_width + join.right_width),
        fits_probe(p, join),
        0 <= i <= bucket.len(),
        forall|x: int| 0 <= x < bucket.len() ==> fits_build(#[trigger] bucket[x], join),
        forall|x: int| 0 <= x < probe.rows.len() ==> fits_probe(#[trigger] probe.rows[x], join),
    ensures
        hash_join::hash_from_bucket(p, k, bucket, i, had, probe, table, met, join) == all_picked(
            hash_join::hash_from_bucket(
                p,
                k,
                bucket,
                i,
                had,
                probe,
                table,
                met,
                whole_pairs(join),
            ),
            ps,
        ),
        all_wide(
            hash_join::hash_from_bucket(
                p,
                k,
                bucket,
                i,
                had,
                probe,
                table,
                met,
                whole_pairs(join),
            ),
            join.left_width + join.right_width,
        ),
    decreases probe.rows.len(), bucket.len() - i + 1,
{
    let other = whole_pairs(join);
    let width = join.left_width + join.right_width;
    if i == bucket.len() {
        lemma_picked_probe(probe, table, met, join, ps);
    } else {
        assert(fits_build(bucket[i], join));
        match hash_join::probe_test(p, bucket[i], join) {
            Err(_) => {
                let none = Seq::<TupleModel>::empty();
                assert(none.map_values(|t: TupleModel| pick(t, ps)) =~= none);
            },
            Ok(true) => {
                let now = hash_join::met_after(had, met, k, join);
                lemma_picked_bucket(p, k, bucket, i + 1, true, probe, table, now, join, ps);
                lemma_picked_pair(p, bucket[i], join, ps);
                lemma_picked_after(
                    hash_join::hash_from_bucket(
                        p,
                        k,
                        bucket,
                        i + 1,
                        true,
                        probe,
                        table,
                        now,
                        other,
                    ),
                    hash_join::paired_probe(p, bucket[i], other),
                    ps,
                    width,
                );
            },
            Ok(false) => {
                lemma_picked_bucket(p, k, bucket, i + 1, had, probe, table, met, join, ps);
            },
        }
    }
}

proof fn lemma_positions(exprs: Seq<ExprModel>, n: nat, cols: Seq<ColumnModel>)
    requires
        n <= exprs.len(),
        cols.len() <= usize::MAX,
        join_build::shown_positions(exprs, n, cols) is Some,
    ensures
        join_build::shown_positions(exprs, n, cols)->Some_0.len() == n,
        positions_fit(join_build::shown_positions(exprs, n, cols)->Some_0, cols.len()),
        forall|params: Seq<ValueModel>, row: Seq<ValueModel>|
            row.len() == cols.len() ==> #[trigger] evaluator::eval_all(
                exprs.take(n as int),
                cols,
                params,
                row,
            ) == Ok::<Seq<ValueModel>, ErrorModel>(
                values_at(row, join_build::shown_positions(exprs, n, cols)->Some_0),
            ),
    decreases n,
{
    let ps = join_build::shown_positions(exprs, n, cols)->Some_0;
    if n > 0 {
        let m = (n - 1) as nat;
        lemma_positions(exprs, m, cols);
        let before = join_build::shown_positions(exprs, m, cols)->Some_0;
        let e = exprs[n - 1];
        schema::lemma_qualified_index_in_range(cols, e->Column_table, e->Column_name);
        assert forall|i: int| 0 <= i < ps.len() implies (#[trigger] ps[i]) < cols.len() by {
            if i < m {
                assert(ps[i] == before[i]);
            }
        }
        assert forall|params: Seq<ValueModel>, row: Seq<ValueModel>|
            row.len() == cols.len() implies #[trigger] evaluator::eval_all(
            exprs.take(n as int),
            cols,
            params,
            row,
        ) == Ok::<Seq<ValueModel>, ErrorModel>(values_at(row, ps)) by {
            let list = exprs.take(n as int);
            assert(list.drop_last() =~= exprs.take(m as int));
            assert(list.last() == e);
            let some = values_at(row, before);
            assert(evaluator::eval_all(exprs.take(m as int), cols, params, row) == Ok::<
                Seq<ValueModel>,
                ErrorModel,
            >(some));
            assert(ps == before.push(ps[n - 1]));
            assert(ps[n - 1] < cols.len());
            assert(e is Column);
            assert(schema::qualified_index(cols, e->Column_table, e->Column_name) == Some(
                ps[n - 1],
            ));
            assert(evaluator::eval(e, cols, params, row) == Ok::<ValueModel, ErrorModel>(
                row[ps[n - 1] as int],
            ));
            assert(some.push(row[ps[n - 1] as int]) =~= values_at(row, ps));
            assert(evaluator::eval_all(list, cols, params, row) == Ok::<
                Seq<ValueModel>,
                ErrorModel,
            >(some.push(row[ps[n - 1] as int])));
        }
    } else {
        assert(exprs.take(0) =~= Seq::<ExprModel>::empty());
        assert forall|params: Seq<ValueModel>, row: Seq<ValueModel>|
            row.len() == cols.len() implies #[trigger] evaluator::eval_all(
            exprs.take(0),
            cols,
            params,
            row,
        ) == Ok::<Seq<ValueModel>, ErrorModel>(values_at(row, ps)) by {
            assert(Seq::<ValueModel>::empty() =~= values_at(row, ps));
        }
    }
}

/// A `SELECT` list of plain columns picks values by position.
proof fn lemma_list_picks(
    s: RowStream,
    exprs: Seq<ExprModel>,
    cols: Seq<ColumnModel>,
    params: Seq<ValueModel>,
)
    requires
        cols.len() <= usize::MAX,
        join_build::shown_positions(exprs, exprs.len(), cols) is Some,
        all_wide(s, cols.len()),
    ensures
        project::projected(s, exprs, cols, params, Distinct::Keep, Seq::empty()) == all_picked(
            s,
            join_build::shown_positions(exprs, exprs.len(), cols)->Some_0,
        ),
    decreases s.rows.len(),
{
    let ps = join_build::shown_positions(exprs, exprs.len(), cols)->Some_0;
    if s.rows.len() > 0 {
        let rest = s.rest();
        let row = s.rows[0];
        assert(is_wide(s.rows[0], cols.len()));
        assert forall|i: int| 0 <= i < rest.rows.len() implies is_wide(
            #[trigger] rest.rows[i],
            cols.len(),
        ) by {
            assert(rest.rows[i] == s.rows[i + 1]);
        }
        lemma_list_picks(rest, exprs, cols, params);
        lemma_positions(exprs, exprs.len(), cols);
        assert(exprs.take(exprs.len() as int) =~= exprs);
        assert(evaluator::eval_all(exprs.take(exprs.len() as int), cols, params, row.values) == Ok::<
            Seq<ValueModel>,
            ErrorModel,
        >(pick(row, ps).values));
        lemma_picked_after(rest, row, ps, cols.len());
        assert(rest.after(row) =~= s) by {
            assert(rest.after(row).rows =~= s.rows);
        }
    } else {
        assert(s.rows =~= Seq::<TupleModel>::empty());
        assert(all_picked(s, ps).rows =~= s.rows);
    }
}

/// An inner join under a `SELECT` list of plain columns gives what the list gives over
/// the join: the same rows in the same order, under the same columns, and the same errors.
pub proof fn law_showing_a_join_is_listing_it(
    left: Relation,
    right: Relation,
    condition: ExprModel,
    exprs: Seq<ExprModel>,
    aliases: Seq<Seq<char>>,
    terms: JoinTerms,
)
    requires
        join_meaning::rows_fit(left),
        join_meaning::rows_fit(right),
        left.columns.len() + right.columns.len() <= usize::MAX,
        left.rows.rows.len() < usize::MAX,
        right.rows.rows.len() < usize::MAX,
    ensures
        join_build::joined_and_shown(left, right, condition, exprs, aliases, terms) matches Some(r)
            ==> r == join_build::projected_relation(
            join_build::joined_on(left, right, JoinType::Inner, condition, terms),
            exprs,
            aliases,
            terms.params,
        ),
{
    let plan = join_keys::planned(condition, left.columns, right.columns);
    let both = left.columns + right.columns;
    if plan.equi is Some && plan.residual is None {
        if let Some(ps) = join_build::shown_positions(exprs, exprs.len(), both) {
            let table = hash_join::table_of(
                join_build::as_input(left),
                join_build::as_input(right),
                plan.equi,
                terms.params,
                join_build::planned_keys(plan),
                terms.side,
                terms.limit,
                JoinType::Inner,
            );
            if let Ok(t) = table {
                let join = hash_join::hash_join_of(
                    left.columns,
                    right.columns,
                    JoinType::Inner,
                    plan.equi,
                    None,
                    terms.params,
                    join_build::planned_keys(plan),
                    terms.side,
                    Some(ps),
                    t.keyless,
                );
                lemma_positions(exprs, exprs.len(), both);
                let (probe, build) = match terms.side {
                    HashJoinBuildSide::Right => (left.rows, right.rows),
                    HashJoinBuildSide::Left => (right.rows, left.rows),
                };
                lemma_table_is_wide(build, terms.limit, join, match terms.side {
                    HashJoinBuildSide::Right => hash_join::side_rule(
                        plan.direct,
                        plan.pairs,
                        plan.equi is None,
                        right.columns,
                        terms.params,
                        true,
                    ),
                    HashJoinBuildSide::Left => hash_join::side_rule(
                        plan.direct,
                        plan.pairs,
                        plan.equi is None,
                        left.columns,
                        terms.params,
                        false,
                    ),
                });
                lemma_picked_probe(probe, t.entries, Seq::empty(), join, ps);
                let plain = hash_join::hash_from_probe(
                    probe,
                    t.entries,
                    Seq::empty(),
                    whole_pairs(join),
                );
                lemma_list_picks(plain, exprs, both, terms.params);
            }
        }
    }
}

proof fn lemma_table_is_wide(
    build: RowStream,
    limit: usize,
    join: HashJoin,
    rule: hash_join::KeyRule,
)
    requires
        hash_join::built(build, hash_join::empty_table(), 0, limit, rule, false) is Ok,
        build.rows.len() < usize::MAX,
        forall|i: int| 0 <= i < build.rows.len() ==> fits_build(#[trigger] build.rows[i], join),
    ensures
        table_is_wide(
            hash_join::built(build, hash_join::empty_table(), 0, limit, rule, false)->Ok_0.entries,
            join,
        ),
        hash_join::built(
            build,
            hash_join::empty_table(),
            0,
            limit,
            rule,
            false,
        )->Ok_0.entries.len() <= usize::MAX,
{
    lemma_built_ends(build, hash_join::empty_table(), 0, limit, rule);
    let rows = build.rows;
    assert(build =~= operator::just_rows(rows));
    join_agreement::lemma_buckets_hold_rows(
        rows,
        hash_join::empty_table(),
        0,
        limit,
        rule,
        false,
        rows,
    );
    join_agreement::lemma_built_size(rows, hash_join::empty_table(), 0, limit, rule, false);
    let t = hash_join::built(build, hash_join::empty_table(), 0, limit, rule, false)->Ok_0.entries;
    assert forall|b: int, i: int| 0 <= b < t.len() && 0 <= i < t[b].1.len() implies fits_build(
        #[trigger] t[b].1[i],
        join,
    ) by {
        assert(rows.contains(t[b].1[i]));
        let x = choose|x: int| 0 <= x < rows.len() && rows[x] == t[b].1[i];
        assert(fits_build(build.rows[x], join));
    }
}

/// A table that was built was built from a stream that ended well.
proof fn lemma_built_ends(
    s: RowStream,
    table: hash_join::TableModel,
    used: nat,
    limit: usize,
    rule: hash_join::KeyRule,
)
    requires
        hash_join::built(s, table, used, limit, rule, false) is Ok,
    ensures
        s.end is None,
    decreases s.rows.len(),
{
    if s.rows.len() > 0 {
        let row = s.rows[0];
        match hash_join::row_key(rule, row.values) {
            Ok(Some(k)) => {
                lemma_built_ends(
                    s.rest(),
                    (hash_join::TableModel {
                        entries: join_table::with_row(table.entries, k, row),
                        keyless: table.keyless,
                    }),
                    used + join_pair::tuple_size(row) + join_table::key_size(k) + 24,
                    limit,
                    rule,
                );
            },
            _ => {
                lemma_built_ends(s.rest(), table, used, limit, rule);
            },
        }
    }
}

} // verus!
