//! The hash join.

use crate::evaluator;
use crate::evaluator::Evaluator;
use crate::executor::join_keys;
use crate::executor::join_keys::{BoundJoinKeyPair, DirectJoinKeyIndices};
use crate::executor::join_pair;
use crate::executor::join_table;
use crate::executor::join_table::{Entry, JoinKey, JoinTable, KeyIndex};
use crate::executor::nested_loop;
use crate::executor::operator;
use crate::executor::operator::{PhysicalOperator, RowStream, TimeoutContext};
use crate::logical_plan;
use crate::logical_plan::{ExprModel, JoinType, LogicalExpr};
use crate::schema;
use crate::schema::{ColumnModel, Error, ErrorModel, Schema, Tuple, TupleModel};
use crate::value;
use crate::value::{Value, ValueModel};
use std::sync::Arc;
use vstd::prelude::*;

verus! {

/// The input that a hash join holds in memory.
#[derive(Clone, Copy, PartialEq, Eq, Structural)]
pub enum HashJoinBuildSide {
    Left,
    Right,
}

/// Keys that were decided before the operator is built.
pub struct PreboundJoinKeys {
    pub direct_key_indices: Option<DirectJoinKeyIndices>,
    pub bound_key_pairs: Vec<BoundJoinKeyPair>,
    /// Whether the keys express the whole condition.
    pub keys_cover_condition: bool,
}

/// How the key of a row of one input is found: by position, or by expressions,
/// or not at all where every row meets every row.
#[verifier::ext_equal]
pub struct KeyRule {
    pub positions: Option<Seq<usize>>,
    pub exprs: Seq<ExprModel>,
    pub keyless: bool,
    pub cols: Seq<ColumnModel>,
    pub params: Seq<ValueModel>,
}

pub open spec fn key_out_of_bounds() -> ErrorModel {
    ErrorModel::QueryExecution("Join key index out of bounds"@)
}

fn key_out_of_bounds_error() -> (r: Error)
    ensures
        r@ == key_out_of_bounds(),
{
    Error::query_execution("Join key index out of bounds".to_owned())
}

/// The values at given positions; `None` where one of them is NULL.
pub open spec fn values_at(row: Seq<ValueModel>, positions: Seq<usize>) -> Result<
    Option<Seq<ValueModel>>,
    ErrorModel,
>
    decreases positions.len(),
{
    if positions.len() == 0 {
        Ok(Some(Seq::empty()))
    } else {
        match values_at(row, positions.drop_last()) {
            Err(e) => Err(e),
            Ok(None) => Ok(None),
            Ok(Some(vs)) => {
                let at = positions.last();
                if at >= row.len() {
                    Err(key_out_of_bounds())
                } else if row[at as int] == ValueModel::Null {
                    Ok(None)
                } else {
                    Ok(Some(vs.push(row[at as int])))
                }
            },
        }
    }
}

/// The key of a row; `None` where it holds a NULL.
pub open spec fn row_key(rule: KeyRule, row: Seq<ValueModel>) -> Result<
    Option<Seq<ValueModel>>,
    ErrorModel,
> {
    match rule.positions {
        Some(ps) => match values_at(row, ps) {
            Err(e) => Err(e),
            Ok(None) => Ok(None),
            Ok(Some(vs)) => Ok(Some(join_table::key_of_values(vs))),
        },
        None => if rule.keyless {
            Ok(Some(Seq::empty()))
        } else {
            match evaluator::eval_all(rule.exprs, rule.cols, rule.params, row) {
                Err(e) => Err(e),
                Ok(vs) => if vs.contains(ValueModel::Null) {
                    Ok(None)
                } else {
                    Ok(Some(join_table::key_of_values(vs)))
                },
            }
        },
    }
}

/// A key never holds a NULL, so a row with a NULL in its key is never joined.
pub proof fn law_keys_hold_no_null(rule: KeyRule, row: Seq<ValueModel>)
    ensures
        row_key(rule, row) matches Ok(Some(k)) ==> !k.contains(ValueModel::Null),
{
    if let Some(ps) = rule.positions {
        lemma_values_at_hold_no_null(row, ps);
    }
}

proof fn lemma_values_at_hold_no_null(row: Seq<ValueModel>, ps: Seq<usize>)
    ensures
        values_at(row, ps) matches Ok(Some(vs)) ==> !vs.contains(ValueModel::Null) && vs.len()
            == ps.len(),
    decreases ps.len(),
{
    if ps.len() > 0 {
        lemma_values_at_hold_no_null(row, ps.drop_last());
        if let Ok(Some(vs)) = values_at(row, ps) {
            let prior = values_at(row, ps.drop_last())->Ok_0->Some_0;
            assert forall|i: int| 0 <= i < vs.len() implies vs[i] != ValueModel::Null by {
                if i < prior.len() {
                    assert(vs[i] == prior[i]);
                    assert(prior.contains(prior[i]));
                }
            }
        }
    }
}

/// What a hash join is told.
pub struct HashJoin {
    pub join_type: JoinType,
    pub build_side: HashJoinBuildSide,
    pub probe: KeyRule,
    pub test: spec_fn(TupleModel, TupleModel) -> Result<bool, ErrorModel>,
    pub projection: Option<Seq<usize>>,
    pub left_width: nat,
    pub right_width: nat,
    /// The rows of the build side that have no key.
    pub keyless: Seq<TupleModel>,
}

/// What a build side is held as: the rows with a key by their key, and, where a
/// join hands rows without a partner out, the rows without a key.
#[verifier::ext_equal]
pub struct TableModel {
    pub entries: Seq<Entry>,
    pub keyless: Seq<TupleModel>,
}

/// A table without rows.
pub open spec fn empty_table() -> TableModel {
    TableModel { entries: Seq::empty(), keyless: Seq::empty() }
}

/// The table of a build side: every row under its key, the rows without a key
/// apart where `keep` says so, or the error that ends the rows, or the refusal at
/// the first row that exceeds the cap. Each row costs its size, and one with a key
/// that key and a table entry.
pub open spec fn built(
    s: RowStream,
    table: TableModel,
    used: nat,
    limit: usize,
    rule: KeyRule,
    keep: bool,
) -> Result<TableModel, ErrorModel>
    decreases s.rows.len(),
{
    if s.rows.len() == 0 {
        match s.end {
            Some(e) => Err(e),
            None => Ok(table),
        }
    } else {
        match row_key(rule, s.rows[0].values) {
            Err(e) => Err(e),
            Ok(None) => if !keep {
                built(s.rest(), table, used, limit, rule, keep)
            } else {
                let now = used + join_pair::tuple_size(s.rows[0]);
                if join_pair::capped(now) > limit {
                    Err(join_pair::over_memory(limit))
                } else {
                    built(
                        s.rest(),
                        (TableModel {
                            entries: table.entries,
                            keyless: table.keyless.push(s.rows[0]),
                        }),
                        now,
                        limit,
                        rule,
                        keep,
                    )
                }
            },
            Ok(Some(k)) => {
                let now = used + join_pair::tuple_size(s.rows[0]) + join_table::key_size(k) + 24;
                if join_pair::capped(now) > limit {
                    Err(join_pair::over_memory(limit))
                } else {
                    built(
                        s.rest(),
                        (TableModel {
                            entries: join_table::with_row(table.entries, k, s.rows[0]),
                            keyless: table.keyless,
                        }),
                        now,
                        limit,
                        rule,
                        keep,
                    )
                }
            },
        }
    }
}

/// Rows of the right side, each extended with NULLs.
pub open spec fn all_alone(rows: Seq<TupleModel>, left_width: nat) -> Seq<TupleModel> {
    rows.map_values(|t: TupleModel| join_pair::right_alone(t, left_width))
}

/// One value of a projected pair, NULL where a row is too short.
pub open spec fn projected_value(
    at: usize,
    left: TupleModel,
    right: TupleModel,
    left_width: nat,
) -> ValueModel {
    if at < left_width {
        if at < left.values.len() {
            left.values[at as int]
        } else {
            ValueModel::Null
        }
    } else if at - left_width < right.values.len() {
        right.values[at - left_width]
    } else {
        ValueModel::Null
    }
}

/// The row that a pair gives.
pub open spec fn paired(left: TupleModel, right: TupleModel, join: HashJoin) -> TupleModel {
    match join.projection {
        None => join_pair::combined_row(left, right),
        Some(ps) => schema::loose_row(
            Seq::new(ps.len(), |i: int| projected_value(ps[i], left, right, join.left_width)),
        ),
    }
}

pub open spec fn paired_probe(probe: TupleModel, build: TupleModel, join: HashJoin) -> TupleModel {
    match join.build_side {
        HashJoinBuildSide::Right => paired(probe, build, join),
        HashJoinBuildSide::Left => paired(build, probe, join),
    }
}

pub open spec fn probe_test(probe: TupleModel, build: TupleModel, join: HashJoin) -> Result<
    bool,
    ErrorModel,
> {
    match join.build_side {
        HashJoinBuildSide::Right => (join.test)(probe, build),
        HashJoinBuildSide::Left => (join.test)(build, probe),
    }
}

/// Whether a key was met by a probe row that was joined.
pub open spec fn was_met(met: Seq<Seq<ValueModel>>, key: Seq<ValueModel>) -> bool {
    join_table::first_meeting(met, key, 0) is Some
}

/// Notes that a key was met.
pub open spec fn note_met(met: Seq<Seq<ValueModel>>, key: Seq<ValueModel>) -> Seq<Seq<ValueModel>> {
    if was_met(met, key) {
        met
    } else {
        met.push(key)
    }
}

/// The rows of the table from row `i` of bucket `b` on whose key was not met,
/// each extended with NULLs.
pub open spec fn unmet_rows(
    table: Seq<Entry>,
    met: Seq<Seq<ValueModel>>,
    b: int,
    i: int,
    left_width: nat,
) -> Seq<TupleModel>
    decreases
        table.len() - b,
        (if 0 <= b < table.len() {
            table[b].1.len() - i
        } else {
            0
        }),
{
    if b < 0 || b >= table.len() {
        Seq::empty()
    } else if was_met(met, table[b].0) || i < 0 || i >= table[b].1.len() {
        unmet_rows(table, met, b + 1, 0, left_width)
    } else {
        seq![join_pair::right_alone(table[b].1[i], left_width)] + unmet_rows(
            table,
            met,
            b,
            i + 1,
            left_width,
        )
    }
}

/// The output once the probe rows in `probe` are still to come.
pub open spec fn hash_from_probe(
    probe: RowStream,
    table: Seq<Entry>,
    met: Seq<Seq<ValueModel>>,
    join: HashJoin,
) -> RowStream
    decreases probe.rows.len(), 0int,
{
    if probe.rows.len() == 0 {
        match probe.end {
            Some(e) => operator::failing(e),
            None => if join_pair::keeps_right(join.join_type) {
                operator::just_rows(
                    unmet_rows(table, met, 0, 0, join.left_width) + all_alone(
                        join.keyless,
                        join.left_width,
                    ),
                )
            } else {
                operator::no_rows()
            },
        }
    } else {
        let p = probe.rows[0];
        match row_key(join.probe, p.values) {
            Err(e) => operator::failing(e),
            Ok(None) => alone_or_not(p, hash_from_probe(probe.rest(), table, met, join), join),
            Ok(Some(k)) => match join_table::first_meeting(join_table::entry_keys(table), k, 0) {
                None => alone_or_not(p, hash_from_probe(probe.rest(), table, met, join), join),
                Some(b) => hash_from_bucket(
                    p,
                    k,
                    table[b as int].1,
                    0,
                    false,
                    probe.rest(),
                    table,
                    met,
                    join,
                ),
            },
        }
    }
}

/// A probe row without a partner in front of what follows, where it is kept.
pub open spec fn alone_or_not(p: TupleModel, rest: RowStream, join: HashJoin) -> RowStream {
    if join_pair::keeps_left(join.join_type) {
        rest.after(join_pair::left_alone(p, join.right_width))
    } else {
        rest
    }
}

/// The output while probe row `p` with key `k` is joined with the rows of its
/// bucket from row `i` on; `found` tells whether it already had a partner.
pub open spec fn hash_from_bucket(
    p: TupleModel,
    k: Seq<ValueModel>,
    bucket: Seq<TupleModel>,
    i: int,
    found: bool,
    probe: RowStream,
    table: Seq<Entry>,
    met: Seq<Seq<ValueModel>>,
    join: HashJoin,
) -> RowStream
    decreases
        probe.rows.len(),
        (if i < bucket.len() {
            bucket.len() - i + 1
        } else {
            1int
        }),
{
    if i < 0 || i >= bucket.len() {
        let rest = hash_from_probe(probe, table, met, join);
        if found {
            rest
        } else {
            alone_or_not(p, rest, join)
        }
    } else {
        match probe_test(p, bucket[i], join) {
            Err(e) => operator::failing(e),
            Ok(true) => hash_from_bucket(
                p,
                k,
                bucket,
                i + 1,
                true,
                probe,
                table,
                met_after(found, met, k, join),
                join,
            ).after(paired_probe(p, bucket[i], join)),
            Ok(false) => hash_from_bucket(p, k, bucket, i + 1, found, probe, table, met, join),
        }
    }
}

/// Notes the key of a probe row at its first partner, where that matters.
pub open spec fn met_after(
    found: bool,
    met: Seq<Seq<ValueModel>>,
    k: Seq<ValueModel>,
    join: HashJoin,
) -> Seq<Seq<ValueModel>> {
    if !found && join_pair::keeps_right(join.join_type) {
        note_met(met, k)
    } else {
        met
    }
}

/// The rows of a bucket from row `i` on that pass the test, each paired with
/// the probe row.
pub open spec fn partners(p: TupleModel, bucket: Seq<TupleModel>, i: int, join: HashJoin) -> Seq<
    TupleModel,
>
    decreases bucket.len() - i,
{
    if i < 0 || i >= bucket.len() {
        Seq::empty()
    } else if probe_test(p, bucket[i], join) == Ok::<bool, ErrorModel>(true) {
        seq![paired_probe(p, bucket[i], join)] + partners(p, bucket, i + 1, join)
    } else {
        partners(p, bucket, i + 1, join)
    }
}

/// The rows that one probe row gives.
pub open spec fn probe_rows(p: TupleModel, table: Seq<Entry>, join: HashJoin) -> Seq<TupleModel> {
    let found = match row_key(join.probe, p.values) {
        Ok(Some(k)) => match join_table::first_meeting(join_table::entry_keys(table), k, 0) {
            Some(b) => partners(p, table[b as int].1, 0, join),
            None => Seq::empty(),
        },
        _ => Seq::empty(),
    };
    if found.len() == 0 && join_pair::keeps_left(join.join_type) {
        seq![join_pair::left_alone(p, join.right_width)]
    } else {
        found
    }
}

/// The rows that all probe rows give, in their order.
pub open spec fn all_probe_rows(ps: Seq<TupleModel>, table: Seq<Entry>, join: HashJoin) -> Seq<
    TupleModel,
>
    decreases ps.len(),
{
    if ps.len() == 0 {
        Seq::empty()
    } else {
        probe_rows(ps[0], table, join) + all_probe_rows(ps.drop_first(), table, join)
    }
}

/// Whether the test fails on no pair of a probe row with rows of a bucket.
pub open spec fn bucket_never_fails(
    p: TupleModel,
    bucket: Seq<TupleModel>,
    join: HashJoin,
) -> bool {
    forall|i: int| 0 <= i < bucket.len() ==> probe_test(p, #[trigger] bucket[i], join) is Ok
}

/// Whether neither the key of a probe row nor the test of a pair with it fails.
pub open spec fn row_never_fails(p: TupleModel, table: Seq<Entry>, join: HashJoin) -> bool {
    &&& row_key(join.probe, p.values) is Ok
    &&& forall|b: int|
        0 <= b < table.len() ==> bucket_never_fails(p, (#[trigger] table[b]).1, join)
}

/// A join of given rows in which neither a key nor a test fails.
pub open spec fn hash_never_fails(
    ps: Seq<TupleModel>,
    table: Seq<Entry>,
    join: HashJoin,
) -> bool {
    forall|k: int| 0 <= k < ps.len() ==> row_never_fails(#[trigger] ps[k], table, join)
}

proof fn lemma_bucket_rows(
    p: TupleModel,
    k: Seq<ValueModel>,
    bucket: Seq<TupleModel>,
    i: int,
    found: bool,
    ps: Seq<TupleModel>,
    table: Seq<Entry>,
    met: Seq<Seq<ValueModel>>,
    join: HashJoin,
)
    requires
        bucket_never_fails(p, bucket, join),
        !join_pair::keeps_right(join.join_type),
        0 <= i <= bucket.len(),
    ensures
        ({
            let whole = hash_from_bucket(
                p,
                k,
                bucket,
                i,
                found,
                operator::just_rows(ps),
                table,
                met,
                join,
            );
            let rest = hash_from_probe(operator::just_rows(ps), table, met, join);
            let own = partners(p, bucket, i, join);
            &&& whole.end == rest.end
            &&& whole.rows == (if !found && own.len() == 0 && join_pair::keeps_left(
                join.join_type,
            ) {
                seq![join_pair::left_alone(p, join.right_width)]
            } else {
                own
            }) + rest.rows
        }),
    decreases bucket.len() - i,
{
    let rest = hash_from_probe(operator::just_rows(ps), table, met, join);
    if i == bucket.len() {
        assert(Seq::<TupleModel>::empty() + rest.rows =~= rest.rows);
    } else {
        let t = probe_test(p, bucket[i], join);
        assert(t is Ok);
        if t == Ok::<bool, ErrorModel>(true) {
            lemma_bucket_rows(p, k, bucket, i + 1, true, ps, table, met, join);
            let own = partners(p, bucket, i + 1, join);
            let head = seq![paired_probe(p, bucket[i], join)];
            assert(head + (own + rest.rows) =~= (head + own) + rest.rows);
        } else {
            lemma_bucket_rows(p, k, bucket, i + 1, found, ps, table, met, join);
        }
    }
}

/// Where nothing fails on the rows at hand, an inner or left join gives for each probe row, in
/// order, its partners in the order in which they were built, or the row alone
/// where the join keeps it.
pub proof fn law_hash_join_rows(
    ps: Seq<TupleModel>,
    table: Seq<Entry>,
    met: Seq<Seq<ValueModel>>,
    join: HashJoin,
)
    requires
        hash_never_fails(ps, table, join),
        !join_pair::keeps_right(join.join_type),
        table.len() <= usize::MAX,
    ensures
        hash_from_probe(operator::just_rows(ps), table, met, join) == operator::just_rows(
            all_probe_rows(ps, table, join),
        ),
    decreases ps.len(),
{
    let whole = hash_from_probe(operator::just_rows(ps), table, met, join);
    if ps.len() == 0 {
        assert(whole =~= operator::just_rows(all_probe_rows(ps, table, join)));
    } else {
        let p = ps[0];
        let rest = ps.drop_first();
        assert(row_never_fails(ps[0], table, join));
        assert forall|k: int| 0 <= k < rest.len() implies row_never_fails(
            #[trigger] rest[k],
            table,
            join,
        ) by {
            assert(rest[k] == ps[k + 1]);
        }
        law_hash_join_rows(rest, table, met, join);
        assert(operator::just_rows(ps).rest() =~= operator::just_rows(rest));
        let k = row_key(join.probe, p.values);
        assert(k is Ok);
        let others = all_probe_rows(rest, table, join);
        match k {
            Ok(Some(key)) => {
                match join_table::first_meeting(join_table::entry_keys(table), key, 0) {
                    Some(b) => {
                        join_table::lemma_first_meeting_in_range(
                            join_table::entry_keys(table),
                            key,
                            0,
                        );
                        assert(bucket_never_fails(p, table[b as int].1, join));
                        lemma_bucket_rows(
                            p,
                            key,
                            table[b as int].1,
                            0,
                            false,
                            rest,
                            table,
                            met,
                            join,
                        );
                    },
                    None => {
                        assert(Seq::<TupleModel>::empty() + others =~= others);
                    },
                }
            },
            _ => {
                assert(Seq::<TupleModel>::empty() + others =~= others);
            },
        }
        assert(whole =~= operator::just_rows(all_probe_rows(ps, table, join)));
    }
}

#[derive(Clone, Copy, PartialEq, Eq, Structural)]
enum JoinState {
    Probing,
    EmittingUnmatched,
    Exhausted,
}

/// Joins by looking the rows of one input up in a table of the other input.
pub struct HashJoinOperator<P: PhysicalOperator + ?Sized> {
    probe: Box<P>,
    join_type: JoinType,
    on_condition: Option<LogicalExpr>,
    pair_residual: Option<LogicalExpr>,
    pair_residual_on_pair: bool,
    hash_table: JoinTable,
    output_schema: Arc<Schema>,
    evaluator: Evaluator,
    left_evaluator: Evaluator,
    right_evaluator: Evaluator,
    direct_key_indices: Option<DirectJoinKeyIndices>,
    left_keys: Vec<LogicalExpr>,
    right_keys: Vec<LogicalExpr>,
    build_side: HashJoinBuildSide,
    state: JoinState,
    current_probe: Option<Tuple>,
    current_key: Option<JoinKey>,
    current_bucket: usize,
    match_index: usize,
    current_match_found: bool,
    pure_equi_join: bool,
    output_projection: Option<Vec<usize>>,
    met_keys: KeyIndex,
    unmet_bucket: usize,
    unmet_index: usize,
    keyless_rows: Vec<Tuple>,
    keyless_index: usize,
    right_column_count: usize,
    left_column_count: usize,
    timeout_ctx: Option<TimeoutContext>,
}

/// The left or the right part of bound pairs.
pub open spec fn side_exprs(pairs: Seq<(ExprModel, ExprModel)>, on_right: bool) -> Seq<ExprModel> {
    Seq::new(
        pairs.len(),
        |i: int|
            if on_right {
                pairs[i].1
            } else {
                pairs[i].0
            },
    )
}

/// The key rule of one input.
pub open spec fn side_rule(
    direct: Option<(Seq<usize>, Seq<usize>)>,
    pairs: Seq<(ExprModel, ExprModel)>,
    keyless: bool,
    cols: Seq<ColumnModel>,
    params: Seq<ValueModel>,
    on_right: bool,
) -> KeyRule {
    KeyRule {
        positions: match direct {
            Some(d) => Some(
                if on_right {
                    d.1
                } else {
                    d.0
                },
            ),
            None => None,
        },
        exprs: side_exprs(pairs, on_right),
        keyless,
        cols,
        params,
    }
}

/// What is tested on each pair whose keys meet: nothing where the keys express
/// the whole condition, else the part that they do not, else the condition.
pub open spec fn pair_check(
    on: Option<ExprModel>,
    residual: Option<ExprModel>,
    covered: bool,
    cols: Seq<ColumnModel>,
    params: Seq<ValueModel>,
) -> spec_fn(TupleModel, TupleModel) -> Result<bool, ErrorModel> {
    if residual is Some {
        nested_loop::pair_tester(residual, cols, params)
    } else if covered && join_keys::only_equalities(on) {
        nested_loop::pair_tester(None, cols, params)
    } else {
        nested_loop::pair_tester(on, cols, params)
    }
}

/// The keys of a join: those decided before, or those of the condition.
pub struct KeyChoice {
    pub direct: Option<(Seq<usize>, Seq<usize>)>,
    pub pairs: Seq<(ExprModel, ExprModel)>,
    pub covered: bool,
}

pub open spec fn chosen_keys(
    prebound: Option<PreboundJoinKeys>,
    on: Option<ExprModel>,
    left: Seq<ColumnModel>,
    right: Seq<ColumnModel>,
) -> KeyChoice {
    match prebound {
        Some(k) => KeyChoice {
            direct: join_keys::indices_model(k.direct_key_indices),
            pairs: join_keys::key_pairs_model(k.bound_key_pairs@),
            covered: k.keys_cover_condition,
        },
        None => match on {
            None => KeyChoice { direct: None, pairs: Seq::empty(), covered: true },
            Some(c) => {
                let direct = join_keys::direct_keys(c, left, right);
                if direct is Some {
                    KeyChoice { direct, pairs: Seq::empty(), covered: true }
                } else {
                    KeyChoice {
                        direct: None,
                        pairs: join_keys::bound_pairs(c, left, right),
                        covered: join_keys::residual_terms(c, left, right).len() == 0,
                    }
                }
            },
        },
    }
}

/// One input of a join: its rows and its columns.
pub struct JoinInput {
    pub rows: RowStream,
    pub cols: Seq<ColumnModel>,
}

/// What a hash join of two inputs is told.
pub open spec fn hash_join_of(
    left: Seq<ColumnModel>,
    right: Seq<ColumnModel>,
    join_type: JoinType,
    on: Option<ExprModel>,
    residual: Option<ExprModel>,
    params: Seq<ValueModel>,
    keys: KeyChoice,
    build_side: HashJoinBuildSide,
    projection: Option<Seq<usize>>,
    keyless: Seq<TupleModel>,
) -> HashJoin {
    HashJoin {
        join_type,
        build_side,
        probe: match build_side {
            HashJoinBuildSide::Right => side_rule(
                keys.direct,
                keys.pairs,
                on is None,
                left,
                params,
                false,
            ),
            HashJoinBuildSide::Left => side_rule(
                keys.direct,
                keys.pairs,
                on is None,
                right,
                params,
                true,
            ),
        },
        test: pair_check(on, residual, keys.covered, left + right, params),
        projection,
        left_width: left.len(),
        right_width: right.len(),
        keyless,
    }
}

/// The table that a hash join of two inputs builds.
pub open spec fn table_of(
    left: JoinInput,
    right: JoinInput,
    on: Option<ExprModel>,
    params: Seq<ValueModel>,
    keys: KeyChoice,
    build_side: HashJoinBuildSide,
    limit: usize,
    join_type: JoinType,
) -> Result<TableModel, ErrorModel> {
    match build_side {
        HashJoinBuildSide::Right => built(
            right.rows,
            empty_table(),
            0,
            limit,
            side_rule(keys.direct, keys.pairs, on is None, right.cols, params, true),
            join_pair::keeps_right(join_type),
        ),
        HashJoinBuildSide::Left => built(
            left.rows,
            empty_table(),
            0,
            limit,
            side_rule(keys.direct, keys.pairs, on is None, left.cols, params, false),
            join_pair::keeps_right(join_type),
        ),
    }
}

/// The output of a hash join of two inputs over a built table.
pub open spec fn hash_joined(
    left: JoinInput,
    right: JoinInput,
    table: Seq<Entry>,
    join: HashJoin,
) -> RowStream {
    hash_from_probe(
        match join.build_side {
            HashJoinBuildSide::Right => left.rows,
            HashJoinBuildSide::Left => right.rows,
        },
        table,
        Seq::empty(),
        join,
    )
}

fn split_pairs(pairs: &Vec<BoundJoinKeyPair>, on_right: bool) -> (r: Vec<LogicalExpr>)
    ensures
        logical_plan::exprs_model(r@) == side_exprs(
            join_keys::key_pairs_model(pairs@),
            on_right,
        ),
{
    let mut out: Vec<LogicalExpr> = Vec::new();
    for i in 0..pairs.len()
        invariant
            out.len() == i,
            forall|j: int|
                0 <= j < i ==> (#[trigger] out@[j])@ == (if on_right {
                    pairs@[j].right@
                } else {
                    pairs@[j].left@
                }),
    {
        if on_right {
            out.push(pairs[i].right.clone());
        } else {
            out.push(pairs[i].left.clone());
        }
    }
    proof {
        logical_plan::lemma_exprs_model(out@);
        assert(logical_plan::exprs_model(out@) =~= side_exprs(
            join_keys::key_pairs_model(pairs@),
            on_right,
        ));
    }
    out
}

/// The rule of `extract_key`, read off its arguments.
spec fn rule_of(
    positions: Option<&Vec<usize>>,
    exprs: Seq<LogicalExpr>,
    keyless: bool,
    evaluator: Evaluator,
) -> KeyRule {
    KeyRule {
        positions: match positions {
            Some(p) => Some(p@),
            None => None,
        },
        exprs: logical_plan::exprs_model(exprs),
        keyless,
        cols: evaluator.columns(),
        params: evaluator.params(),
    }
}

spec fn key_result(r: Result<Option<JoinKey>, Error>) -> Result<
    Option<Seq<ValueModel>>,
    ErrorModel,
> {
    match r {
        Ok(Some(k)) => Ok(Some(k@)),
        Ok(None) => Ok(None),
        Err(e) => Err(e@),
    }
}

proof fn lemma_values_at_stop(row: Seq<ValueModel>, ps: Seq<usize>, n: int)
    requires
        0 <= n <= ps.len(),
        values_at(row, ps.take(n)) is Err || values_at(row, ps.take(n)) == Ok::<
            Option<Seq<ValueModel>>,
            ErrorModel,
        >(None),
    ensures
        values_at(row, ps) == values_at(row, ps.take(n)),
    decreases ps.len() - n,
{
    if n < ps.len() {
        assert(ps.take(n + 1).drop_last() =~= ps.take(n));
        lemma_values_at_stop(row, ps, n + 1);
    } else {
        assert(ps.take(n) =~= ps);
    }
}

/// Finds the key of a row.
fn extract_key(
    positions: Option<&Vec<usize>>,
    exprs: &Vec<LogicalExpr>,
    keyless: bool,
    evaluator: &Evaluator,
    tuple: &Tuple,
) -> (r: Result<Option<JoinKey>, Error>)
    ensures
        key_result(r) == row_key(
            rule_of(positions, exprs@, keyless, *evaluator),
            tuple@.values,
        ),
        r matches Ok(Some(k)) ==> k.normal(),
{
    match positions {
        Some(ps) => {
            let ghost row = tuple@.values;
            let mut values: Vec<Value> = Vec::new();
            assert(ps@.take(0) =~= Seq::<usize>::empty());
            assert(value::values_model(values@) =~= Seq::<ValueModel>::empty());
            for i in 0..ps.len()
                invariant
                    row == tuple@.values,
                    positions == Some(ps),
                    values_at(row, ps@.take(i as int)) == Ok::<Option<Seq<ValueModel>>, ErrorModel>(
                        Some(value::values_model(values@)),
                    ),
            {
                let ghost next = ps@.take(i + 1);
                assert(next.drop_last() =~= ps@.take(i as int));
                assert(next.last() == ps@[i as int]);
                let v: Value = match tuple.get(ps[i]) {
                    Some(v) => v.clone(),
                    None => {
                        proof {
                            lemma_values_at_stop(row, ps@, i + 1);
                        }
                        return Err(key_out_of_bounds_error());
                    },
                };
                if let Value::Null = v {
                    proof {
                        lemma_values_at_stop(row, ps@, i + 1);
                    }
                    return Ok(None);
                }
                proof {
                    value::lemma_values_model_push(values@, v);
                }
                values.push(v);
            }
            assert(ps@.take(ps.len() as int) =~= ps@);
            Ok(Some(JoinKey::from_values(values)))
        },
        None => {
            if keyless {
                let k: JoinKey = JoinKey::Composite(Vec::new());
                assert(k@ =~= Seq::<ValueModel>::empty());
                return Ok(Some(k));
            }
            let values: Vec<Value> = match evaluator.evaluate_all(exprs, tuple) {
                Ok(vs) => vs,
                Err(e) => {
                    return Err(e);
                },
            };
            let ghost all = value::values_model(values@);
            for i in 0..values.len()
                invariant
                    positions is None,
                    !keyless,
                    all == value::values_model(values@),
                    evaluator::eval_all(
                        logical_plan::exprs_model(exprs@),
                        evaluator.columns(),
                        evaluator.params(),
                        tuple@.values,
                    ) == Ok::<Seq<ValueModel>, ErrorModel>(all),
                    forall|j: int| 0 <= j < i ==> #[trigger] all[j] != ValueModel::Null,
            {
                proof {
                    value::lemma_values_model(values@);
                }
                if let Value::Null = &values[i] {
                    assert(all[i as int] == ValueModel::Null);
                    assert(all.contains(ValueModel::Null));
                    return Ok(None);
                }
                assert(all[i as int] != ValueModel::Null);
            }
            proof {
                value::lemma_values_model(values@);
            }
            assert(!all.contains(ValueModel::Null));
            Ok(Some(JoinKey::from_values(values)))
        },
    }
}

/// Builds the table of one input.
fn build_table<B: PhysicalOperator + ?Sized>(
    input: &mut Box<B>,
    positions: Option<&Vec<usize>>,
    exprs: &Vec<LogicalExpr>,
    keyless: bool,
    evaluator: &Evaluator,
    memory_limit: usize,
    timeout_ctx: &Option<TimeoutContext>,
    keep: bool,
) -> (r: Result<(JoinTable, Vec<Tuple>), Error>)
    requires
        old(input).ready(),
    ensures
        ({
            let table = built(
                old(input).stream(),
                empty_table(),
                0,
                memory_limit,
                rule_of(positions, exprs@, keyless, *evaluator),
                keep,
            );
            match r {
                Ok(t) => t.0.wf() && table == Ok::<TableModel, ErrorModel>(
                    (TableModel { entries: t.0@, keyless: schema::rows_model(t.1@) }),
                ),
                Err(e) => {
                    ||| operator::timed_out(
                        operator::with_limit_of(old(input).limits(), *timeout_ctx),
                        e@,
                    )
                    ||| table == Err::<TableModel, ErrorModel>(e@)
                },
            }
        }),
{
    let ghost whole = input.stream();
    let ghost limited = input.limits();
    let ghost rule = rule_of(positions, exprs@, keyless, *evaluator);
    let ghost mut used: nat = 0;
    let mut memory_used: usize = 0;
    let mut table: JoinTable = JoinTable::new();
    let mut alone: Vec<Tuple> = Vec::new();
    assert((TableModel { entries: table@, keyless: schema::rows_model(alone@) })
        =~= empty_table());
    loop
        invariant
            input.ready(),
            input.limits() == limited,
            whole == old(input).stream(),
            limited == old(input).limits(),
            table.wf(),
            rule == rule_of(positions, exprs@, keyless, *evaluator),
            memory_used == join_pair::capped(used),
            built(
                input.stream(),
                (TableModel { entries: table@, keyless: schema::rows_model(alone@) }),
                used,
                memory_limit,
                rule,
                keep,
            ) == built(whole, empty_table(), 0, memory_limit, rule, keep),
        decreases input.stream().rows.len(),
    {
        let tuple: Tuple = match input.next() {
            Err(e) => {
                return Err(e);
            },
            Ok(None) => {
                return Ok((table, alone));
            },
            Ok(Some(t)) => t,
        };
        match operator::check_time(timeout_ctx) {
            Ok(_) => {},
            Err(e) => {
                return Err(e);
            },
        }
        let key: JoinKey = match extract_key(positions, exprs, keyless, evaluator, &tuple) {
            Err(e) => {
                return Err(e);
            },
            Ok(None) => {
                if keep {
                    memory_used = memory_used.saturating_add(
                        join_pair::estimate_tuple_size(&tuple),
                    );
                    proof {
                        used = used + join_pair::tuple_size(tuple@);
                    }
                    if memory_used > memory_limit {
                        return Err(join_pair::join_memory_limit_exceeded(memory_limit));
                    }
                    let ghost before = schema::rows_model(alone@);
                    alone.push(tuple);
                    assert(schema::rows_model(alone@) =~= before.push(tuple@));
                }
                continue;
            },
            Ok(Some(k)) => k,
        };
        memory_used = memory_used.saturating_add(
            join_pair::estimate_tuple_size(&tuple),
        ).saturating_add(join_table::estimate_key_size(&key)).saturating_add(24);
        proof {
            used = used + join_pair::tuple_size(tuple@) + join_table::key_size(key@) + 24;
        }
        if memory_used > memory_limit {
            return Err(join_pair::join_memory_limit_exceeded(memory_limit));
        }
        table.insert(key, tuple);
    }
}

/// Whether a residual, its columns bound, is tested on pairs as they stand.
pub open spec fn residual_works_on_pair(residual: Option<ExprModel>, cols: Seq<ColumnModel>) -> bool {
    match residual {
        Some(c) => join_pair::works_on_pair(evaluator::bind_expr(c, cols)),
        None => false,
    }
}

/// What belongs to the input that a hash join walks row by row.
pub open spec fn probed(left: Set<u64>, right: Set<u64>, side: HashJoinBuildSide) -> Set<u64> {
    match side {
        HashJoinBuildSide::Right => left,
        HashJoinBuildSide::Left => right,
    }
}

/// What belongs to the input that a hash join holds in memory.
pub open spec fn held(left: Set<u64>, right: Set<u64>, side: HashJoinBuildSide) -> Set<u64> {
    match side {
        HashJoinBuildSide::Right => right,
        HashJoinBuildSide::Left => left,
    }
}

/// What a hash join operator promises of the inputs it was built from: it hands
/// out the joined rows under the time limits `limits`; building it may exceed
/// one of the limits `building`.
pub open spec fn hash_result<P: PhysicalOperator + ?Sized>(
    r: Result<HashJoinOperator<P>, Error>,
    left: JoinInput,
    right: JoinInput,
    join_type: JoinType,
    on: Option<ExprModel>,
    residual: Option<ExprModel>,
    params: Seq<ValueModel>,
    keys: KeyChoice,
    build_side: HashJoinBuildSide,
    projection: Option<Seq<usize>>,
    columns: Seq<ColumnModel>,
    limit: usize,
    limits: Set<u64>,
    building: Set<u64>,
) -> bool {
    let table = table_of(left, right, on, params, keys, build_side, limit, join_type);
    match r {
        Ok(op) => {
            &&& op.ready()
            &&& op.columns() == columns
            &&& op.limits() == limits
            &&& op.tests_on_pair() == residual_works_on_pair(residual, left.cols + right.cols)
            &&& table is Ok
            &&& op.stream() == hash_joined(
                left,
                right,
                table->Ok_0.entries,
                hash_join_of(
                    left.cols,
                    right.cols,
                    join_type,
                    on,
                    residual,
                    params,
                    keys,
                    build_side,
                    projection,
                    table->Ok_0.keyless,
                ),
            )
        },
        Err(e) => {
            ||| operator::timed_out(building, e@)
            ||| table == Err::<TableModel, ErrorModel>(e@)
        },
    }
}

/// The columns of a join: those given, else those of both inputs.
pub open spec fn shown_columns(given: Option<Arc<Schema>>, both: Seq<ColumnModel>) -> Seq<
    ColumnModel,
> {
    match given {
        Some(s) => s@,
        None => both,
    }
}

/// An operator as an input of a join.
pub open spec fn input_of<O: PhysicalOperator + ?Sized>(op: Box<O>) -> JoinInput {
    JoinInput { rows: op.stream(), cols: op.columns() }
}

/// The rows of one input looked up in the table of the other, with all that is
/// decided before the table is built.
struct Prepared {
    output_schema: Arc<Schema>,
    evaluator: Evaluator,
    left_evaluator: Evaluator,
    right_evaluator: Evaluator,
    direct_key_indices: Option<DirectJoinKeyIndices>,
    left_keys: Vec<LogicalExpr>,
    right_keys: Vec<LogicalExpr>,
    pure_equi_join: bool,
    pair_residual: Option<LogicalExpr>,
    pair_residual_on_pair: bool,
    left_column_count: usize,
    right_column_count: usize,
}

spec fn prepared_for(
    p: Prepared,
    left: Seq<ColumnModel>,
    right: Seq<ColumnModel>,
    on: Option<ExprModel>,
    residual: Option<ExprModel>,
    params: Seq<ValueModel>,
    keys: KeyChoice,
    columns: Seq<ColumnModel>,
) -> bool {
    &&& p.output_schema@ == columns
    &&& p.evaluator.columns() == left + right
    &&& p.evaluator.params() == params
    &&& p.left_evaluator.columns() == left
    &&& p.left_evaluator.params() == params
    &&& p.right_evaluator.columns() == right
    &&& p.right_evaluator.params() == params
    &&& join_keys::indices_model(p.direct_key_indices) == keys.direct
    &&& logical_plan::exprs_model(p.left_keys@) == side_exprs(keys.pairs, false)
    &&& logical_plan::exprs_model(p.right_keys@) == side_exprs(keys.pairs, true)
    &&& p.pure_equi_join == (residual is None && keys.covered && join_keys::only_equalities(on))
    &&& p.pair_residual is Some == residual is Some
    &&& residual is Some ==> nested_loop::pair_tester(
        logical_plan::opt_expr(p.pair_residual),
        left + right,
        params,
    ) == nested_loop::pair_tester(residual, left + right, params)
    &&& p.pair_residual_on_pair ==> p.pair_residual is Some && join_pair::works_on_pair(
        p.pair_residual->Some_0@,
    )
    &&& p.pair_residual_on_pair == residual_works_on_pair(residual, left + right)
    &&& p.left_column_count == left.len()
    &&& p.right_column_count == right.len()
}

fn prepare(
    left_schema: Arc<Schema>,
    right_schema: Arc<Schema>,
    on_condition: &Option<LogicalExpr>,
    parameters: Vec<Value>,
    projected_output_schema: Option<Arc<Schema>>,
    prebound_keys: Option<PreboundJoinKeys>,
    pair_residual: Option<LogicalExpr>,
) -> (r: Prepared)
    ensures
        prepared_for(
            r,
            left_schema@,
            right_schema@,
            logical_plan::opt_expr(*on_condition),
            logical_plan::opt_expr(pair_residual),
            value::values_model(parameters@),
            chosen_keys(
                prebound_keys,
                logical_plan::opt_expr(*on_condition),
                left_schema@,
                right_schema@,
            ),
            shown_columns(projected_output_schema, left_schema@ + right_schema@),
        ),
{
    let ghost given = logical_plan::opt_expr(pair_residual);
    let left_column_count: usize = left_schema.columns.len();
    let right_column_count: usize = right_schema.columns.len();
    let combined: Arc<Schema> = Arc::new(join_pair::combined_schema(&left_schema, &right_schema));
    let output_schema: Arc<Schema> = match projected_output_schema {
        Some(s) => s,
        None => combined.clone(),
    };
    let (direct_key_indices, bound_key_pairs, covered): (
        Option<DirectJoinKeyIndices>,
        Vec<BoundJoinKeyPair>,
        bool,
    ) = match prebound_keys {
        Some(k) => (k.direct_key_indices, k.bound_key_pairs, k.keys_cover_condition),
        None => match on_condition {
            None => (None, Vec::new(), true),
            Some(c) => {
                match join_keys::build_direct_join_key_indices(c, &left_schema, &right_schema) {
                    Some(d) => (Some(d), Vec::new(), true),
                    None => {
                        let bound: (Vec<BoundJoinKeyPair>, bool) =
                            join_keys::bind_hash_join_key_pairs(c, &left_schema, &right_schema);
                        (None, bound.0, bound.1)
                    },
                }
            },
        },
    };
    let ghost keys = chosen_keys(
        prebound_keys,
        logical_plan::opt_expr(*on_condition),
        left_schema@,
        right_schema@,
    );
    assert(join_keys::key_pairs_model(bound_key_pairs@) =~= keys.pairs);
    let pure_equi_join: bool = pair_residual.is_none() && covered && join_keys::is_pure_equi_join(
        on_condition,
    );
    let left_parameters: Vec<Value> = value::clone_values(&parameters);
    let right_parameters: Vec<Value> = value::clone_values(&parameters);
    let evaluator: Evaluator = Evaluator::with_parameters(combined, parameters);
    let left_evaluator: Evaluator = Evaluator::with_parameters(left_schema, left_parameters);
    let right_evaluator: Evaluator = Evaluator::with_parameters(right_schema, right_parameters);
    let pair_residual: Option<LogicalExpr> = match pair_residual {
        Some(c) => Some(evaluator.bind(c)),
        None => None,
    };
    proof {
        if let Some(c) = given {
            nested_loop::lemma_bound_tester(c, evaluator.columns(), evaluator.params());
        }
    }
    let pair_residual_on_pair: bool = match &pair_residual {
        Some(c) => join_pair::pair_evaluable(c),
        None => false,
    };
    let left_keys: Vec<LogicalExpr> = split_pairs(&bound_key_pairs, false);
    let right_keys: Vec<LogicalExpr> = split_pairs(&bound_key_pairs, true);
    Prepared {
        output_schema,
        evaluator,
        left_evaluator,
        right_evaluator,
        direct_key_indices,
        left_keys,
        right_keys,
        pure_equi_join,
        pair_residual,
        pair_residual_on_pair,
        left_column_count,
        right_column_count,
    }
}

fn left_positions(d: &Option<DirectJoinKeyIndices>) -> (r: Option<&Vec<usize>>)
    ensures
        r is Some == d is Some,
        r matches Some(v) ==> *v == d->Some_0.left,
{
    match d {
        Some(k) => Some(&k.left),
        None => None,
    }
}

fn right_positions(d: &Option<DirectJoinKeyIndices>) -> (r: Option<&Vec<usize>>)
    ensures
        r is Some == d is Some,
        r matches Some(v) ==> *v == d->Some_0.right,
{
    match d {
        Some(k) => Some(&k.right),
        None => None,
    }
}

fn assemble<P: PhysicalOperator + ?Sized>(
    probe: Box<P>,
    p: Prepared,
    table: JoinTable,
    keyless_rows: Vec<Tuple>,
    join_type: JoinType,
    on_condition: Option<LogicalExpr>,
    build_side: HashJoinBuildSide,
    output_projection: Option<Vec<usize>>,
    timeout_ctx: Option<TimeoutContext>,
    Ghost(left): Ghost<Seq<ColumnModel>>,
    Ghost(right): Ghost<Seq<ColumnModel>>,
    Ghost(residual): Ghost<Option<ExprModel>>,
    Ghost(params): Ghost<Seq<ValueModel>>,
    Ghost(keys): Ghost<KeyChoice>,
    Ghost(columns): Ghost<Seq<ColumnModel>>,
) -> (r: HashJoinOperator<P>)
    requires
        probe.ready(),
        table.wf(),
        prepared_for(
            p,
            left,
            right,
            logical_plan::opt_expr(on_condition),
            residual,
            params,
            keys,
            columns,
        ),
    ensures
        r.ready(),
        r.columns() == columns,
        r.limits() == operator::with_limit_of(probe.limits(), timeout_ctx),
        r.tests_on_pair() == residual_works_on_pair(residual, left + right),
        r.stream() == hash_from_probe(
            probe.stream(),
            table@,
            Seq::empty(),
            hash_join_of(
                left,
                right,
                join_type,
                logical_plan::opt_expr(on_condition),
                residual,
                params,
                keys,
                build_side,
                logical_plan::opt_positions(output_projection),
                schema::rows_model(keyless_rows@),
            ),
        ),
{
    let r: HashJoinOperator<P> = HashJoinOperator {
        probe,
        join_type,
        on_condition,
        pair_residual: p.pair_residual,
        pair_residual_on_pair: p.pair_residual_on_pair,
        hash_table: table,
        output_schema: p.output_schema,
        evaluator: p.evaluator,
        left_evaluator: p.left_evaluator,
        right_evaluator: p.right_evaluator,
        direct_key_indices: p.direct_key_indices,
        left_keys: p.left_keys,
        right_keys: p.right_keys,
        build_side,
        state: JoinState::Probing,
        current_probe: None,
        current_key: None,
        current_bucket: 0,
        match_index: 0,
        current_match_found: false,
        pure_equi_join: p.pure_equi_join,
        output_projection,
        met_keys: KeyIndex::new(),
        unmet_bucket: 0,
        unmet_index: 0,
        keyless_rows,
        keyless_index: 0,
        right_column_count: p.right_column_count,
        left_column_count: p.left_column_count,
        timeout_ctx,
    };
    let ghost want = hash_join_of(
        left,
        right,
        join_type,
        logical_plan::opt_expr(on_condition),
        residual,
        params,
        keys,
        build_side,
        logical_plan::opt_positions(output_projection),
        schema::rows_model(keyless_rows@),
    );
    assert(r.join().probe =~= want.probe);
    assert(r.join().test == want.test);
    assert(r.join() == want);
    r
}

/// Joins two inputs, the right one held in memory.
fn hash_join_build_right<L: PhysicalOperator + ?Sized, R: PhysicalOperator + ?Sized>(
    left: Box<L>,
    right: Box<R>,
    join_type: JoinType,
    on_condition: Option<LogicalExpr>,
    parameters: Vec<Value>,
    memory_limit: usize,
    timeout_ctx: Option<TimeoutContext>,
    output_projection: Option<Vec<usize>>,
    projected_output_schema: Option<Arc<Schema>>,
    prebound_keys: Option<PreboundJoinKeys>,
    pair_residual: Option<LogicalExpr>,
) -> (r: Result<HashJoinOperator<L>, Error>)
    requires
        left.ready(),
        right.ready(),
    ensures
        hash_result(
            r,
            input_of(left),
            input_of(right),
            join_type,
            logical_plan::opt_expr(on_condition),
            logical_plan::opt_expr(pair_residual),
            value::values_model(parameters@),
            chosen_keys(
                prebound_keys,
                logical_plan::opt_expr(on_condition),
                left.columns(),
                right.columns(),
            ),
            HashJoinBuildSide::Right,
            logical_plan::opt_positions(output_projection),
            shown_columns(projected_output_schema, left.columns() + right.columns()),
            memory_limit,
            operator::with_limit_of(probed(left.limits(), right.limits(), HashJoinBuildSide::Right), timeout_ctx),
            operator::with_limit_of(held(left.limits(), right.limits(), HashJoinBuildSide::Right), timeout_ctx),
        ),
{
    let ghost on = logical_plan::opt_expr(on_condition);
    let ghost params = value::values_model(parameters@);
    let ghost residual = logical_plan::opt_expr(pair_residual);
    let ghost keys = chosen_keys(prebound_keys, on, left.columns(), right.columns());
    let ghost columns = shown_columns(projected_output_schema, left.columns() + right.columns());
    let ghost lc = left.columns();
    let ghost rc = right.columns();
    let left_schema: Arc<Schema> = left.schema();
    let right_schema: Arc<Schema> = right.schema();
    let p: Prepared = prepare(
        left_schema,
        right_schema,
        &on_condition,
        parameters,
        projected_output_schema,
        prebound_keys,
        pair_residual,
    );
    let mut source: Box<R> = right;
    let keyless: bool = on_condition.is_none();
    assert(rule_of(
        match p.direct_key_indices {
            Some(k) => Some(&k.right),
            None => None,
        },
        p.right_keys@,
        keyless,
        p.right_evaluator,
    ) =~= side_rule(keys.direct, keys.pairs, on is None, rc, params, true));
    let (table, keyless_rows): (JoinTable, Vec<Tuple>) = match build_table(
        &mut source,
        right_positions(&p.direct_key_indices),
        &p.right_keys,
        keyless,
        &p.right_evaluator,
        memory_limit,
        &timeout_ctx,
        join_pair::is_right_outer(join_type),
    ) {
        Ok(t) => t,
        Err(e) => {
            return Err(e);
        },
    };
    Ok(
        assemble(
            left,
            p,
            table,
            keyless_rows,
            join_type,
            on_condition,
            HashJoinBuildSide::Right,
            output_projection,
            timeout_ctx,
            Ghost(lc),
            Ghost(rc),
            Ghost(residual),
            Ghost(params),
            Ghost(keys),
            Ghost(columns),
        ),
    )
}

/// Joins two inputs, the left one held in memory. The columns come in the same
/// order as with the right one in memory.
fn hash_join_build_left<L: PhysicalOperator + ?Sized, R: PhysicalOperator + ?Sized>(
    left: Box<L>,
    right: Box<R>,
    join_type: JoinType,
    on_condition: Option<LogicalExpr>,
    parameters: Vec<Value>,
    memory_limit: usize,
    timeout_ctx: Option<TimeoutContext>,
    output_projection: Option<Vec<usize>>,
    projected_output_schema: Option<Arc<Schema>>,
    prebound_keys: Option<PreboundJoinKeys>,
    pair_residual: Option<LogicalExpr>,
) -> (r: Result<HashJoinOperator<R>, Error>)
    requires
        left.ready(),
        right.ready(),
    ensures
        hash_result(
            r,
            input_of(left),
            input_of(right),
            join_type,
            logical_plan::opt_expr(on_condition),
            logical_plan::opt_expr(pair_residual),
            value::values_model(parameters@),
            chosen_keys(
                prebound_keys,
                logical_plan::opt_expr(on_condition),
                left.columns(),
                right.columns(),
            ),
            HashJoinBuildSide::Left,
            logical_plan::opt_positions(output_projection),
            shown_columns(projected_output_schema, left.columns() + right.columns()),
            memory_limit,
            operator::with_limit_of(probed(left.limits(), right.limits(), HashJoinBuildSide::Left), timeout_ctx),
            operator::with_limit_of(held(left.limits(), right.limits(), HashJoinBuildSide::Left), timeout_ctx),
        ),
{
    let ghost on = logical_plan::opt_expr(on_condition);
    let ghost params = value::values_model(parameters@);
    let ghost residual = logical_plan::opt_expr(pair_residual);
    let ghost keys = chosen_keys(prebound_keys, on, left.columns(), right.columns());
    let ghost columns = shown_columns(projected_output_schema, left.columns() + right.columns());
    let ghost lc = left.columns();
    let ghost rc = right.columns();
    let left_schema: Arc<Schema> = left.schema();
    let right_schema: Arc<Schema> = right.schema();
    let p: Prepared = prepare(
        left_schema,
        right_schema,
        &on_condition,
        parameters,
        projected_output_schema,
        prebound_keys,
        pair_residual,
    );
    let mut source: Box<L> = left;
    let keyless: bool = on_condition.is_none();
    assert(rule_of(
        match p.direct_key_indices {
            Some(k) => Some(&k.left),
            None => None,
        },
        p.left_keys@,
        keyless,
        p.left_evaluator,
    ) =~= side_rule(keys.direct, keys.pairs, on is None, lc, params, false));
    let (table, keyless_rows): (JoinTable, Vec<Tuple>) = match build_table(
        &mut source,
        left_positions(&p.direct_key_indices),
        &p.left_keys,
        keyless,
        &p.left_evaluator,
        memory_limit,
        &timeout_ctx,
        join_pair::is_right_outer(join_type),
    ) {
        Ok(t) => t,
        Err(e) => {
            return Err(e);
        },
    };
    Ok(
        assemble(
            right,
            p,
            table,
            keyless_rows,
            join_type,
            on_condition,
            HashJoinBuildSide::Left,
            output_projection,
            timeout_ctx,
            Ghost(lc),
            Ghost(rc),
            Ghost(residual),
            Ghost(params),
            Ghost(keys),
            Ghost(columns),
        ),
    )
}

impl<P: PhysicalOperator + ?Sized> HashJoinOperator<P> {
    spec fn join(&self) -> HashJoin {
        HashJoin {
            join_type: self.join_type,
            build_side: self.build_side,
            probe: self.probe_rule(),
            test: pair_check_of(
                logical_plan::opt_expr(self.on_condition),
                logical_plan::opt_expr(self.pair_residual),
                self.pure_equi_join,
                self.evaluator.columns(),
                self.evaluator.params(),
            ),
            projection: logical_plan::opt_positions(self.output_projection),
            left_width: self.left_column_count as nat,
            right_width: self.right_column_count as nat,
            keyless: schema::rows_model(self.keyless_rows@),
        }
    }

    spec fn probe_rule(&self) -> KeyRule {
        match self.build_side {
            HashJoinBuildSide::Right => rule_of(
                match self.direct_key_indices {
                    Some(k) => Some(&k.left),
                    None => None,
                },
                self.left_keys@,
                self.on_condition is None,
                self.left_evaluator,
            ),
            HashJoinBuildSide::Left => rule_of(
                match self.direct_key_indices {
                    Some(k) => Some(&k.right),
                    None => None,
                },
                self.right_keys@,
                self.on_condition is None,
                self.right_evaluator,
            ),
        }
    }

    /// A join under the built-in memory cap that holds the right input in memory.
    pub fn new(
        left: Box<P>,
        right: Box<P>,
        join_type: JoinType,
        on_condition: Option<LogicalExpr>,
        parameters: Vec<Value>,
        timeout_ctx: Option<TimeoutContext>,
    ) -> (r: Result<HashJoinOperator<P>, Error>)
        requires
            left.ready(),
            right.ready(),
        ensures
            hash_result(
                r,
                input_of(left),
                input_of(right),
                join_type,
                logical_plan::opt_expr(on_condition),
                None::<ExprModel>,
                value::values_model(parameters@),
                chosen_keys(
                    None::<PreboundJoinKeys>,
                    logical_plan::opt_expr(on_condition),
                    left.columns(),
                    right.columns(),
                ),
                HashJoinBuildSide::Right,
                None::<Seq<usize>>,
                left.columns() + right.columns(),
                join_pair::default_limit(),
                operator::with_limit_of(probed(left.limits(), right.limits(), HashJoinBuildSide::Right), timeout_ctx),
                operator::with_limit_of(held(left.limits(), right.limits(), HashJoinBuildSide::Right), timeout_ctx),
            ),
    {
        Self::with_memory_limit(
            left,
            right,
            join_type,
            on_condition,
            parameters,
            HashJoinBuildSide::Right,
            join_pair::default_memory_limit(),
            timeout_ctx,
        )
    }

    /// A join under the built-in memory cap that holds the left input in memory.
    pub fn new_build_left(
        left: Box<P>,
        right: Box<P>,
        join_type: JoinType,
        on_condition: Option<LogicalExpr>,
        parameters: Vec<Value>,
        timeout_ctx: Option<TimeoutContext>,
    ) -> (r: Result<HashJoinOperator<P>, Error>)
        requires
            left.ready(),
            right.ready(),
        ensures
            hash_result(
                r,
                input_of(left),
                input_of(right),
                join_type,
                logical_plan::opt_expr(on_condition),
                None::<ExprModel>,
                value::values_model(parameters@),
                chosen_keys(
                    None::<PreboundJoinKeys>,
                    logical_plan::opt_expr(on_condition),
                    left.columns(),
                    right.columns(),
                ),
                HashJoinBuildSide::Left,
                None::<Seq<usize>>,
                left.columns() + right.columns(),
                join_pair::default_limit(),
                operator::with_limit_of(probed(left.limits(), right.limits(), HashJoinBuildSide::Left), timeout_ctx),
                operator::with_limit_of(held(left.limits(), right.limits(), HashJoinBuildSide::Left), timeout_ctx),
            ),
    {
        Self::with_memory_limit(
            left,
            right,
            join_type,
            on_condition,
            parameters,
            HashJoinBuildSide::Left,
            join_pair::default_memory_limit(),
            timeout_ctx,
        )
    }

    /// A join that may hold `memory_limit` bytes in memory.
    pub fn with_memory_limit(
        left: Box<P>,
        right: Box<P>,
        join_type: JoinType,
        on_condition: Option<LogicalExpr>,
        parameters: Vec<Value>,
        build_side: HashJoinBuildSide,
        memory_limit: usize,
        timeout_ctx: Option<TimeoutContext>,
    ) -> (r: Result<HashJoinOperator<P>, Error>)
        requires
            left.ready(),
            right.ready(),
        ensures
            hash_result(
                r,
                input_of(left),
                input_of(right),
                join_type,
                logical_plan::opt_expr(on_condition),
                None::<ExprModel>,
                value::values_model(parameters@),
                chosen_keys(
                    None::<PreboundJoinKeys>,
                    logical_plan::opt_expr(on_condition),
                    left.columns(),
                    right.columns(),
                ),
                build_side,
                None::<Seq<usize>>,
                left.columns() + right.columns(),
                memory_limit,
                operator::with_limit_of(probed(left.limits(), right.limits(), build_side), timeout_ctx),
                operator::with_limit_of(held(left.limits(), right.limits(), build_side), timeout_ctx),
            ),
    {
        Self::with_memory_limit_projected(
            left,
            right,
            join_type,
            on_condition,
            parameters,
            build_side,
            memory_limit,
            timeout_ctx,
            None,
            None,
            None,
            None,
        )
    }

    /// A join whose keys were decided before. `pair_residual` is the part of the condition
    /// that the keys do not express: it is tested on each pair before the pair counts.
    pub fn new_with_keys(
        left: Box<P>,
        right: Box<P>,
        join_type: JoinType,
        on_condition: Option<LogicalExpr>,
        pair_residual: Option<LogicalExpr>,
        parameters: Vec<Value>,
        keys: PreboundJoinKeys,
        build_side: HashJoinBuildSide,
        timeout_ctx: Option<TimeoutContext>,
    ) -> (r: Result<HashJoinOperator<P>, Error>)
        requires
            left.ready(),
            right.ready(),
        ensures
            hash_result(
                r,
                input_of(left),
                input_of(right),
                join_type,
                logical_plan::opt_expr(on_condition),
                logical_plan::opt_expr(pair_residual),
                value::values_model(parameters@),
                chosen_keys(
                    Some(keys),
                    logical_plan::opt_expr(on_condition),
                    left.columns(),
                    right.columns(),
                ),
                build_side,
                None::<Seq<usize>>,
                left.columns() + right.columns(),
                join_pair::default_limit(),
                operator::with_limit_of(probed(left.limits(), right.limits(), build_side), timeout_ctx),
                operator::with_limit_of(held(left.limits(), right.limits(), build_side), timeout_ctx),
            ),
    {
        Self::with_memory_limit_projected(
            left,
            right,
            join_type,
            on_condition,
            parameters,
            build_side,
            join_pair::default_memory_limit(),
            timeout_ctx,
            None,
            None,
            Some(keys),
            pair_residual,
        )
    }

    /// An inner join whose keys were decided before and that hands out only the
    /// projected columns of each pair.
    pub fn new_projected_inner_with_keys(
        left: Box<P>,
        right: Box<P>,
        on_condition: Option<LogicalExpr>,
        parameters: Vec<Value>,
        keys: PreboundJoinKeys,
        projection: Vec<usize>,
        output_schema: Arc<Schema>,
        build_side: HashJoinBuildSide,
        timeout_ctx: Option<TimeoutContext>,
    ) -> (r: Result<HashJoinOperator<P>, Error>)
        requires
            left.ready(),
            right.ready(),
        ensures
            hash_result(
                r,
                input_of(left),
                input_of(right),
                JoinType::Inner,
                logical_plan::opt_expr(on_condition),
                None::<ExprModel>,
                value::values_model(parameters@),
                chosen_keys(
                    Some(keys),
                    logical_plan::opt_expr(on_condition),
                    left.columns(),
                    right.columns(),
                ),
                build_side,
                Some(projection@),
                output_schema@,
                join_pair::default_limit(),
                operator::with_limit_of(probed(left.limits(), right.limits(), build_side), timeout_ctx),
                operator::with_limit_of(held(left.limits(), right.limits(), build_side), timeout_ctx),
            ),
    {
        Self::with_memory_limit_projected(
            left,
            right,
            JoinType::Inner,
            on_condition,
            parameters,
            build_side,
            join_pair::default_memory_limit(),
            timeout_ctx,
            Some(projection),
            Some(output_schema),
            Some(keys),
            None,
        )
    }

    /// A join with everything given.
    pub fn with_memory_limit_projected(
        left: Box<P>,
        right: Box<P>,
        join_type: JoinType,
        on_condition: Option<LogicalExpr>,
        parameters: Vec<Value>,
        build_side: HashJoinBuildSide,
        memory_limit: usize,
        timeout_ctx: Option<TimeoutContext>,
        output_projection: Option<Vec<usize>>,
        projected_output_schema: Option<Arc<Schema>>,
        prebound_keys: Option<PreboundJoinKeys>,
        pair_residual: Option<LogicalExpr>,
    ) -> (r: Result<HashJoinOperator<P>, Error>)
        requires
            left.ready(),
            right.ready(),
        ensures
            hash_result(
                r,
                input_of(left),
                input_of(right),
                join_type,
                logical_plan::opt_expr(on_condition),
                logical_plan::opt_expr(pair_residual),
                value::values_model(parameters@),
                chosen_keys(
                    prebound_keys,
                    logical_plan::opt_expr(on_condition),
                    left.columns(),
                    right.columns(),
                ),
                build_side,
                logical_plan::opt_positions(output_projection),
                shown_columns(projected_output_schema, left.columns() + right.columns()),
                memory_limit,
                operator::with_limit_of(probed(left.limits(), right.limits(), build_side), timeout_ctx),
                operator::with_limit_of(held(left.limits(), right.limits(), build_side), timeout_ctx),
            ),
    {
        match build_side {
            HashJoinBuildSide::Right => hash_join_build_right(
                left,
                right,
                join_type,
                on_condition,
                parameters,
                memory_limit,
                timeout_ctx,
                output_projection,
                projected_output_schema,
                prebound_keys,
                pair_residual,
            ),
            HashJoinBuildSide::Left => hash_join_build_left(
                left,
                right,
                join_type,
                on_condition,
                parameters,
                memory_limit,
                timeout_ctx,
                output_projection,
                projected_output_schema,
                prebound_keys,
                pair_residual,
            ),
        }
    }

    /// Whether the residual is tested on pairs of rows as they stand.
    pub fn pair_residual_on_pair(&self) -> (r: bool)
        ensures
            r == self.tests_on_pair(),
    {
        self.pair_residual_on_pair
    }

    pub closed spec fn tests_on_pair(&self) -> bool {
        self.pair_residual_on_pair
    }

    /// Leaves the operator as it is: the time limit is given when the join is
    /// built.
    pub fn with_timeout(self, _timeout_ctx: Option<TimeoutContext>) -> (r: HashJoinOperator<P>)
        ensures
            r == self,
    {
        self
    }

    fn probe_key(&self, tuple: &Tuple) -> (r: Result<Option<JoinKey>, Error>)
        ensures
            key_result(r) == row_key(self.join().probe, tuple@.values),
    {
        match self.build_side {
            HashJoinBuildSide::Right => extract_key(
                left_positions(&self.direct_key_indices),
                &self.left_keys,
                self.on_condition.is_none(),
                &self.left_evaluator,
                tuple,
            ),
            HashJoinBuildSide::Left => extract_key(
                right_positions(&self.direct_key_indices),
                &self.right_keys,
                self.on_condition.is_none(),
                &self.right_evaluator,
                tuple,
            ),
        }
    }

    fn evaluate_join_condition(&self, left: &Tuple, right: &Tuple) -> (r: Result<bool, Error>)
        requires
            self.pair_residual_on_pair ==> self.pair_residual is Some && join_pair::works_on_pair(
                self.pair_residual->Some_0@,
            ),
        ensures
            join_pair::test_model(r) == (self.join().test)(left@, right@),
    {
        if self.pure_equi_join {
            return Ok(true);
        }
        match &self.pair_residual {
            Some(c) => join_pair::pair_satisfies(
                &self.evaluator,
                c,
                self.pair_residual_on_pair,
                left,
                right,
            ),
            None => match &self.on_condition {
                Some(c) => join_pair::pair_satisfies(&self.evaluator, c, false, left, right),
                None => Ok(true),
            },
        }
    }

    fn evaluate_probe_build_condition(&self, probe: &Tuple, build: &Tuple) -> (r: Result<
        bool,
        Error,
    >)
        requires
            self.pair_residual_on_pair ==> self.pair_residual is Some && join_pair::works_on_pair(
                self.pair_residual->Some_0@,
            ),
        ensures
            join_pair::test_model(r) == probe_test(probe@, build@, self.join()),
    {
        match self.build_side {
            HashJoinBuildSide::Right => self.evaluate_join_condition(probe, build),
            HashJoinBuildSide::Left => self.evaluate_join_condition(build, probe),
        }
    }

    fn join_tuples_projected(&self, left: &Tuple, right: &Tuple) -> (r: Tuple)
        ensures
            r@ == paired(left@, right@, self.join()),
    {
        let indices: &Vec<usize> = match &self.output_projection {
            Some(v) => v,
            None => {
                return join_pair::join_tuples(left, right);
            },
        };
        let mut values: Vec<Value> = Vec::new();
        for i in 0..indices.len()
            invariant
                values.len() == i,
                forall|j: int|
                    0 <= j < i ==> (#[trigger] values@[j])@ == projected_value(
                        indices@[j],
                        left@,
                        right@,
                        self.left_column_count as nat,
                    ),
        {
            let at: usize = indices[i];
            let found: Option<&Value> = if at < self.left_column_count {
                left.get(at)
            } else {
                right.get(at - self.left_column_count)
            };
            let v: Value = match found {
                Some(v) => v.clone(),
                None => Value::Null,
            };
            values.push(v);
        }
        proof {
            value::lemma_values_model(values@);
        }
        assert(value::values_model(values@) =~= paired(left@, right@, self.join()).values);
        Tuple::new(values)
    }

    fn join_probe_with_build(&self, probe: &Tuple, build: &Tuple) -> (r: Tuple)
        ensures
            r@ == paired_probe(probe@, build@, self.join()),
    {
        match self.build_side {
            HashJoinBuildSide::Right => self.join_tuples_projected(probe, build),
            HashJoinBuildSide::Left => self.join_tuples_projected(build, probe),
        }
    }

    /// Hands out the rows of the table whose key was not met.
    fn emit_unmatched(&mut self) -> (r: Option<Tuple>)
        requires
            old(self).ready(),
            old(self).state == JoinState::EmittingUnmatched,
        ensures
            final(self).ready(),
            final(self).columns() == old(self).columns(),
            final(self).limits() == old(self).limits(),
            match r {
                Some(t) => {
                    &&& old(self).stream().rows.len() > 0
                    &&& t@ == old(self).stream().rows[0]
                    &&& final(self).stream() == old(self).stream().rest()
                },
                None => {
                    &&& old(self).stream() == operator::no_rows()
                    &&& final(self).stream() == operator::no_rows()
                },
            },
    {
        let ghost whole = self.stream();
        while self.unmet_bucket < self.hash_table.len()
            invariant
                self.ready(),
                self.state == JoinState::EmittingUnmatched,
                self.stream() == whole,
                whole == old(self).stream(),
                self.columns() == old(self).columns(),
                self.limits() == old(self).limits(),
            decreases
                self.hash_table@.len() - self.unmet_bucket,
                if self.unmet_bucket < self.hash_table@.len() {
                    self.hash_table@[self.unmet_bucket as int].1.len() - self.unmet_index
                } else {
                    0
                },
        {
            let b: usize = self.unmet_bucket;
            let i: usize = self.unmet_index;
            let met: bool = self.met_keys.find(self.hash_table.key(b)).is_some();
            assert(met == was_met(self.met_keys@, self.hash_table@[b as int].0));
            if met || i >= self.hash_table.bucket(b).len() {
                self.unmet_bucket = b + 1;
                self.unmet_index = 0;
            } else {
                match self.hash_table.bucket(b).get(i) {
                    Some(t) => {
                        let r: Tuple = join_pair::join_with_nulls_left(t, self.left_column_count);
                        self.unmet_index = i + 1;
                        assert(self.stream() =~= whole.rest());
                        return Some(r);
                    },
                    None => {
                        return None;
                    },
                }
            }
        }
        if self.keyless_index < self.keyless_rows.len() {
            let i: usize = self.keyless_index;
            let r: Tuple = join_pair::join_with_nulls_left(
                &self.keyless_rows[i],
                self.left_column_count,
            );
            self.keyless_index = i + 1;
            assert(r@ == whole.rows[0]);
            assert(self.stream() =~= whole.rest());
            return Some(r);
        }
        self.state = JoinState::Exhausted;
        assert(whole =~= operator::no_rows());
        None
    }

    /// Joins the current probe row with the rest of its bucket: the next row, or
    /// `None` once the probe row is done with.
    fn walk_bucket(&mut self) -> (r: Result<Option<Tuple>, Error>)
        requires
            old(self).ready(),
            old(self).state == JoinState::Probing,
            old(self).current_probe is Some,
        ensures
            final(self).columns() == old(self).columns(),
            final(self).limits() == old(self).limits(),
            match r {
                Ok(Some(t)) => {
                    &&& final(self).ready()
                    &&& old(self).stream().rows.len() > 0
                    &&& t@ == old(self).stream().rows[0]
                    &&& final(self).stream() == old(self).stream().rest()
                },
                Ok(None) => {
                    &&& final(self).ready()
                    &&& final(self).state == JoinState::Probing
                    &&& final(self).current_probe is None
                    &&& final(self).probe.stream() == old(self).probe.stream()
                    &&& final(self).stream() == old(self).stream()
                },
                Err(e) => old(self).stream() == operator::failing(e@),
            },
    {
        let p: Tuple = self.current_probe.as_ref().unwrap().clone();
        let b: usize = self.current_bucket;
        let ghost upcoming = self.probe.stream();
        let ghost whole = self.stream();
        while self.match_index < self.hash_table.bucket(b).len()
            invariant
                self.ready(),
                self.state == JoinState::Probing,
                self.current_probe is Some,
                self.current_probe->Some_0@ == p@,
                self.current_bucket == b,
                b < self.hash_table@.len(),
                self.hash_table.wf(),
                self.probe.stream() == upcoming,
                self.stream() == whole,
                whole == old(self).stream(),
                self.columns() == old(self).columns(),
                self.limits() == old(self).limits(),
            decreases self.hash_table@[b as int].1.len() - self.match_index,
        {
            let i: usize = self.match_index;
            let build: Tuple = match self.hash_table.bucket(b).get(i) {
                Some(t) => t.clone(),
                None => {
                    return Err(
                        Error::query_execution("Match index out of bounds".to_owned()),
                    );
                },
            };
            self.match_index = i + 1;
            let test: Result<bool, Error> = self.evaluate_probe_build_condition(&p, &build);
            match test {
                Err(e) => {
                    return Err(e);
                },
                Ok(true) => {
                    let t: Tuple = self.join_probe_with_build(&p, &build);
                    if !self.current_match_found {
                        self.current_match_found = true;
                        if join_pair::is_right_outer(self.join_type) {
                            let k: JoinKey = self.current_key.as_ref().unwrap().clone();
                            if self.met_keys.find(&k).is_none() {
                                self.met_keys.push(k);
                            }
                        }
                    }
                    proof {
                        operator::lemma_after_rest(
                            self.stream(),
                            paired_probe(p@, build@, self.join()),
                        );
                    }
                    return Ok(Some(t));
                },
                Ok(false) => {},
            }
        }
        let matched: bool = self.current_match_found;
        self.current_probe = None;
        self.current_key = None;
        self.match_index = 0;
        self.current_match_found = false;
        if !matched && join_pair::is_left_outer(self.join_type) {
            let t: Tuple = join_pair::join_with_nulls_right(&p, self.right_column_count);
            proof {
                operator::lemma_after_rest(
                    self.stream(),
                    join_pair::left_alone(p@, self.right_column_count as nat),
                );
            }
            return Ok(Some(t));
        }
        Ok(None)
    }

    /// Hands out the next row of the probe phase.
    fn probe_phase(&mut self) -> (r: Result<Option<Tuple>, Error>)
        requires
            old(self).ready(),
            old(self).state == JoinState::Probing,
        ensures
            final(self).columns() == old(self).columns(),
            final(self).limits() == old(self).limits(),
            match r {
                Ok(Some(t)) => {
                    &&& final(self).ready()
                    &&& old(self).stream().rows.len() > 0
                    &&& t@ == old(self).stream().rows[0]
                    &&& final(self).stream() == old(self).stream().rest()
                },
                Ok(None) => {
                    &&& final(self).ready()
                    &&& old(self).stream() == operator::no_rows()
                    &&& final(self).stream() == operator::no_rows()
                },
                Err(e) => {
                    ||| operator::timed_out(old(self).limits(), e@)
                    ||| old(self).stream() == operator::failing(e@)
                },
            },
    {
        let ghost whole = self.stream();
        loop
            invariant
                self.ready(),
                self.state == JoinState::Probing,
                self.stream() == whole,
                whole == old(self).stream(),
                self.columns() == old(self).columns(),
                self.limits() == old(self).limits(),
            decreases
                self.probe.stream().rows.len(),
                if self.current_probe is Some {
                    1int
                } else {
                    0int
                },
        {
            match operator::check_time(&self.timeout_ctx) {
                Ok(_) => {},
                Err(e) => {
                    return Err(e);
                },
            }
            if self.current_probe.is_some() {
                match self.walk_bucket() {
                    Err(e) => {
                        return Err(e);
                    },
                    Ok(Some(t)) => {
                        return Ok(Some(t));
                    },
                    Ok(None) => {},
                }
            }
            let p: Tuple = match self.probe.next() {
                Err(e) => {
                    return Err(e);
                },
                Ok(None) => {
                    if join_pair::is_right_outer(self.join_type) {
                        self.state = JoinState::EmittingUnmatched;
                        self.unmet_bucket = 0;
                        self.unmet_index = 0;
                        self.keyless_index = 0;
                        assert(self.stream() =~= whole);
                        return Ok(self.emit_unmatched());
                    }
                    self.state = JoinState::Exhausted;
                    return Ok(None);
                },
                Ok(Some(t)) => t,
            };
            let key: Option<JoinKey> = match self.probe_key(&p) {
                Err(e) => {
                    return Err(e);
                },
                Ok(k) => k,
            };
            let found: Option<usize> = match &key {
                Some(k) => self.hash_table.find(k),
                None => None,
            };
            match found {
                Some(b) => {
                    self.current_probe = Some(p);
                    self.current_key = key;
                    self.current_bucket = b;
                    self.match_index = 0;
                    self.current_match_found = false;
                },
                None => {
                    if join_pair::is_left_outer(self.join_type) {
                        let t: Tuple = join_pair::join_with_nulls_right(
                            &p,
                            self.right_column_count,
                        );
                        proof {
                            operator::lemma_after_rest(
                                self.stream(),
                                join_pair::left_alone(p@, self.right_column_count as nat),
                            );
                        }
                        return Ok(Some(t));
                    }
                },
            }
        }
    }
}

/// What is tested on each pair, by what an operator knows.
spec fn pair_check_of(
    on: Option<ExprModel>,
    residual: Option<ExprModel>,
    pure: bool,
    cols: Seq<ColumnModel>,
    params: Seq<ValueModel>,
) -> spec_fn(TupleModel, TupleModel) -> Result<bool, ErrorModel> {
    if pure {
        nested_loop::pair_tester(None, cols, params)
    } else if residual is Some {
        nested_loop::pair_tester(residual, cols, params)
    } else {
        nested_loop::pair_tester(on, cols, params)
    }
}

impl<P: PhysicalOperator + ?Sized> PhysicalOperator for HashJoinOperator<P> {
    closed spec fn ready(&self) -> bool {
        &&& self.probe.ready()
        &&& self.hash_table.wf()
        &&& self.met_keys.wf()
        &&& self.pair_residual_on_pair ==> self.pair_residual is Some && join_pair::works_on_pair(
            self.pair_residual->Some_0@,
        )
        &&& self.current_probe is Some ==> {
            &&& self.current_key is Some
            &&& self.current_bucket < self.hash_table@.len()
        }
        &&& self.keyless_index <= self.keyless_rows.len()
    }

    closed spec fn stream(&self) -> RowStream {
        match self.state {
            JoinState::Probing => match self.current_probe {
                Some(p) => hash_from_bucket(
                    p@,
                    self.current_key->Some_0@,
                    self.hash_table@[self.current_bucket as int].1,
                    self.match_index as int,
                    self.current_match_found,
                    self.probe.stream(),
                    self.hash_table@,
                    self.met_keys@,
                    self.join(),
                ),
                None => hash_from_probe(
                    self.probe.stream(),
                    self.hash_table@,
                    self.met_keys@,
                    self.join(),
                ),
            },
            JoinState::EmittingUnmatched => operator::just_rows(
                unmet_rows(
                    self.hash_table@,
                    self.met_keys@,
                    self.unmet_bucket as int,
                    self.unmet_index as int,
                    self.left_column_count as nat,
                ) + all_alone(
                    schema::rows_model(self.keyless_rows@),
                    self.left_column_count as nat,
                ).skip(self.keyless_index as int),
            ),
            JoinState::Exhausted => operator::no_rows(),
        }
    }

    closed spec fn columns(&self) -> Seq<ColumnModel> {
        self.output_schema@
    }

    closed spec fn limits(&self) -> Set<u64> {
        operator::with_limit_of(self.probe.limits(), self.timeout_ctx)
    }

    fn next(&mut self) -> (r: Result<Option<Tuple>, Error>) {
        match self.state {
            JoinState::Probing => self.probe_phase(),
            JoinState::EmittingUnmatched => Ok(self.emit_unmatched()),
            JoinState::Exhausted => Ok(None),
        }
    }

    fn schema(&self) -> (r: Arc<Schema>) {
        self.output_schema.clone()
    }
}

} // verus!
