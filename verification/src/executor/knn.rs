//! Nearest-neighbour queries: `ORDER BY column <distance> constant LIMIT k`, as a
//! vector index serves them.

use crate::evaluator;
use crate::evaluator::Evaluator;
use crate::executor::any_operator;
use crate::executor::any_operator::AnyOperator;
use crate::executor::filter;
use crate::executor::handle_rows;
use crate::executor::handle_scan::ScanParts;
use crate::executor::join_pair;
use crate::executor::join_planning;
use crate::executor::key_range;
use crate::executor::ordered_topk;
use crate::executor::ordered_topk::{SortModel, SortParts, WrapModel, WrapParts};
use crate::executor::query::Executor;
use crate::executor::scan::VectorScanOperator;
use crate::executor::semantics;
use crate::executor::semantics::{Ctes, ScanNode};
use crate::executor::sources;
use crate::executor::sources::{CteModel, Env};
use crate::executor::storage_view;
use crate::executor::storage_view::StorageView;
use crate::logical_plan;
use crate::logical_plan::{AsOfModel, BinaryOperator, ExprModel, LogicalExpr, LogicalPlan, PlanModel};
use crate::schema;
use crate::schema::{ColumnModel, Error, ErrorModel, Schema, Tuple, TupleModel};
use crate::value;
use crate::value::{Value, ValueModel};
use std::sync::Arc;
use vstd::prelude::*;

verus! {

/// How two vectors are told apart.
#[derive(Clone, Copy, PartialEq, Eq, Structural, Debug)]
pub enum VectorMetric {
    Cosine,
    L2,
    InnerProduct,
}

/// The metric of a distance operator.
pub open spec fn metric_of(op: BinaryOperator) -> Option<VectorMetric> {
    match op {
        BinaryOperator::VectorCosineDistance => Some(VectorMetric::Cosine),
        BinaryOperator::VectorL2Distance => Some(VectorMetric::L2),
        BinaryOperator::VectorInnerProduct => Some(VectorMetric::InnerProduct),
        _ => None,
    }
}

pub fn distance_metric(op: BinaryOperator) -> (r: Option<VectorMetric>)
    ensures
        r == metric_of(op),
{
    match op {
        BinaryOperator::VectorCosineDistance => Some(VectorMetric::Cosine),
        BinaryOperator::VectorL2Distance => Some(VectorMetric::L2),
        BinaryOperator::VectorInnerProduct => Some(VectorMetric::InnerProduct),
        _ => None,
    }
}

pub open spec fn is_constant(e: ExprModel) -> bool {
    e is Literal || e is Parameter
}

pub open spec fn is_column_of(e: ExprModel, cols: Seq<ColumnModel>) -> bool {
    match e {
        ExprModel::Column { table, name } => schema::qualified_index(cols, table, name) is Some,
        _ => false,
    }
}

/// A predicate that candidates may be tested with: comparisons of a column with a
/// constant, joined by `AND`.
pub open spec fn simple_filter(e: ExprModel, cols: Seq<ColumnModel>) -> bool
    decreases e,
{
    match e {
        ExprModel::BinaryExpr { left, op, right } => if op == BinaryOperator::And {
            simple_filter(*left, cols) && simple_filter(*right, cols)
        } else {
            evaluator::is_comparison(op) && ((is_column_of(*left, cols) && is_constant(*right)) || (
            is_constant(*left) && is_column_of(*right, cols)))
        },
        _ => false,
    }
}

fn constant_operand(e: &LogicalExpr) -> (r: bool)
    ensures
        r == is_constant(e@),
{
    matches!(e, LogicalExpr::Literal(_) | LogicalExpr::Parameter { .. })
}

fn column_operand(e: &LogicalExpr, schema: &Schema) -> (r: bool)
    ensures
        r == is_column_of(e@, schema@),
{
    match e {
        LogicalExpr::Column { table, name } => schema.get_qualified_column_index(
            schema::as_str(table),
            name.as_str(),
        ).is_some(),
        _ => false,
    }
}

/// Whether candidates may be tested with a predicate.
pub fn is_simple_knn_filter(expr: &LogicalExpr, schema: &Schema) -> (r: bool)
    ensures
        r == simple_filter(expr@, schema@),
    decreases expr,
{
    match expr {
        LogicalExpr::BinaryExpr { left, op, right } => match op {
            BinaryOperator::And => is_simple_knn_filter(left, schema) && is_simple_knn_filter(
                right,
                schema,
            ),
            BinaryOperator::Eq
            | BinaryOperator::NotEq
            | BinaryOperator::Lt
            | BinaryOperator::LtEq
            | BinaryOperator::Gt
            | BinaryOperator::GtEq => (column_operand(left, schema) && constant_operand(right)) || (
            constant_operand(left) && column_operand(right, schema)),
            _ => false,
        },
        _ => false,
    }
}

/// Whether a name stands for the current rows of a stored table.
pub open spec fn plain_table(
    env: Env,
    cte: Option<CteModel>,
    table: Seq<char>,
    as_of: Option<AsOfModel>,
) -> bool {
    match env.storage {
        None => false,
        Some(s) => {
            &&& as_of is None
            &&& cte is None
            &&& storage_view::view_named(s.materialized_views, table, 0) is None
            &&& storage_view::table_named(s.tables, table, 0) is Some
        },
    }
}

/// The columns of a scan as a stored table gives them.
pub open spec fn scan_columns(n: ScanNode) -> Seq<ColumnModel> {
    sources::sourced(n.cols, sources::source_name(n.alias, n.table), n.table)
}

/// Two predicates as one.
pub open spec fn both_hold(a: Option<ExprModel>, b: Option<ExprModel>) -> Option<ExprModel> {
    match (a, b) {
        (None, x) => x,
        (x, None) => x,
        (Some(x), Some(y)) => Some(
            ExprModel::BinaryExpr {
                left: Box::new(x),
                op: BinaryOperator::And,
                right: Box::new(y),
            },
        ),
    }
}

/// The scan with its own predicate that a plan is.
pub open spec fn own_filter_scan(p: PlanModel) -> Option<(ScanNode, Option<ExprModel>)> {
    match p {
        PlanModel::Scan { table_name, alias, schema, projection, as_of } => Some(
            (ScanNode { table: table_name, alias, cols: schema, projection, as_of }, None),
        ),
        PlanModel::FilteredScan { table_name, alias, schema, projection, predicate, as_of } => Some(
            (ScanNode { table: table_name, alias, cols: schema, projection, as_of }, predicate),
        ),
        _ => None,
    }
}

/// The scan below a sort, with all predicates on it.
pub open spec fn scan_with_filters(p: PlanModel) -> Option<(ScanNode, Option<ExprModel>)> {
    match p {
        PlanModel::Filter { input, predicate } => match own_filter_scan(*input) {
            Some(f) => Some((f.0, both_hold(f.1, Some(predicate)))),
            None => None,
        },
        _ => own_filter_scan(p),
    }
}

/// The scan of a stored table whose rows may be tested one by one.
pub open spec fn knn_scan(p: PlanModel, env: Env, ctes: Ctes) -> Option<
    (ScanNode, Option<ExprModel>),
> {
    match scan_with_filters(p) {
        Some(f) => if plain_table(env, ctes(f.0.table), f.0.table, f.0.as_of) && (match f.1 {
            Some(e) => simple_filter(e, scan_columns(f.0)),
            None => true,
        }) {
            Some(f)
        } else {
            None
        },
        None => None,
    }
}

fn own_filter_parts(plan: &LogicalPlan) -> (r: Option<(ScanParts<'_>, Option<&LogicalExpr>)>)
    ensures
        match r {
            Some(f) => own_filter_scan(plan@) == Some((f.0@, join_planning::opt_borrowed(f.1))),
            None => own_filter_scan(plan@) is None,
        },
{
    match plan {
        LogicalPlan::Scan { table_name, alias, schema, projection, as_of } => Some(
            (ScanParts { table: table_name, alias, schema, projection, as_of }, None),
        ),
        LogicalPlan::FilteredScan { table_name, alias, schema, projection, predicate, as_of } => {
            let p: Option<&LogicalExpr> = match predicate {
                Some(e) => Some(e),
                None => None,
            };
            Some((ScanParts { table: table_name, alias, schema, projection, as_of }, p))
        },
        _ => None,
    }
}

fn clone_borrowed(e: Option<&LogicalExpr>) -> (r: Option<LogicalExpr>)
    ensures
        logical_plan::opt_expr(r) == join_planning::opt_borrowed(e),
{
    match e {
        Some(x) => Some(x.clone()),
        None => None,
    }
}

fn find_scan_with_filters(plan: &LogicalPlan) -> (r: Option<(ScanParts<'_>, Option<LogicalExpr>)>)
    ensures
        match r {
            Some(f) => scan_with_filters(plan@) == Some((f.0@, logical_plan::opt_expr(f.1))),
            None => scan_with_filters(plan@) is None,
        },
{
    match plan {
        LogicalPlan::Filter { input, predicate } => match own_filter_parts(input) {
            Some((n, own)) => {
                let whole: LogicalExpr = match own {
                    Some(p) => LogicalExpr::BinaryExpr {
                        left: Box::new(p.clone()),
                        op: BinaryOperator::And,
                        right: Box::new(predicate.clone()),
                    },
                    None => predicate.clone(),
                };
                Some((n, Some(whole)))
            },
            None => None,
        },
        _ => match own_filter_parts(plan) {
            Some((n, own)) => Some((n, clone_borrowed(own))),
            None => None,
        },
    }
}

/// The value that a query vector is given as.
pub open spec fn query_value(e: ExprModel, params: Seq<ValueModel>) -> Option<ValueModel>
    decreases e,
{
    match e {
        ExprModel::Cast { expr, data_type } => query_value(*expr, params),
        _ => key_range::constant_value(e, params),
    }
}

/// The value that a query vector is given as.
pub fn resolve_const_query_value(expr: &LogicalExpr, params: &Vec<Value>) -> (r: Option<Value>)
    ensures
        value::opt_value_model(r) == query_value(expr@, value::values_model(params@)),
    decreases expr,
{
    match expr {
        LogicalExpr::Cast { expr: inner, data_type: _ } => resolve_const_query_value(inner, params),
        _ => match key_range::find_constant(expr, params) {
            Some(v) => Some(v.clone()),
            None => None,
        },
    }
}

/// What a nearest-neighbour query asks for.
#[verifier::ext_equal]
pub struct KnnModel {
    pub node: ScanNode,
    pub columns: Seq<ColumnModel>,
    pub predicate: Option<ExprModel>,
    pub wrap: Option<WrapModel>,
    pub column: Seq<char>,
    pub metric: VectorMetric,
    pub query: ValueModel,
}

/// The column among two operands, and the other operand.
pub open spec fn column_and_query(left: ExprModel, right: ExprModel, cols: Seq<ColumnModel>) -> Option<
    (Seq<char>, ExprModel),
> {
    match (known_column(left, cols), known_column(right, cols)) {
        (Some(name), _) => Some((name, right)),
        (None, Some(name)) => Some((name, left)),
        _ => None,
    }
}

pub open spec fn known_column(e: ExprModel, cols: Seq<ColumnModel>) -> Option<Seq<char>> {
    match e {
        ExprModel::Column { table, name } => if schema::column_index(cols, name) is Some {
            Some(name)
        } else {
            None
        },
        _ => None,
    }
}

/// The distance that a sort goes up by.
pub open spec fn sorted_distance(s: SortModel) -> Option<(ExprModel, VectorMetric, ExprModel)> {
    if s.exprs.len() == 1 && s.asc.len() == 1 && s.asc[0] && (match s.wrap {
        Some(w) => !w.distinct && w.distinct_on is None,
        None => true,
    }) {
        match s.exprs[0] {
            ExprModel::BinaryExpr { left, op, right } => match metric_of(op) {
                Some(m) => Some((*left, m, *right)),
                None => None,
            },
            _ => None,
        }
    } else {
        None
    }
}

/// What a nearest-neighbour query below a limit asks for, where the plan is one.
pub open spec fn knn_query(input: PlanModel, limit: usize, env: Env, ctes: Ctes) -> Option<
    KnnModel,
> {
    if limit == usize::MAX || storage_view::reads_slowly(env.transaction) {
        None
    } else {
        match ordered_topk::sort_below(input) {
            None => None,
            Some(s) => match (sorted_distance(s), knn_scan(s.input, env, ctes)) {
                (Some(d), Some(f)) => if storage_view::reads_table_slowly(
                    env.transaction,
                    f.0.table,
                ) {
                    None
                } else {
                    match column_and_query(d.0, d.2, scan_columns(f.0)) {
                        None => None,
                        Some(q) => match query_value(q.1, env.params) {
                            None => None,
                            Some(v) => Some(
                                KnnModel {
                                    node: f.0,
                                    columns: scan_columns(f.0),
                                    predicate: f.1,
                                    wrap: s.wrap,
                                    column: q.0,
                                    metric: d.1,
                                    query: v,
                                },
                            ),
                        },
                    }
                },
                _ => None,
            },
        }
    }
}

/// What a nearest-neighbour query asks for.
pub struct KnnRequest<'p> {
    pub parts: ScanParts<'p>,
    pub schema: Arc<Schema>,
    pub predicate: Option<LogicalExpr>,
    pub wrap: Option<WrapParts<'p>>,
    pub column: String,
    pub metric: VectorMetric,
    pub query: Value,
}

impl<'p> View for KnnRequest<'p> {
    type V = KnnModel;

    open spec fn view(&self) -> KnnModel {
        KnnModel {
            node: self.parts@,
            columns: self.schema@,
            predicate: logical_plan::opt_expr(self.predicate),
            wrap: ordered_topk::wrap_model(self.wrap),
            column: self.column@,
            metric: self.metric,
            query: self.query@,
        }
    }
}

fn find_known_column<'e>(e: &'e LogicalExpr, schema: &Schema) -> (r: Option<&'e String>)
    ensures
        match r {
            Some(n) => known_column(e@, schema@) == Some(n@),
            None => known_column(e@, schema@) is None,
        },
{
    match e {
        LogicalExpr::Column { table: _, name } => {
            if schema.get_column_index(name.as_str()).is_some() {
                Some(name)
            } else {
                None
            }
        },
        _ => None,
    }
}

fn find_sorted_distance<'p>(s: &SortParts<'p>) -> (r: Option<
    (&'p LogicalExpr, VectorMetric, &'p LogicalExpr),
>)
    ensures
        match r {
            Some(d) => sorted_distance(s@) == Some((d.0@, d.1, d.2@)),
            None => sorted_distance(s@) is None,
        },
{
    proof {
        logical_plan::lemma_exprs_model(s.exprs@);
    }
    if s.exprs.len() != 1 || s.asc.len() != 1 || !s.asc[0] {
        return None;
    }
    if let Some(w) = &s.wrap {
        if w.distinct || w.distinct_on.is_some() {
            return None;
        }
    }
    assert(logical_plan::exprs_model(s.exprs@)[0] == s.exprs@[0]@);
    match &s.exprs[0] {
        LogicalExpr::BinaryExpr { left, op, right } => match distance_metric(*op) {
            Some(m) => Some((&**left, m, &**right)),
            None => None,
        },
        _ => None,
    }
}

/// An index on a vector column.
pub struct VectorIndex {
    pub name: String,
    pub metric: VectorMetric,
    pub dimension: usize,
}

/// The first index from a position on that answers a query.
pub open spec fn fitting_index(
    s: Seq<VectorIndex>,
    metric: VectorMetric,
    dimension: usize,
    from: nat,
) -> Option<usize>
    decreases s.len() - from,
{
    if from >= s.len() {
        None
    } else if s[from as int].metric == metric && s[from as int].dimension == dimension {
        Some(from as usize)
    } else {
        fitting_index(s, metric, dimension, from + 1)
    }
}

/// The first index that answers a query: one of its metric and dimension.
pub fn choose_vector_index(indexes: &Vec<VectorIndex>, metric: VectorMetric, dimension: usize) -> (r:
    Option<usize>)
    ensures
        r == fitting_index(indexes@, metric, dimension, 0),
        r matches Some(i) ==> i < indexes.len(),
{
    let mut i: usize = 0;
    while i < indexes.len()
        invariant
            i <= indexes@.len(),
            fitting_index(indexes@, metric, dimension, 0) == fitting_index(
                indexes@,
                metric,
                dimension,
                i as nat,
            ),
        decreases indexes.len() - i,
    {
        if indexes[i].metric == metric && indexes[i].dimension == dimension {
            return Some(i);
        }
        i += 1;
    }
    None
}

/// Indexes of at most this many vectors are not searched: testing every row is
/// exact, and as fast.
pub const SMALL_INDEX_EXACT_THRESHOLD: usize = 256;

/// Where a search of a vector index stands.
#[derive(Clone, Copy, PartialEq, Eq, Structural, Debug)]
pub struct KnnSearch {
    /// How many rows are wanted.
    pub k: usize,
    /// How many neighbours are asked for.
    pub fetch: usize,
    /// How many entries the index has, with those of deleted rows.
    pub physical: usize,
    /// How many neighbours the round before had.
    pub last: usize,
    /// Whether the neighbours are tested with a predicate.
    pub filtered: bool,
}

/// What comes after a round.
#[derive(Clone, Copy, PartialEq, Eq, Structural, Debug)]
pub enum KnnStep {
    /// The rows found are the answer.
    Serve,
    /// The index cannot answer; all rows have to be tested.
    GiveUp,
    /// Search again.
    Search(KnnSearch),
}

pub open spec fn larger(a: usize, b: usize) -> usize {
    if a >= b {
        a
    } else {
        b
    }
}

/// The first round of a search, where the index is worth one.
pub open spec fn first_search(
    k: usize,
    live: Option<usize>,
    physical: Option<usize>,
    filtered: bool,
) -> Option<KnnSearch> {
    if live is None || live->Some_0 <= SMALL_INDEX_EXACT_THRESHOLD {
        None
    } else {
        let size = larger(
            match physical {
                Some(n) => n,
                None => k,
            },
            k,
        );
        let most = larger(join_pair::capped((k * 2) as nat), join_pair::capped((k + 16) as nat));
        let fetch = if most <= size {
            most
        } else {
            size
        };
        if filtered && fetch >= size {
            None
        } else {
            Some(KnnSearch { k, fetch, physical: size, last: 0, filtered })
        }
    }
}

/// How many neighbours a filtered search asks for next: four times as many where
/// none passed, else twice what the share that passed calls for.
pub open spec fn wider(s: KnnSearch, candidates: usize, found: usize) -> usize {
    if found == 0 {
        join_pair::capped((s.fetch * 4) as nat)
    } else {
        larger(
            join_pair::capped(
                ((join_pair::capped((candidates * s.k) as nat) / found) * 2) as nat,
            ),
            join_pair::capped((s.fetch * 2) as nat),
        )
    }
}

/// What comes after a round that had `candidates` neighbours and left `found`
/// rows.
pub open spec fn after_round(
    s: KnnSearch,
    candidates: usize,
    found: usize,
    live: Option<usize>,
) -> KnnStep {
    if found >= s.k {
        KnnStep::Serve
    } else if s.filtered {
        let next = wider(s, candidates, found);
        if candidates <= s.last || next >= s.physical {
            KnnStep::GiveUp
        } else {
            KnnStep::Search(KnnSearch { fetch: next, last: candidates, ..s })
        }
    } else if s.fetch >= s.physical {
        if live is Some && live->Some_0 > found {
            KnnStep::GiveUp
        } else {
            KnnStep::Serve
        }
    } else {
        KnnStep::Search(KnnSearch { fetch: s.physical, ..s })
    }
}

fn pick_larger(a: usize, b: usize) -> (r: usize)
    ensures
        r == larger(a, b),
{
    if a >= b {
        a
    } else {
        b
    }
}

/// The first round of a search, where the index is worth one.
pub fn start_search(k: usize, live: Option<usize>, physical: Option<usize>, filtered: bool) -> (r:
    Option<KnnSearch>)
    ensures
        r == first_search(k, live, physical, filtered),
{
    match live {
        None => {
            return None;
        },
        Some(n) => {
            if n <= SMALL_INDEX_EXACT_THRESHOLD {
                return None;
            }
        },
    }
    let known: usize = match physical {
        Some(n) => n,
        None => k,
    };
    let size: usize = pick_larger(known, k);
    let most: usize = pick_larger(join_planning::capped_times(k, 2), k.saturating_add(16));
    let fetch: usize = if most <= size {
        most
    } else {
        size
    };
    if filtered && fetch >= size {
        return None;
    }
    Some(KnnSearch { k, fetch, physical: size, last: 0, filtered })
}

/// What comes after a round.
pub fn next_round(s: KnnSearch, candidates: usize, found: usize, live: Option<usize>) -> (r: KnnStep)
    ensures
        r == after_round(s, candidates, found, live),
{
    if found >= s.k {
        return KnnStep::Serve;
    }
    if s.filtered {
        if candidates <= s.last {
            return KnnStep::GiveUp;
        }
        let next: usize = if found == 0 {
            join_planning::capped_times(s.fetch, 4)
        } else {
            let share: usize = join_planning::capped_times(candidates, s.k) / found;
            pick_larger(
                join_planning::capped_times(share, 2),
                join_planning::capped_times(s.fetch, 2),
            )
        };
        if next >= s.physical {
            return KnnStep::GiveUp;
        }
        let mut t: KnnSearch = s;
        t.fetch = next;
        t.last = candidates;
        return KnnStep::Search(t);
    }
    if s.fetch >= s.physical {
        return match live {
            Some(n) => {
                if n > found {
                    KnnStep::GiveUp
                } else {
                    KnnStep::Serve
                }
            },
            None => KnnStep::Serve,
        };
    }
    let mut t: KnnSearch = s;
    t.fetch = s.physical;
    KnnStep::Search(t)
}

/// Every further round asks for more neighbours than the one before, and for no
/// more than the index has: a search ends.
pub proof fn law_every_round_is_wider(
    s: KnnSearch,
    candidates: usize,
    found: usize,
    live: Option<usize>,
)
    requires
        0 < s.fetch <= s.physical,
    ensures
        after_round(s, candidates, found, live) matches KnnStep::Search(t) ==> s.fetch < t.fetch
            && t.fetch <= t.physical && t.physical == s.physical && t.k == s.k && t.filtered
            == s.filtered,
{
}

/// An answer with fewer rows than wanted is given only without a predicate, where
/// the whole index was searched and is not known to have more live entries.
pub proof fn law_short_answers_are_complete(
    s: KnnSearch,
    candidates: usize,
    found: usize,
    live: Option<usize>,
)
    requires
        after_round(s, candidates, found, live) == KnnStep::Serve,
        found < s.k,
    ensures
        !s.filtered,
        s.fetch >= s.physical,
        live matches Some(n) ==> n <= found,
{
}

/// A neighbour that an index found: its row, where the row still exists, and the
/// bits of its distance.
pub struct Candidate {
    pub row_id: u64,
    pub distance: u32,
    pub row: Option<Tuple>,
}

#[verifier::ext_equal]
pub struct CandidateModel {
    pub row_id: u64,
    pub distance: u32,
    pub row: Option<TupleModel>,
}

pub open spec fn candidate_model(c: Candidate) -> CandidateModel {
    CandidateModel {
        row_id: c.row_id,
        distance: c.distance,
        row: match c.row {
            Some(t) => Some(t@),
            None => None,
        },
    }
}

pub open spec fn candidates_model(s: Seq<Candidate>) -> Seq<CandidateModel> {
    Seq::new(s.len(), |i: int| candidate_model(s[i]))
}

/// Whether a row passes the predicate of a query.
pub open spec fn passes(
    row: TupleModel,
    predicate: Option<ExprModel>,
    cols: Seq<ColumnModel>,
    params: Seq<ValueModel>,
) -> Result<bool, ErrorModel> {
    match predicate {
        None => Ok(true),
        Some(p) => filter::keeps(evaluator::eval(p, cols, params, row.values)),
    }
}

/// The first `k` of the first `n` neighbours whose row exists and passes, nearest
/// first as the index found them.
pub open spec fn kept_neighbours(
    s: Seq<CandidateModel>,
    n: nat,
    predicate: Option<ExprModel>,
    cols: Seq<ColumnModel>,
    params: Seq<ValueModel>,
    k: nat,
) -> Result<Seq<(u64, u32, TupleModel)>, ErrorModel>
    decreases n,
{
    if n == 0 || n > s.len() {
        Ok(Seq::empty())
    } else {
        match kept_neighbours(s, (n - 1) as nat, predicate, cols, params, k) {
            Err(e) => Err(e),
            Ok(kept) => if kept.len() > 0 && kept.len() >= k {
                Ok(kept)
            } else {
                match s[n - 1].row {
                    None => Ok(kept),
                    Some(row) => match passes(row, predicate, cols, params) {
                        Err(e) => Err(e),
                        Ok(true) => Ok(kept.push((s[n - 1].row_id, s[n - 1].distance, row))),
                        Ok(false) => Ok(kept),
                    },
                }
            },
        }
    }
}

/// The rows that a round of a search leaves, with their distances.
pub struct Neighbours {
    pub results: Vec<(u64, u32)>,
    pub tuples: Vec<Tuple>,
}

pub open spec fn neighbours_model(n: Neighbours) -> Seq<(u64, u32, TupleModel)> {
    Seq::new(
        n.tuples@.len(),
        |i: int| (n.results@[i].0, n.results@[i].1, n.tuples@[i]@),
    )
}

proof fn lemma_kept_stay(
    s: Seq<CandidateModel>,
    m: nat,
    n: nat,
    predicate: Option<ExprModel>,
    cols: Seq<ColumnModel>,
    params: Seq<ValueModel>,
    k: nat,
)
    requires
        m <= n <= s.len(),
        kept_neighbours(s, m, predicate, cols, params, k) matches Ok(kept) ==> kept.len() > 0
            && kept.len() >= k,
    ensures
        kept_neighbours(s, n, predicate, cols, params, k) == kept_neighbours(
            s,
            m,
            predicate,
            cols,
            params,
            k,
        ),
    decreases n,
{
    if m < n {
        lemma_kept_stay(s, m, (n - 1) as nat, predicate, cols, params, k);
    }
}

/// The rows that a round of a search leaves.
pub fn keep_neighbours(
    candidates: &Vec<Candidate>,
    predicate: &Option<LogicalExpr>,
    evaluator: &Evaluator,
    k: usize,
) -> (r: Result<Neighbours, Error>)
    ensures
        ({
            let expected = kept_neighbours(
                candidates_model(candidates@),
                candidates@.len(),
                logical_plan::opt_expr(*predicate),
                evaluator.columns(),
                evaluator.params(),
                k as nat,
            );
            match r {
                Ok(n) => n.results@.len() == n.tuples@.len() && expected == Ok::<
                    Seq<(u64, u32, TupleModel)>,
                    ErrorModel,
                >(neighbours_model(n)),
                Err(e) => expected == Err::<Seq<(u64, u32, TupleModel)>, ErrorModel>(e@),
            }
        }),
{
    let ghost model = candidates_model(candidates@);
    let ghost p = logical_plan::opt_expr(*predicate);
    let mut out: Neighbours = Neighbours { results: Vec::new(), tuples: Vec::new() };
    assert(neighbours_model(out) =~= Seq::<(u64, u32, TupleModel)>::empty());
    let mut i: usize = 0;
    while i < candidates.len()
        invariant
            model == candidates_model(candidates@),
            p == logical_plan::opt_expr(*predicate),
            i <= candidates@.len(),
            out.results@.len() == out.tuples@.len(),
            kept_neighbours(
                model,
                i as nat,
                p,
                evaluator.columns(),
                evaluator.params(),
                k as nat,
            ) == Ok::<Seq<(u64, u32, TupleModel)>, ErrorModel>(neighbours_model(out)),
        decreases candidates.len() - i,
    {
        assert(model[i as int] == candidate_model(candidates@[i as int]));
        if out.tuples.len() > 0 && out.tuples.len() >= k {
            proof {
                lemma_kept_stay(
                    model,
                    i as nat,
                    model.len(),
                    p,
                    evaluator.columns(),
                    evaluator.params(),
                    k as nat,
                );
            }
            return Ok(out);
        }
        if let Some(row) = &candidates[i].row {
            match ordered_topk::is_wanted(predicate, evaluator, row) {
                Err(e) => {
                    proof {
                        lemma_kept_stay(
                            model,
                            (i + 1) as nat,
                            model.len(),
                            p,
                            evaluator.columns(),
                            evaluator.params(),
                            k as nat,
                        );
                    }
                    return Err(e);
                },
                Ok(true) => {
                    let ghost was = neighbours_model(out);
                    let t: Tuple = row.clone();
                    out.results.push((candidates[i].row_id, candidates[i].distance));
                    out.tuples.push(t);
                    assert(neighbours_model(out) =~= was.push(
                        (model[i as int].row_id, model[i as int].distance, t@),
                    ));
                },
                Ok(false) => {},
            }
        }
        i += 1;
    }
    Ok(out)
}

/// Every row that a search leaves passes the predicate.
pub proof fn law_neighbours_pass(
    s: Seq<CandidateModel>,
    n: nat,
    predicate: Option<ExprModel>,
    cols: Seq<ColumnModel>,
    params: Seq<ValueModel>,
    k: nat,
)
    requires
        n <= s.len(),
    ensures
        kept_neighbours(s, n, predicate, cols, params, k) matches Ok(kept) ==> forall|i: int|
            0 <= i < kept.len() ==> passes((#[trigger] kept[i]).2, predicate, cols, params) == Ok::<
                bool,
                ErrorModel,
            >(true),
    decreases n,
{
    if n > 0 {
        law_neighbours_pass(s, (n - 1) as nat, predicate, cols, params, k);
    }
}

impl<'a> Executor<'a> {
    /// What a nearest-neighbour query below a limit asks for, where the plan is
    /// one.
    pub fn try_vector_knn_topk<'p>(&self, input: &'p LogicalPlan, limit: usize) -> (r: Option<
        KnnRequest<'p>,
    >)
        ensures
            match r {
                Some(q) => knn_query(input@, limit, self.env(), self.ctes()) == Some(q@),
                None => knn_query(input@, limit, self.env(), self.ctes()) is None,
            },
    {
        if limit == usize::MAX || storage_view::txn_forces_slow_reads(self.transaction()) {
            return None;
        }
        let sort: SortParts<'p> = match ordered_topk::extract_sort_for_topk(input) {
            Some(s) => s,
            None => {
                return None;
            },
        };
        let (left, metric, right): (&'p LogicalExpr, VectorMetric, &'p LogicalExpr) =
            match find_sorted_distance(&sort) {
            Some(d) => d,
            None => {
                return None;
            },
        };
        let (parts, predicate): (ScanParts<'p>, Option<LogicalExpr>) = match self.knn_scan_with_filter(
            sort.input,
        ) {
            Some(f) => f,
            None => {
                return None;
            },
        };
        let table: &str = parts.table.as_str();
        if storage_view::txn_forces_slow_reads_for_table(self.transaction(), table) {
            return None;
        }
        let source: &str = sources::pick_source(parts.alias, table);
        let schema: Arc<Schema> = Arc::new(
            sources::schema_with_source(parts.schema, source, table),
        );
        let (column, query): (&String, &LogicalExpr) = match find_known_column(left, &schema) {
            Some(name) => (name, right),
            None => match find_known_column(right, &schema) {
                Some(name) => (name, left),
                None => {
                    return None;
                },
            },
        };
        let query: Value = match resolve_const_query_value(query, self.parameters()) {
            Some(v) => v,
            None => {
                return None;
            },
        };
        Some(
            KnnRequest {
                parts,
                schema,
                predicate,
                wrap: sort.wrap,
                column: column.clone(),
                metric,
                query,
            },
        )
    }

    /// Whether a name stands for the current rows of a stored table.
    pub(crate) fn is_plain_table(&self, n: &ScanParts<'_>) -> (r: bool)
        ensures
            r == plain_table(
                self.env(),
                (self.ctes())(n@.table),
                n@.table,
                n@.as_of,
            ),
    {
        let store: &StorageView = match self.storage() {
            Some(s) => s,
            None => {
                return false;
            },
        };
        let table: &str = n.table.as_str();
        n.as_of.is_none() && self.get_cte(table).is_none() && store.find_view(table).is_none()
            && storage_view::find_table(&store.tables, table).is_some()
    }

    /// The scan of a stored table whose rows may be tested one by one.
    pub fn knn_scan_with_filter<'p>(&self, input: &'p LogicalPlan) -> (r: Option<
        (ScanParts<'p>, Option<LogicalExpr>),
    >)
        ensures
            match r {
                Some(f) => knn_scan(input@, self.env(), self.ctes()) == Some(
                    (f.0@, logical_plan::opt_expr(f.1)),
                ),
                None => knn_scan(input@, self.env(), self.ctes()) is None,
            },
    {
        let (parts, predicate): (ScanParts<'p>, Option<LogicalExpr>) = match find_scan_with_filters(
            input,
        ) {
            Some(f) => f,
            None => {
                return None;
            },
        };
        if !self.is_plain_table(&parts) {
            return None;
        }
        let source: &str = sources::pick_source(parts.alias, parts.table.as_str());
        let schema: Schema = sources::schema_with_source(
            parts.schema,
            source,
            parts.table.as_str(),
        );
        if let Some(p) = &predicate {
            if !is_simple_knn_filter(p, &schema) {
                return None;
            }
        }
        Some((parts, predicate))
    }

    /// The rows that a search of a vector index has left, under the `SELECT` list
    /// and the limit of the query.
    pub fn knn_operator(
        &self,
        q: &KnnRequest<'_>,
        found: Neighbours,
        limit: usize,
        offset: usize,
    ) -> (r: Result<AnyOperator, Error>)
        requires
            found.results.len() == found.tuples.len(),
        ensures
            any_operator::builds(
                r,
                match semantics::wrapped(
                    semantics::at_hand(q@.columns, schema::rows_model(found.tuples@)),
                    q@.wrap,
                    self.env(),
                ) {
                    Ok(rel) => Ok(semantics::limited(rel, limit, offset)),
                    Err(e) => Err(e),
                },
                self.limit(),
            ),
    {
        let scan: VectorScanOperator = VectorScanOperator::new(
            q.parts.table.clone(),
            q.schema.clone(),
            found.results,
            found.tuples,
        );
        let op: AnyOperator = AnyOperator::of_vector_scan(scan);
        let ghost rel = semantics::at_hand(q@.columns, schema::rows_model(found.tuples@));
        match self.wrap_over(op, &q.wrap, Ghost(rel)) {
            Ok(p) => Ok(handle_rows::limit_operator(p, limit, offset)),
            Err(e) => Err(e),
        }
    }
}

/// The candidates whose row is there and passes the predicate.
pub open spec fn passing(
    predicate: Option<ExprModel>,
    cols: Seq<ColumnModel>,
    params: Seq<ValueModel>,
) -> spec_fn(CandidateModel) -> bool {
    |c: CandidateModel|
        c.row is Some && passes(c.row->Some_0, predicate, cols, params) == Ok::<bool, ErrorModel>(
            true,
        )
}

/// What candidates are served as.
pub open spec fn served(s: Seq<CandidateModel>) -> Seq<(u64, u32, TupleModel)> {
    s.map_values(|c: CandidateModel| (c.row_id, c.distance, c.row->Some_0))
}

/// The first `k` items of a list, or all where there are fewer.
pub open spec fn first_of(s: Seq<CandidateModel>, k: nat) -> Seq<CandidateModel> {
    if k <= s.len() {
        s.take(k as int)
    } else {
        s
    }
}

proof fn lemma_kept_are_first(
    s: Seq<CandidateModel>,
    n: nat,
    predicate: Option<ExprModel>,
    cols: Seq<ColumnModel>,
    params: Seq<ValueModel>,
    k: nat,
)
    requires
        k > 0,
        n <= s.len(),
        forall|i: int|
            0 <= i < s.len() ==> ((#[trigger] s[i]).row matches Some(row) ==> passes(
                row,
                predicate,
                cols,
                params,
            ) is Ok),
    ensures
        kept_neighbours(s, n, predicate, cols, params, k) == Ok::<
            Seq<(u64, u32, TupleModel)>,
            ErrorModel,
        >(served(first_of(s.take(n as int).filter(passing(predicate, cols, params)), k))),
    decreases n,
{
    let keep = passing(predicate, cols, params);
    if n > 0 {
        let m = (n - 1) as nat;
        let c = s[n - 1];
        lemma_kept_are_first(s, m, predicate, cols, params, k);
        let before = s.take(m as int).filter(keep);
        let now = s.take(n as int).filter(keep);
        assert(s.take(n as int) =~= s.take(m as int) + seq![c]);
        Seq::filter_distributes_over_add(s.take(m as int), seq![c], keep);
        filter::lemma_filter_one(c, keep);
        let kept = served(first_of(before, k));
        assert(s[n - 1].row matches Some(row) ==> passes(row, predicate, cols, params) is Ok);
        if before.len() >= k {
            assert(first_of(now, k) =~= first_of(before, k));
        } else if keep(c) {
            assert(now =~= before.push(c));
            assert(first_of(now, k) =~= now);
            assert(served(now) =~= kept.push((c.row_id, c.distance, c.row->Some_0)));
        } else {
            assert(now =~= before);
        }
    } else {
        assert(s.take(0) =~= Seq::<CandidateModel>::empty());
        filter::lemma_filter_none(keep);
        assert(served(Seq::<CandidateModel>::empty()) =~= Seq::<(u64, u32, TupleModel)>::empty());
    }
}

/// Of the candidates of a search, the nearest that pass the predicate are served: the first
/// of them in the order in which they came, as many as were asked for, and no other.
pub proof fn law_the_nearest_that_pass_are_served(
    s: Seq<CandidateModel>,
    predicate: Option<ExprModel>,
    cols: Seq<ColumnModel>,
    params: Seq<ValueModel>,
    k: nat,
)
    requires
        k > 0,
        forall|i: int|
            0 <= i < s.len() ==> ((#[trigger] s[i]).row matches Some(row) ==> passes(
                row,
                predicate,
                cols,
                params,
            ) is Ok),
    ensures
        kept_neighbours(s, s.len(), predicate, cols, params, k) == Ok::<
            Seq<(u64, u32, TupleModel)>,
            ErrorModel,
        >(served(first_of(s.filter(passing(predicate, cols, params)), k))),
{
    lemma_kept_are_first(s, s.len(), predicate, cols, params, k);
    assert(s.take(s.len() as int) =~= s);
}

/// Two predicates taken together pass a row exactly where each of them passes it, where
/// each gives a truth value or NULL on it.
pub proof fn law_both_predicates_must_pass(
    a: Option<ExprModel>,
    b: Option<ExprModel>,
    row: TupleModel,
    cols: Seq<ColumnModel>,
    params: Seq<ValueModel>,
)
    requires
        passes(row, a, cols, params) is Ok,
        passes(row, b, cols, params) is Ok,
    ensures
        passes(row, both_hold(a, b), cols, params) == Ok::<bool, ErrorModel>(
            passes(row, a, cols, params)->Ok_0 && passes(row, b, cols, params)->Ok_0,
        ),
{
}

} // verus!
