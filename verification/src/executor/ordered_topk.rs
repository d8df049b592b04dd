//! `ORDER BY` an indexed column with a `LIMIT`, served in index order.

use crate::evaluator;
use crate::evaluator::Evaluator;
use crate::executor::filter;
use crate::executor::handle_scan::ScanParts;
use crate::executor::index_lookup;
use crate::executor::index_lookup::{RangeBound, RangeBoundModel};
use crate::executor::join_pair;
use crate::executor::join_planning;
use crate::executor::semantics;
use crate::executor::semantics::{Ctes, ScanNode};
use crate::executor::sources;
use crate::executor::sources::Env;
use crate::executor::storage_view;
use crate::executor::storage_view::{IndexEntry, StorageView};
use crate::logical_plan;
use crate::logical_plan::{ExprModel, LogicalExpr, LogicalPlan, PlanModel};
use crate::schema;
use crate::schema::{ColumnModel, Error, ErrorModel, Tuple, TupleModel};
use crate::value::{Value, ValueModel};
use vstd::prelude::*;

verus! {

/// A sort, with the `SELECT` list above it.
#[verifier::ext_equal]
pub struct SortModel {
    pub exprs: Seq<ExprModel>,
    pub asc: Seq<bool>,
    pub input: PlanModel,
    pub wrap: Option<WrapModel>,
}

/// A `SELECT` list.
#[verifier::ext_equal]
pub struct WrapModel {
    pub exprs: Seq<ExprModel>,
    pub aliases: Seq<Seq<char>>,
    pub distinct: bool,
    pub distinct_on: Option<Seq<ExprModel>>,
}

/// The sort that a plan is, or that a `SELECT` list stands on.
pub open spec fn sort_below(p: PlanModel) -> Option<SortModel> {
    match p {
        PlanModel::Sort { input, exprs, asc } => Some(
            SortModel { exprs, asc, input: *input, wrap: None },
        ),
        PlanModel::Project { input, exprs, aliases, distinct, distinct_on, source_alias } => match
            *input {
            PlanModel::Sort { input: below, exprs: keys, asc } => Some(
                SortModel {
                    exprs: keys,
                    asc,
                    input: *below,
                    wrap: Some(WrapModel { exprs, aliases, distinct, distinct_on }),
                },
            ),
            _ => None,
        },
        _ => None,
    }
}

/// A sort, with the `SELECT` list above it.
pub struct SortParts<'p> {
    pub exprs: &'p Vec<LogicalExpr>,
    pub asc: &'p Vec<bool>,
    pub input: &'p LogicalPlan,
    pub wrap: Option<WrapParts<'p>>,
}

/// A `SELECT` list.
pub struct WrapParts<'p> {
    pub exprs: &'p Vec<LogicalExpr>,
    pub aliases: &'p Vec<String>,
    pub distinct: bool,
    pub distinct_on: &'p Option<Vec<LogicalExpr>>,
}

pub open spec fn wrap_model(w: Option<WrapParts<'_>>) -> Option<WrapModel> {
    match w {
        Some(x) => Some(
            WrapModel {
                exprs: logical_plan::exprs_model(x.exprs@),
                aliases: schema::texts(x.aliases@),
                distinct: x.distinct,
                distinct_on: logical_plan::opt_exprs(*x.distinct_on),
            },
        ),
        None => None,
    }
}

impl<'p> View for SortParts<'p> {
    type V = SortModel;

    open spec fn view(&self) -> SortModel {
        SortModel {
            exprs: logical_plan::exprs_model(self.exprs@),
            asc: self.asc@,
            input: self.input@,
            wrap: wrap_model(self.wrap),
        }
    }
}

/// The sort that a plan is, or that a `SELECT` list stands on.
pub fn extract_sort_for_topk(plan: &LogicalPlan) -> (r: Option<SortParts<'_>>)
    ensures
        match r {
            Some(s) => sort_below(plan@) == Some(s@),
            None => sort_below(plan@) is None,
        },
{
    proof {
        reveal_with_fuel(logical_plan::plan_model, 3);
    }
    match plan {
        LogicalPlan::Sort { input, exprs, asc } => Some(
            SortParts { exprs, asc, input, wrap: None },
        ),
        LogicalPlan::Project { input, exprs, aliases, distinct, distinct_on, .. } => {
            if let LogicalPlan::Sort { input: below, exprs: keys, asc } = &**input {
                Some(
                    SortParts {
                        exprs: keys,
                        asc,
                        input: below,
                        wrap: Some(
                            WrapParts { exprs, aliases, distinct: *distinct, distinct_on },
                        ),
                    },
                )
            } else {
                None
            }
        },
        _ => None,
    }
}

/// The scan that a plan is, with the predicate on it.
pub open spec fn filtered_scan_node(p: PlanModel) -> Option<(ScanNode, Option<ExprModel>)> {
    match p {
        PlanModel::Scan { table_name, alias, schema, projection, as_of } => Some(
            (ScanNode { table: table_name, alias, cols: schema, projection, as_of }, None),
        ),
        PlanModel::FilteredScan { table_name, alias, schema, projection, predicate, as_of } => Some(
            (ScanNode { table: table_name, alias, cols: schema, projection, as_of }, predicate),
        ),
        PlanModel::Filter { input, predicate } => match semantics::scan_node(*input) {
            Some(n) => Some((n, Some(predicate))),
            None => None,
        },
        _ => None,
    }
}

/// The scan that a plan is, with the predicate on it.
pub fn filtered_scan_parts(plan: &LogicalPlan) -> (r: Option<
    (ScanParts<'_>, Option<&LogicalExpr>),
>)
    ensures
        match r {
            Some(f) => filtered_scan_node(plan@) == Some(
                (f.0@, join_planning::opt_borrowed(f.1)),
            ),
            None => filtered_scan_node(plan@) is None,
        },
{
    match plan {
        LogicalPlan::Scan { table_name, alias, schema, projection, as_of } => Some(
            (ScanParts { table: table_name, alias, schema, projection, as_of }, None),
        ),
        LogicalPlan::FilteredScan { table_name, alias, schema, projection, predicate, as_of } => {
            let p: Option<&LogicalExpr> = match predicate {
                Some(e) => Some(e),
                None => None,
            };
            Some((ScanParts { table: table_name, alias, schema, projection, as_of }, p))
        },
        LogicalPlan::Filter { input, predicate } => match crate::executor::handle_scan::scan_parts(
            input,
        ) {
            Some(n) => Some((n, Some(predicate))),
            None => None,
        },
        _ => None,
    }
}

/// A sort that an index serves.
#[verifier::ext_equal]
pub struct TopkModel {
    pub node: ScanNode,
    pub predicate: Option<ExprModel>,
    pub wrap: Option<WrapModel>,
    pub at: usize,
    pub column: Seq<char>,
    pub index: Seq<char>,
    pub lower: Option<RangeBoundModel>,
    pub upper: Option<RangeBoundModel>,
}

/// The bounds of the index that a predicate sets: those of a range on the sorted
/// column. Another predicate could drop any number of rows and sets none.
pub open spec fn topk_bounds(
    predicate: Option<ExprModel>,
    column: Seq<char>,
    cols: Seq<ColumnModel>,
    table: Seq<char>,
    s: storage_view::StoreModel,
    params: Seq<ValueModel>,
) -> Option<(Option<RangeBoundModel>, Option<RangeBoundModel>)> {
    match predicate {
        None => Some((None, None)),
        Some(p) => match index_lookup::index_range(p, cols, params, s.indexes, table) {
            Some(r) => if r.column_name == column {
                Some((r.lower, r.upper))
            } else {
                None
            },
            None => None,
        },
    }
}

/// Whether an index has an entry for every row of its table.
pub open spec fn index_is_complete(
    s: storage_view::StoreModel,
    index: Seq<char>,
    table: Seq<char>,
) -> bool {
    match storage_view::entries_of(s.contents, index, 0) {
        Some(e) => e.len() == sources::rows_of_table(s.tables, table).len(),
        None => false,
    }
}

/// The name of the one column that a sort goes up by.
pub open spec fn sorted_column(s: SortModel) -> Option<Seq<char>> {
    if s.exprs.len() == 1 && s.asc.len() == 1 && s.asc[0] && (match s.wrap {
        Some(w) => !w.distinct && w.distinct_on is None,
        None => true,
    }) {
        match s.exprs[0] {
            ExprModel::Column { table, name } => Some(name),
            _ => None,
        }
    } else {
        None
    }
}

/// How an index serves the sort below a limit, where one can.
pub open spec fn served_by_index(input: PlanModel, env: Env, ctes: Ctes) -> Option<TopkModel> {
    if env.settings.index_range_off {
        None
    } else {
        match (env.storage, sort_below(input)) {
            (Some(s), Some(sort)) => match (sorted_column(sort), filtered_scan_node(sort.input)) {
                (Some(name), Some(found)) => {
                    let n = found.0;
                    match schema::column_index(n.cols, name) {
                        None => None,
                        Some(at) => {
                            let column = n.cols[at as int].name;
                            match index_lookup::index_on(s.indexes, n.table, column, 0) {
                                None => None,
                                Some(index) => if index_lookup::ordered_type(
                                    n.cols[at as int].data_type,
                                ) && sources::can_look_up(
                                    env,
                                    ctes(n.table),
                                    n.table,
                                    n.as_of,
                                ) && index_is_complete(s, index, n.table) {
                                    match topk_bounds(
                                        found.1,
                                        column,
                                        n.cols,
                                        n.table,
                                        s,
                                        env.params,
                                    ) {
                                        None => None,
                                        Some(b) => Some(
                                            TopkModel {
                                                node: n,
                                                predicate: found.1,
                                                wrap: sort.wrap,
                                                at,
                                                column,
                                                index,
                                                lower: b.0,
                                                upper: b.1,
                                            },
                                        ),
                                    }
                                } else {
                                    None
                                },
                            }
                        },
                    }
                },
                _ => None,
            },
            _ => None,
        }
    }
}

/// A sort that an index serves.
pub struct OrderedTopkSpec<'p> {
    pub parts: ScanParts<'p>,
    pub predicate: Option<&'p LogicalExpr>,
    pub wrap: Option<WrapParts<'p>>,
    pub at: usize,
    pub column_name: String,
    pub index_name: String,
    pub lower: Option<RangeBound>,
    pub upper: Option<RangeBound>,
}

impl<'p> View for OrderedTopkSpec<'p> {
    type V = TopkModel;

    open spec fn view(&self) -> TopkModel {
        TopkModel {
            node: self.parts@,
            predicate: join_planning::opt_borrowed(self.predicate),
            wrap: wrap_model(self.wrap),
            at: self.at,
            column: self.column_name@,
            index: self.index_name@,
            lower: index_lookup::opt_range_bound(self.lower),
            upper: index_lookup::opt_range_bound(self.upper),
        }
    }
}

pub(crate) fn find_sorted_column<'p>(s: &SortParts<'p>) -> (r: Option<&'p String>)
    ensures
        match r {
            Some(name) => sorted_column(s@) == Some(name@),
            None => sorted_column(s@) is None,
        },
{
    proof {
        logical_plan::lemma_exprs_model(s.exprs@);
    }
    if s.exprs.len() != 1 || s.asc.len() != 1 || !s.asc[0] {
        return None;
    }
    if let Some(w) = &s.wrap {
        if w.distinct || w.distinct_on.is_some() {
            return None;
        }
    }
    assert(logical_plan::exprs_model(s.exprs@)[0] == s.exprs@[0]@);
    match &s.exprs[0] {
        LogicalExpr::Column { table: _, name } => Some(name),
        _ => None,
    }
}

pub(crate) fn covers_all_rows(store: &StorageView, index: &str, table: &str) -> (r: bool)
    ensures
        r == index_is_complete(store@, index@, table@),
{
    let rows: usize = match storage_view::find_table(&store.tables, table) {
        Some(t) => t.rows.len(),
        None => 0,
    };
    match store.index_entries(index) {
        Some(e) => e.len() == rows,
        None => false,
    }
}

/// What is fetched in index order: the rows of the table, the sorted column, the
/// predicate with its subqueries replaced, and how many rows are wanted.
#[verifier::ext_equal]
pub struct TopkQuery {
    pub rows: Seq<TupleModel>,
    pub at: usize,
    pub predicate: Option<ExprModel>,
    pub cols: Seq<ColumnModel>,
    pub params: Seq<ValueModel>,
    pub k: nat,
}

/// What visiting entries of an index has come to: the rows whose sorted column
/// is NULL and the others, whether all the former must have been seen, and
/// whether there are enough rows.
#[verifier::ext_equal]
pub struct Visit {
    pub nulls: Seq<TupleModel>,
    pub others: Seq<TupleModel>,
    pub past: bool,
    pub enough: bool,
}

pub open spec fn nothing_visited() -> Visit {
    Visit { nulls: Seq::empty(), others: Seq::empty(), past: false, enough: false }
}

/// Whether the sorted column of a row is NULL.
pub open spec fn sorts_first(row: TupleModel, at: usize) -> bool {
    at >= row.values.len() || row.values[at as int] is Null
}

/// Whether a row satisfies the predicate.
pub open spec fn wanted(q: TopkQuery, row: TupleModel) -> Result<bool, ErrorModel> {
    match q.predicate {
        None => Ok(true),
        Some(p) => filter::keeps(evaluator::eval(p, q.cols, q.params, row.values)),
    }
}

/// The visit with one more row.
pub open spec fn with_row(v: Visit, row: TupleModel, q: TopkQuery) -> Visit {
    if sorts_first(row, q.at) {
        Visit { nulls: v.nulls.push(row), ..v }
    } else {
        Visit {
            others: v.others.push(row),
            enough: v.past && v.nulls.len() + v.others.len() + 1 >= q.k,
            ..v
        }
    }
}

/// The visit of the first `n` entries, which ends where there are enough rows.
pub open spec fn visited(entries: Seq<(ValueModel, u64)>, n: nat, q: TopkQuery) -> Result<
    Visit,
    ErrorModel,
>
    decreases n,
{
    if n == 0 || n > entries.len() {
        Ok(nothing_visited())
    } else {
        match visited(entries, (n - 1) as nat, q) {
            Err(e) => Err(e),
            Ok(v) => if v.enough {
                Ok(v)
            } else {
                let entry = entries[n - 1];
                let seen = Visit { past: v.past || storage_view::past_null(entry.0), ..v };
                match storage_view::row_with_id(q.rows, entry.1, 0) {
                    None => Ok(seen),
                    Some(row) => match wanted(q, row) {
                        Err(e) => Err(e),
                        Ok(true) => Ok(with_row(seen, row, q)),
                        Ok(false) => Ok(seen),
                    },
                }
            },
        }
    }
}

/// How many entries are fetched at first.
pub open spec fn first_fetch(k: usize, total: usize) -> usize {
    let twice = join_pair::capped((k * 2) as nat);
    let more = join_pair::capped((k + 8) as nat);
    let most = if twice >= more {
        twice
    } else {
        more
    };
    if most <= total {
        most
    } else {
        total
    }
}

/// How many entries are fetched next.
pub open spec fn next_fetch(fetch: usize, total: usize) -> usize {
    let more = join_pair::capped((fetch * 4) as nat);
    if more <= total {
        more
    } else {
        total
    }
}

/// The rows in order: those with NULL before the others.
pub open spec fn in_output_order(v: Visit, k: nat) -> Seq<TupleModel> {
    let all = v.nulls + v.others;
    if k <= all.len() {
        all.take(k as int)
    } else {
        all
    }
}

/// Whether a visit of `fetch` entries is enough: all there are were fetched, or
/// there are enough rows and no row with NULL can be missing among the first.
pub open spec fn settles(
    v: Visit,
    entries: Seq<(ValueModel, u64)>,
    fetch: usize,
    total: usize,
    k: nat,
) -> bool {
    entries.len() < fetch || fetch >= total || (v.nulls.len() + v.others.len() >= k && (v.past
        || v.nulls.len() >= k))
}

/// The first rows in index order, fetched in growing batches.
pub open spec fn ordered_rows(
    entries: Seq<(ValueModel, u64)>,
    fetch: usize,
    total: usize,
    q: TopkQuery,
) -> Result<Seq<TupleModel>, ErrorModel>
    decreases total - fetch,
{
    let batch = if fetch <= entries.len() {
        fetch as nat
    } else {
        entries.len()
    };
    match visited(entries, batch, q) {
        Err(e) => Err(e),
        Ok(v) => if settles(v, entries, fetch, total, q.k) || next_fetch(fetch, total) <= fetch {
            Ok(in_output_order(v, q.k))
        } else {
            ordered_rows(entries, next_fetch(fetch, total), total, q)
        },
    }
}

proof fn lemma_visited_stays(entries: Seq<(ValueModel, u64)>, k: nat, n: nat, q: TopkQuery)
    requires
        k <= n <= entries.len(),
        visited(entries, k, q) is Err || visited(entries, k, q)->Ok_0.enough,
    ensures
        visited(entries, n, q) == visited(entries, k, q),
    decreases n,
{
    if k < n {
        lemma_visited_stays(entries, k, (n - 1) as nat, q);
    }
}

pub open spec fn opt_visit(v: VisitState) -> Visit {
    Visit {
        nulls: schema::rows_model(v.nulls@),
        others: schema::rows_model(v.others@),
        past: v.past,
        enough: v.enough,
    }
}

/// What visiting entries of an index has come to.
pub struct VisitState {
    pub nulls: Vec<Tuple>,
    pub others: Vec<Tuple>,
    pub past: bool,
    pub enough: bool,
}

fn is_first(row: &Tuple, at: usize) -> (r: bool)
    ensures
        r == sorts_first(row@, at),
{
    if at >= row.values.len() {
        return true;
    }
    assert(row@.values[at as int] == row.values@[at as int]@);
    matches!(row.values[at], Value::Null)
}

pub(crate) fn is_wanted(predicate: &Option<LogicalExpr>, evaluator: &Evaluator, row: &Tuple) -> (r: Result<
    bool,
    Error,
>)
    ensures
        match r {
            Ok(b) => (match logical_plan::opt_expr(*predicate) {
                None => Ok::<bool, ErrorModel>(true),
                Some(p) => filter::keeps(
                    evaluator::eval(p, evaluator.columns(), evaluator.params(), row@.values),
                ),
            }) == Ok::<bool, ErrorModel>(b),
            Err(e) => (match logical_plan::opt_expr(*predicate) {
                None => Ok::<bool, ErrorModel>(true),
                Some(p) => filter::keeps(
                    evaluator::eval(p, evaluator.columns(), evaluator.params(), row@.values),
                ),
            }) == Err::<bool, ErrorModel>(e@),
        },
{
    match predicate {
        None => Ok(true),
        Some(p) => match evaluator.evaluate(p, row) {
            Ok(Value::Boolean(b)) => Ok(b),
            Ok(Value::Null) => Ok(false),
            Ok(v) => Err(filter::not_a_filter_error(&v)),
            Err(e) => Err(e),
        },
    }
}

/// Visits the first entries of an index.
pub fn visit_entries(
    entries: &Vec<IndexEntry>,
    batch: usize,
    rows: &Vec<Tuple>,
    at: usize,
    predicate: &Option<LogicalExpr>,
    evaluator: &Evaluator,
    k: usize,
) -> (r: Result<VisitState, Error>)
    requires
        batch <= entries.len(),
    ensures
        ({
            let q = TopkQuery {
                rows: schema::rows_model(rows@),
                at,
                predicate: logical_plan::opt_expr(*predicate),
                cols: evaluator.columns(),
                params: evaluator.params(),
                k: k as nat,
            };
            let expected = visited(storage_view::entries_model(entries@), batch as nat, q);
            match r {
                Ok(v) => expected == Ok::<Visit, ErrorModel>(opt_visit(v)) && v.nulls@.len()
                    + v.others@.len() <= batch,
                Err(e) => expected == Err::<Visit, ErrorModel>(e@),
            }
        }),
{
    let ghost model = storage_view::entries_model(entries@);
    let ghost q = TopkQuery {
        rows: schema::rows_model(rows@),
        at,
        predicate: logical_plan::opt_expr(*predicate),
        cols: evaluator.columns(),
        params: evaluator.params(),
        k: k as nat,
    };
    let mut v: VisitState = VisitState {
        nulls: Vec::new(),
        others: Vec::new(),
        past: false,
        enough: false,
    };
    assert(opt_visit(v) =~= nothing_visited());
    let mut i: usize = 0;
    while i < batch
        invariant
            model == storage_view::entries_model(entries@),
            q == (TopkQuery {
                rows: schema::rows_model(rows@),
                at,
                predicate: logical_plan::opt_expr(*predicate),
                cols: evaluator.columns(),
                params: evaluator.params(),
                k: k as nat,
            }),
            i <= batch <= entries@.len(),
            v.nulls@.len() + v.others@.len() <= i,
            !v.enough,
            visited(model, i as nat, q) == Ok::<Visit, ErrorModel>(opt_visit(v)),
        decreases batch - i,
    {
        assert(model[i as int] == (entries@[i as int].key@, entries@[i as int].row_id));
        if storage_view::is_past_null(&entries[i].key) {
            v.past = true;
        }
        if let Some(row) = storage_view::find_row(rows, entries[i].row_id) {
            match is_wanted(predicate, evaluator, row) {
                Err(e) => {
                    proof {
                        lemma_visited_stays(model, (i + 1) as nat, batch as nat, q);
                    }
                    return Err(e);
                },
                Ok(true) => {
                    if is_first(row, at) {
                        let ghost was = schema::rows_model(v.nulls@);
                        let t: Tuple = row.clone();
                        v.nulls.push(t);
                        assert(schema::rows_model(v.nulls@) =~= was.push(t@));
                    } else {
                        let ghost was = schema::rows_model(v.others@);
                        let t: Tuple = row.clone();
                        v.others.push(t);
                        assert(schema::rows_model(v.others@) =~= was.push(t@));
                        v.enough = v.past && v.nulls.len() + v.others.len() >= k;
                    }
                },
                Ok(false) => {},
            }
        }
        i += 1;
        if v.enough {
            proof {
                lemma_visited_stays(model, i as nat, batch as nat, q);
            }
            return Ok(v);
        }
    }
    Ok(v)
}

fn choose_first_fetch(k: usize, total: usize) -> (r: usize)
    ensures
        r == first_fetch(k, total),
{
    let twice: usize = join_planning::capped_times(k, 2);
    let more: usize = k.saturating_add(8);
    let most: usize = if twice >= more {
        twice
    } else {
        more
    };
    if most <= total {
        most
    } else {
        total
    }
}

fn choose_next_fetch(fetch: usize, total: usize) -> (r: usize)
    ensures
        r == next_fetch(fetch, total),
{
    let more: usize = join_planning::capped_times(fetch, 4);
    if more <= total {
        more
    } else {
        total
    }
}

fn order_visited(v: VisitState, k: usize) -> (r: Vec<Tuple>)
    ensures
        schema::rows_model(r@) == in_output_order(opt_visit(v), k as nat),
{
    let ghost all = opt_visit(v).nulls + opt_visit(v).others;
    let mut out: Vec<Tuple> = v.nulls;
    let mut others: Vec<Tuple> = v.others;
    out.append(&mut others);
    assert(schema::rows_model(out@) =~= all);
    if k < out.len() {
        let ghost whole = out@;
        out.truncate(k);
        assert(out@ =~= whole.take(k as int));
        assert(schema::rows_model(out@) =~= all.take(k as int));
    } else {
        assert(k == all.len() ==> all.take(k as int) =~= all);
    }
    out
}

/// The first rows in index order, fetched in growing batches.
pub fn fetch_in_index_order(
    entries: &Vec<IndexEntry>,
    total: usize,
    rows: &Vec<Tuple>,
    at: usize,
    predicate: &Option<LogicalExpr>,
    evaluator: &Evaluator,
    k: usize,
) -> (r: Result<Vec<Tuple>, Error>)
    ensures
        ({
            let q = TopkQuery {
                rows: schema::rows_model(rows@),
                at,
                predicate: logical_plan::opt_expr(*predicate),
                cols: evaluator.columns(),
                params: evaluator.params(),
                k: k as nat,
            };
            let expected = ordered_rows(
                storage_view::entries_model(entries@),
                first_fetch(k, total),
                total,
                q,
            );
            match r {
                Ok(v) => expected == Ok::<Seq<TupleModel>, ErrorModel>(schema::rows_model(v@)),
                Err(e) => expected == Err::<Seq<TupleModel>, ErrorModel>(e@),
            }
        }),
{
    let ghost model = storage_view::entries_model(entries@);
    let ghost q = TopkQuery {
        rows: schema::rows_model(rows@),
        at,
        predicate: logical_plan::opt_expr(*predicate),
        cols: evaluator.columns(),
        params: evaluator.params(),
        k: k as nat,
    };
    let mut fetch: usize = choose_first_fetch(k, total);
    loop
        invariant
            model == storage_view::entries_model(entries@),
            q == (TopkQuery {
                rows: schema::rows_model(rows@),
                at,
                predicate: logical_plan::opt_expr(*predicate),
                cols: evaluator.columns(),
                params: evaluator.params(),
                k: k as nat,
            }),
            fetch <= total,
            ordered_rows(model, first_fetch(k, total), total, q) == ordered_rows(
                model,
                fetch,
                total,
                q,
            ),
        decreases total - fetch,
    {
        let batch: usize = if fetch <= entries.len() {
            fetch
        } else {
            entries.len()
        };
        let v: VisitState = match visit_entries(
            entries,
            batch,
            rows,
            at,
            predicate,
            evaluator,
            k,
        ) {
            Ok(v) => v,
            Err(e) => {
                return Err(e);
            },
        };
        let found: usize = v.nulls.len() + v.others.len();
        let settled: bool = entries.len() < fetch || fetch >= total || (found >= k && (v.past
            || v.nulls.len() >= k));
        let next: usize = choose_next_fetch(fetch, total);
        if settled || next <= fetch {
            return Ok(order_visited(v, k));
        }
        fetch = next;
    }
}

/// The rows that the first `n` entries lead to and that satisfy the predicate:
/// those whose sorted column is NULL, or the others.
pub open spec fn rows_reached(
    entries: Seq<(ValueModel, u64)>,
    n: nat,
    q: TopkQuery,
    first: bool,
) -> Seq<TupleModel>
    decreases n,
{
    if n == 0 || n > entries.len() {
        Seq::empty()
    } else {
        let before = rows_reached(entries, (n - 1) as nat, q, first);
        match storage_view::row_with_id(q.rows, entries[n - 1].1, 0) {
            None => before,
            Some(row) => if wanted(q, row) == Ok::<bool, ErrorModel>(true) && sorts_first(
                row,
                q.at,
            ) == first {
                before.push(row)
            } else {
                before
            },
        }
    }
}

/// Whether one of the first `n` entries lies behind NULL.
pub open spec fn past_by(entries: Seq<(ValueModel, u64)>, n: nat) -> bool
    decreases n,
{
    n != 0 && n <= entries.len() && (past_by(entries, (n - 1) as nat) || storage_view::past_null(
        entries[n - 1].0,
    ))
}

/// Whether the predicate can be evaluated on every row that an index leads to.
pub open spec fn never_fails(entries: Seq<(ValueModel, u64)>, q: TopkQuery) -> bool {
    forall|i: int|
        0 <= i < entries.len() ==> (storage_view::row_with_id(
            q.rows,
            (#[trigger] entries[i]).1,
            0,
        ) matches Some(row) ==> wanted(q, row) is Ok)
}

/// Whether no row with NULL comes behind a key that lies behind NULL.
pub open spec fn nulls_lead(entries: Seq<(ValueModel, u64)>, q: TopkQuery) -> bool {
    forall|i: int, j: int|
        0 <= i < j < entries.len() && storage_view::past_null((#[trigger] entries[i]).0) ==> (
        storage_view::row_with_id(q.rows, (#[trigger] entries[j]).1, 0) matches Some(row)
            ==> !sorts_first(row, q.at))
}

proof fn lemma_visited_reaches(entries: Seq<(ValueModel, u64)>, n: nat, q: TopkQuery) -> (m: nat)
    requires
        n <= entries.len(),
        never_fails(entries, q),
    ensures
        m <= n,
        visited(entries, n, q) matches Ok(v) && v.nulls == rows_reached(entries, m, q, true)
            && v.others == rows_reached(entries, m, q, false) && v.past == past_by(entries, m) && (
        v.enough || m == n) && (v.enough ==> v.past && v.nulls.len() + v.others.len() >= q.k),
    decreases n,
{
    if n == 0 {
        0
    } else {
        let m = lemma_visited_reaches(entries, (n - 1) as nat, q);
        let v = visited(entries, (n - 1) as nat, q)->Ok_0;
        if v.enough {
            m
        } else {
            assert(entries[n - 1] == entries[n - 1]);
            n
        }
    }
}

proof fn lemma_reached_grows(
    entries: Seq<(ValueModel, u64)>,
    m: nat,
    n: nat,
    q: TopkQuery,
    first: bool,
)
    requires
        m <= n <= entries.len(),
    ensures
        rows_reached(entries, m, q, first).len() <= rows_reached(entries, n, q, first).len(),
        rows_reached(entries, m, q, first) == rows_reached(entries, n, q, first).take(
            rows_reached(entries, m, q, first).len() as int,
        ),
    decreases n,
{
    let small = rows_reached(entries, m, q, first);
    if m < n {
        lemma_reached_grows(entries, m, (n - 1) as nat, q, first);
        let before = rows_reached(entries, (n - 1) as nat, q, first);
        let now = rows_reached(entries, n, q, first);
        assert(now.take(small.len() as int) =~= before.take(small.len() as int));
    } else {
        assert(small.take(small.len() as int) =~= small);
    }
}

proof fn lemma_past_by(entries: Seq<(ValueModel, u64)>, m: nat) -> (i: int)
    requires
        m <= entries.len(),
        past_by(entries, m),
    ensures
        0 <= i < m,
        storage_view::past_null(entries[i].0),
    decreases m,
{
    if past_by(entries, (m - 1) as nat) {
        lemma_past_by(entries, (m - 1) as nat)
    } else {
        m - 1
    }
}

proof fn lemma_no_more_nulls(entries: Seq<(ValueModel, u64)>, m: nat, n: nat, q: TopkQuery)
    requires
        m <= n <= entries.len(),
        nulls_lead(entries, q),
        past_by(entries, m),
    ensures
        rows_reached(entries, n, q, true) == rows_reached(entries, m, q, true),
    decreases n,
{
    if m < n {
        lemma_no_more_nulls(entries, m, (n - 1) as nat, q);
        let i = lemma_past_by(entries, m);
        assert(storage_view::past_null(entries[i].0) && i < n - 1);
        assert(entries[n - 1] == entries[n - 1]);
    }
}

proof fn lemma_settled_visit(
    entries: Seq<(ValueModel, u64)>,
    m: nat,
    v: Visit,
    q: TopkQuery,
)
    requires
        m <= entries.len(),
        nulls_lead(entries, q),
        v.nulls == rows_reached(entries, m, q, true),
        v.others == rows_reached(entries, m, q, false),
        v.past == past_by(entries, m),
        m == entries.len() || (v.nulls.len() + v.others.len() >= q.k && (v.past || v.nulls.len()
            >= q.k)),
    ensures
        in_output_order(v, q.k) == first_in_order(entries, q),
{
    let n = entries.len();
    let nulls = rows_reached(entries, n, q, true);
    let others = rows_reached(entries, n, q, false);
    if m < n {
        lemma_reached_grows(entries, m, n, q, true);
        lemma_reached_grows(entries, m, n, q, false);
        if v.past {
            lemma_no_more_nulls(entries, m, n, q);
            assert((v.nulls + v.others).take(q.k as int) =~= (nulls + others).take(q.k as int));
        } else {
            assert((v.nulls + v.others).take(q.k as int) =~= (nulls + others).take(q.k as int));
        }
    }
}

/// The first rows in the order of an index: those whose sorted column is NULL,
/// then the others as the index has them.
pub open spec fn first_in_order(entries: Seq<(ValueModel, u64)>, q: TopkQuery) -> Seq<TupleModel> {
    in_output_order(
        Visit {
            nulls: rows_reached(entries, entries.len(), q, true),
            others: rows_reached(entries, entries.len(), q, false),
            past: false,
            enough: false,
        },
        q.k,
    )
}

proof fn lemma_batches_settle(
    entries: Seq<(ValueModel, u64)>,
    fetch: usize,
    total: usize,
    q: TopkQuery,
)
    requires
        fetch > 0 || fetch >= total,
        fetch <= total,
        entries.len() <= total,
        never_fails(entries, q),
        nulls_lead(entries, q),
    ensures
        ordered_rows(entries, fetch, total, q) == Ok::<Seq<TupleModel>, ErrorModel>(
            first_in_order(entries, q),
        ),
    decreases total - fetch,
{
    let batch = if fetch <= entries.len() {
        fetch as nat
    } else {
        entries.len()
    };
    let m = lemma_visited_reaches(entries, batch, q);
    let v = visited(entries, batch, q)->Ok_0;
    if settles(v, entries, fetch, total, q.k) {
        lemma_settled_visit(entries, m, v, q);
    } else {
        assert(next_fetch(fetch, total) > fetch);
        lemma_batches_settle(entries, next_fetch(fetch, total), total, q);
    }
}

/// However many batches it takes, what comes out are the first rows in the order
/// of the index, NULL first, as if all its entries had been visited.
pub proof fn law_batches_give_the_first_rows(
    entries: Seq<(ValueModel, u64)>,
    total: usize,
    k: usize,
    q: TopkQuery,
)
    requires
        q.k == k,
        entries.len() <= total,
        never_fails(entries, q),
        nulls_lead(entries, q),
    ensures
        ordered_rows(entries, first_fetch(k, total), total, q) == Ok::<
            Seq<TupleModel>,
            ErrorModel,
        >(first_in_order(entries, q)),
{
    lemma_batches_settle(entries, first_fetch(k, total), total, q);
}

} // verus!
