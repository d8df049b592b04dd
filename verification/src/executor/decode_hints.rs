//! Which columns of a table a plan reads, so that a scan decodes no more.

use crate::expr_tree;
use crate::logical_plan;
use crate::logical_plan::{AggregateFunction, ExprModel, LogicalExpr, LogicalPlan, PlanModel};
use crate::schema;
use crate::schema::{ColumnModel, Schema};
use crate::text;
use std::sync::Arc;
use vstd::prelude::*;

verus! {

/// Which columns of a row are decoded: a number of leading ones, or given ones.
#[derive(Debug, PartialEq, Eq)]
pub enum ScanDecodeHint {
    Prefix(usize),
    Columns(Vec<usize>),
}

pub enum HintModel {
    Prefix(usize),
    Columns(Seq<usize>),
}

impl View for ScanDecodeHint {
    type V = HintModel;

    open spec fn view(&self) -> HintModel {
        match *self {
            ScanDecodeHint::Prefix(n) => HintModel::Prefix(n),
            ScanDecodeHint::Columns(v) => HintModel::Columns(v@),
        }
    }
}

impl Clone for ScanDecodeHint {
    fn clone(&self) -> (r: ScanDecodeHint)
        ensures
            r@ == self@,
    {
        match self {
            ScanDecodeHint::Prefix(n) => ScanDecodeHint::Prefix(*n),
            ScanDecodeHint::Columns(v) => {
                let c: Vec<usize> = v.clone();
                assert(c@ =~= v@);
                ScanDecodeHint::Columns(c)
            },
        }
    }
}

pub open spec fn opt_hint(h: Option<ScanDecodeHint>) -> Option<HintModel> {
    match h {
        Some(x) => Some(x@),
        None => None,
    }
}

/// The columns that a hint has decoded.
pub open spec fn hint_covers(h: HintModel, i: int) -> bool {
    match h {
        HintModel::Prefix(n) => 0 <= i < n,
        HintModel::Columns(v) => exists|j: int| 0 <= j < v.len() && #[trigger] v[j] == i,
    }
}

/// The members of a set of positions below `n`, in order.
pub open spec fn ascending(s: Set<usize>, n: nat) -> Seq<usize>
    decreases n,
{
    if n == 0 {
        Seq::empty()
    } else if s.contains((n - 1) as usize) {
        ascending(s, (n - 1) as nat).push((n - 1) as usize)
    } else {
        ascending(s, (n - 1) as nat)
    }
}

proof fn lemma_ascending(s: Set<usize>, n: nat)
    requires
        n <= usize::MAX,
    ensures
        ascending(s, n).len() <= n,
        forall|j: int|
            0 <= j < ascending(s, n).len() ==> (#[trigger] ascending(s, n)[j]) < n && s.contains(
                ascending(s, n)[j],
            ),
        forall|j: int, k: int|
            #![trigger ascending(s, n)[j], ascending(s, n)[k]]
            0 <= j < k < ascending(s, n).len() ==> ascending(s, n)[j] < ascending(s, n)[k],
        forall|x: usize|
            x < n && #[trigger] s.contains(x) ==> exists|j: int|
                0 <= j < ascending(s, n).len() && #[trigger] ascending(s, n)[j] == x,
    decreases n,
{
    if n > 0 {
        let m = (n - 1) as nat;
        lemma_ascending(s, m);
        assert forall|x: usize| x < n && #[trigger] s.contains(x) implies exists|j: int|
            0 <= j < ascending(s, n).len() && #[trigger] ascending(s, n)[j] == x by {
            if x < m {
                let j = choose|j: int|
                    0 <= j < ascending(s, m).len() && #[trigger] ascending(s, m)[j] == x;
                assert(ascending(s, n)[j] == x);
            } else {
                assert(ascending(s, n)[ascending(s, m).len() as int] == x);
            }
        }
    }
}

/// The positions whose flag is set.
pub open spec fn flagged(f: Seq<bool>) -> Set<usize> {
    Set::new(|i: usize| i < f.len() && f[i as int])
}

fn flagged_positions(f: &Vec<bool>) -> (r: Vec<usize>)
    ensures
        r@ == ascending(flagged(f@), f.len() as nat),
{
    let mut out: Vec<usize> = Vec::new();
    for i in 0..f.len()
        invariant
            out@ == ascending(flagged(f@), i as nat),
    {
        if f[i] {
            out.push(i);
        }
    }
    out
}

/// Whether decoding a prefix pays: at most half of the columns.
pub open spec fn prefix_pays(prefix_len: nat, total: nat) -> bool {
    prefix_len < total && prefix_len * 2 <= total
}

/// Whether decoding a prefix pays.
pub fn should_use_prefix_decode(prefix_len: usize, total_columns: usize) -> (r: bool)
    ensures
        r == prefix_pays(prefix_len as nat, total_columns as nat),
{
    prefix_len < total_columns && prefix_len <= total_columns - prefix_len
}

/// Whether positions are the leading ones, without a gap.
pub open spec fn is_prefix(indices: Seq<usize>) -> bool {
    forall|i: int| 0 <= i < indices.len() ==> #[trigger] indices[i] == i
}

fn is_prefix_contiguous(indices: &Vec<usize>) -> (r: bool)
    ensures
        r == is_prefix(indices@),
{
    for i in 0..indices.len()
        invariant
            forall|j: int| 0 <= j < i ==> #[trigger] indices@[j] == j,
    {
        if indices[i] != i {
            return false;
        }
    }
    true
}

/// Whether decoding selected columns pays: some are left out, and the first
/// column is, or at least half of them, or two.
pub open spec fn selection_pays(indices: Seq<usize>, total: nat) -> bool {
    total > 0 && indices.len() < total && (indices.len() == 0 || indices[0] > 0 || indices.len() * 2
        <= total || total - indices.len() >= 2)
}

/// Whether decoding selected columns pays.
pub fn should_use_selected_decode(indices: &[usize], total_columns: usize) -> (r: bool)
    ensures
        r == selection_pays(indices@, total_columns as nat),
{
    let n: usize = indices.len();
    if total_columns == 0 || n >= total_columns {
        return false;
    }
    if n == 0 {
        return true;
    }
    indices[0] > 0 || n <= total_columns - n || total_columns - n >= 2
}

/// How long the prefix is that holds given ascending positions.
pub open spec fn prefix_of(indices: Seq<usize>) -> nat {
    if indices.len() == 0 {
        0
    } else {
        (indices.last() + 1) as nat
    }
}

/// How rows are decoded of which given columns are read.
pub open spec fn chosen_hint(indices: Seq<usize>, total: nat) -> Option<HintModel> {
    if is_prefix(indices) && prefix_pays(prefix_of(indices), total) {
        Some(HintModel::Prefix(prefix_of(indices) as usize))
    } else if selection_pays(indices, total) {
        Some(HintModel::Columns(indices))
    } else {
        None
    }
}

fn prefix_length(indices: &Vec<usize>) -> (r: usize)
    requires
        indices.len() > 0 ==> indices@.last() < usize::MAX,
    ensures
        r == prefix_of(indices@),
{
    if indices.len() == 0 {
        0
    } else {
        indices[indices.len() - 1] + 1
    }
}

fn choose_scan_decode_hint(indices: Vec<usize>, total_cols: usize) -> (r: Option<ScanDecodeHint>)
    requires
        indices.len() > 0 ==> indices@.last() < total_cols,
    ensures
        opt_hint(r) == chosen_hint(indices@, total_cols as nat),
{
    let prefix_len: usize = prefix_length(&indices);
    if is_prefix_contiguous(&indices) && should_use_prefix_decode(prefix_len, total_cols) {
        return Some(ScanDecodeHint::Prefix(prefix_len));
    }
    if should_use_selected_decode(indices.as_slice(), total_cols) {
        return Some(ScanDecodeHint::Columns(indices));
    }
    None
}

/// The first column called by the last segment of a name, without regard to
/// case.
pub open spec fn bare_index(cols: Seq<ColumnModel>, name: Seq<char>, from: int) -> Option<usize>
    decreases cols.len() - from,
{
    if from < 0 || from >= cols.len() {
        None
    } else if text::same_ignoring_case(cols[from].name, text::last_segment(name)) {
        Some(from as usize)
    } else {
        bare_index(cols, name, from + 1)
    }
}

proof fn lemma_bare_index(cols: Seq<ColumnModel>, name: Seq<char>, from: int)
    requires
        0 <= from,
        cols.len() <= usize::MAX,
    ensures
        bare_index(cols, name, from) matches Some(i) ==> i < cols.len(),
    decreases cols.len() - from,
{
    if from < cols.len() {
        lemma_bare_index(cols, name, from + 1);
    }
}

fn resolve_col_index(schema: &Schema, name: &str) -> (r: Option<usize>)
    ensures
        r == bare_index(schema@, name@, 0),
        r matches Some(i) ==> i < schema.columns.len(),
{
    let bare: String = text::after_last_dot(name);
    let mut i: usize = 0;
    while i < schema.columns.len()
        invariant
            i <= schema.columns.len(),
            bare@ == text::last_segment(name@),
            bare_index(schema@, name@, 0) == bare_index(schema@, name@, i as int),
        decreases schema.columns.len() - i,
    {
        assert(schema@[i as int] == schema.columns@[i as int]@);
        if text::eq_ignore_ascii_case(schema.columns[i].name.as_str(), bare.as_str()) {
            return Some(i);
        }
        i = i + 1;
    }
    None
}

/// `COUNT(*)`, which reads no column.
pub open spec fn counts_rows(e: ExprModel) -> bool {
    match e {
        ExprModel::AggregateFunction { fun: AggregateFunction::Count, args, distinct } => forall|
            i: int,
        |
            0 <= i < args.len() ==> (#[trigger] args[i]) is Wildcard,
        _ => false,
    }
}

fn is_row_count(e: &LogicalExpr) -> (r: bool)
    ensures
        r == counts_rows(e@),
{
    match e {
        LogicalExpr::AggregateFunction { fun: AggregateFunction::Count, args, distinct } => {
            proof {
                logical_plan::lemma_exprs_model(args@);
            }
            for i in 0..args.len()
                invariant
                    e@ == (ExprModel::AggregateFunction {
                        fun: AggregateFunction::Count,
                        args: logical_plan::exprs_model(args@),
                        distinct: *distinct,
                    }),
                    logical_plan::exprs_model(args@).len() == args.len(),
                    forall|j: int|
                        0 <= j < args.len() ==> #[trigger] logical_plan::exprs_model(args@)[j]
                            == args@[j]@,
                    forall|j: int|
                        0 <= j < i ==> (#[trigger] logical_plan::exprs_model(args@)[j])
                            is Wildcard,
            {
                match &args[i] {
                    LogicalExpr::Wildcard => {
                        assert(logical_plan::exprs_model(args@)[i as int] is Wildcard);
                    },
                    _ => {
                        assert(!(logical_plan::exprs_model(args@)[i as int] is Wildcard));
                        return false;
                    },
                }
            }
            true
        },
        _ => false,
    }
}

/// The names of the columns that an expression reads; `None` where that cannot
/// be told.
pub open spec fn expr_names(e: ExprModel) -> Option<Seq<Seq<char>>>
    decreases e, 1int, 0nat,
{
    match e {
        ExprModel::Column { table, name } => Some(seq![name]),
        ExprModel::BoundColumn { index, table, name } => Some(seq![name]),
        ExprModel::NewRow { column } => Some(seq![column]),
        ExprModel::OldRow { column } => Some(seq![column]),
        ExprModel::Wildcard => None,
        ExprModel::ScalarSubquery { .. } => None,
        ExprModel::InSubquery { .. } => None,
        ExprModel::Exists { .. } => None,
        _ => if counts_rows(e) {
            Some(Seq::empty())
        } else {
            names_of_parts(e, expr_tree::parts(e).len())
        },
    }
}

pub open spec fn names_of_parts(e: ExprModel, n: nat) -> Option<Seq<Seq<char>>>
    decreases e, 0int, n,
{
    if n == 0 || n > expr_tree::parts(e).len() {
        Some(Seq::empty())
    } else {
        proof {
            expr_tree::lemma_parts_are_smaller(e);
        }
        match (names_of_parts(e, (n - 1) as nat), expr_names(expr_tree::parts(e)[n - 1])) {
            (Some(a), Some(b)) => Some(a + b),
            _ => None,
        }
    }
}

proof fn lemma_names_stop(e: ExprModel, n: nat, m: nat)
    requires
        names_of_parts(e, n) is None,
        n <= m <= expr_tree::parts(e).len(),
    ensures
        names_of_parts(e, m) is None,
    decreases m - n,
{
    if n < m {
        lemma_names_stop(e, n, (m - 1) as nat);
    }
}

fn collect_expr_columns(expr: &LogicalExpr, cols: &mut Vec<String>) -> (r: bool)
    ensures
        r == (expr_names(expr@) is Some),
        r ==> schema::texts(final(cols)@) == schema::texts(old(cols)@) + expr_names(expr@)->Some_0,
    decreases expr,
{
    let ghost before = schema::texts(cols@);
    match expr {
        LogicalExpr::Column { table, name } => {
            cols.push(name.clone());
            assert(schema::texts(cols@) =~= before + seq![name@]);
            true
        },
        LogicalExpr::BoundColumn { index, table, name } => {
            cols.push(name.clone());
            assert(schema::texts(cols@) =~= before + seq![name@]);
            true
        },
        LogicalExpr::NewRow { column } => {
            cols.push(column.clone());
            assert(schema::texts(cols@) =~= before + seq![column@]);
            true
        },
        LogicalExpr::OldRow { column } => {
            cols.push(column.clone());
            assert(schema::texts(cols@) =~= before + seq![column@]);
            true
        },
        LogicalExpr::Wildcard => false,
        LogicalExpr::ScalarSubquery { .. } => false,
        LogicalExpr::InSubquery { .. } => false,
        LogicalExpr::Exists { .. } => false,
        _ => {
            if is_row_count(expr) {
                assert(before + Seq::<Seq<char>>::empty() =~= before);
                return true;
            }
            let v: Vec<&LogicalExpr> = expr_tree::expr_parts(expr);
            assert(expr_tree::borrowed_model(v@).len() == v.len());
            assert(before + Seq::<Seq<char>>::empty() =~= before);
            for i in 0..v.len()
                invariant
                    expr_names(expr@) == names_of_parts(expr@, expr_tree::parts(expr@).len()),
                    v.len() == expr_tree::parts(expr@).len(),
                    expr_tree::borrowed_model(v@) == expr_tree::parts(expr@),
                    forall|j: int|
                        0 <= j < v.len() ==> decreases_to!(*expr => *#[trigger] v@[j]),
                    names_of_parts(expr@, i as nat) is Some,
                    schema::texts(cols@) == before + names_of_parts(expr@, i as nat)->Some_0,
            {
                assert(decreases_to!(*expr => *v@[i as int]));
                assert(expr_tree::parts(expr@)[i as int] == v@[i as int]@);
                if !collect_expr_columns(v[i], cols) {
                    proof {
                        lemma_names_stop(expr@, (i + 1) as nat, v.len() as nat);
                    }
                    return false;
                }
                assert(schema::texts(cols@) =~= before + names_of_parts(
                    expr@,
                    (i + 1) as nat,
                )->Some_0);
            }
            true
        },
    }
}

/// The names that a list of expressions reads.
pub open spec fn list_names(s: Seq<ExprModel>) -> Option<Seq<Seq<char>>>
    decreases s.len(),
{
    if s.len() == 0 {
        Some(Seq::empty())
    } else {
        match (list_names(s.drop_last()), expr_names(s.last())) {
            (Some(a), Some(b)) => Some(a + b),
            _ => None,
        }
    }
}

proof fn lemma_list_names_stop(s: Seq<ExprModel>, n: int)
    requires
        0 <= n <= s.len(),
        list_names(s.take(n)) is None,
    ensures
        list_names(s) is None,
    decreases s.len() - n,
{
    if n < s.len() {
        assert(s.take(n + 1).drop_last() =~= s.take(n));
        lemma_list_names_stop(s, n + 1);
    } else {
        assert(s.take(n) =~= s);
    }
}

fn collect_list_columns(list: &Vec<LogicalExpr>, cols: &mut Vec<String>) -> (r: bool)
    ensures
        r == (list_names(logical_plan::exprs_model(list@)) is Some),
        r ==> schema::texts(final(cols)@) == schema::texts(old(cols)@) + list_names(
            logical_plan::exprs_model(list@),
        )->Some_0,
{
    let ghost before = schema::texts(cols@);
    let ghost all = logical_plan::exprs_model(list@);
    proof {
        logical_plan::lemma_exprs_model(list@);
    }
    assert(all.take(0) =~= Seq::<ExprModel>::empty());
    assert(before + Seq::<Seq<char>>::empty() =~= before);
    for i in 0..list.len()
        invariant
            all == logical_plan::exprs_model(list@),
            all.len() == list.len(),
            forall|j: int| 0 <= j < list.len() ==> #[trigger] all[j] == list@[j]@,
            list_names(all.take(i as int)) is Some,
            schema::texts(cols@) == before + list_names(all.take(i as int))->Some_0,
    {
        assert(all.take(i + 1).drop_last() =~= all.take(i as int));
        assert(all.take(i + 1).last() == list@[i as int]@);
        if !collect_expr_columns(&list[i], cols) {
            proof {
                lemma_list_names_stop(all, i + 1);
            }
            return false;
        }
        assert(schema::texts(cols@) =~= before + list_names(all.take(i + 1))->Some_0);
    }
    assert(all.take(list.len() as int) =~= all);
    true
}

/// The names of projected columns; `None` where a position is out of range.
pub open spec fn projection_names(cols: Seq<ColumnModel>, projection: Option<Seq<usize>>) -> Option<
    Seq<Seq<char>>,
> {
    match projection {
        None => Some(Seq::empty()),
        Some(p) => if forall|i: int| 0 <= i < p.len() ==> (#[trigger] p[i]) < cols.len() {
            Some(Seq::new(p.len(), |i: int| cols[p[i] as int].name))
        } else {
            None
        },
    }
}

/// The names of all columns.
pub open spec fn all_names(cols: Seq<ColumnModel>) -> Seq<Seq<char>> {
    Seq::new(cols.len(), |i: int| cols[i].name)
}

/// The names that a scan hands on: the projected ones, else all of them where
/// its output is shown.
pub open spec fn scan_names(
    cols: Seq<ColumnModel>,
    projection: Option<Seq<usize>>,
    output_required: bool,
) -> Option<Seq<Seq<char>>> {
    if output_required && projection is None {
        Some(all_names(cols))
    } else {
        projection_names(cols, projection)
    }
}

fn collect_scan_columns(
    schema: &Schema,
    projection: &Option<Vec<usize>>,
    output_required: bool,
    cols: &mut Vec<String>,
) -> (r: bool)
    ensures
        ({
            let names = scan_names(
                schema@,
                logical_plan::opt_positions(*projection),
                output_required,
            );
            &&& r == (names is Some)
            &&& r ==> schema::texts(final(cols)@) == schema::texts(old(cols)@) + names->Some_0
        }),
{
    let ghost before = schema::texts(cols@);
    match projection {
        None => {
            if output_required {
                for i in 0..schema.columns.len()
                    invariant
                        schema::texts(cols@) == before + all_names(schema@).take(i as int),
                {
                    assert(schema@[i as int] == schema.columns@[i as int]@);
                    let ghost was = schema::texts(cols@);
                    let ghost name = all_names(schema@)[i as int];
                    cols.push(schema.columns[i].name.clone());
                    assert(schema::texts(cols@) =~= was.push(name));
                    assert(all_names(schema@).take(i + 1) =~= all_names(schema@).take(
                        i as int,
                    ).push(name));
                    assert(schema::texts(cols@) =~= before + all_names(schema@).take(i + 1));
                }
                assert(all_names(schema@).take(schema.columns.len() as int) =~= all_names(schema@));
                assert(before + all_names(schema@).take(0) =~= before);
            } else {
                assert(before + Seq::<Seq<char>>::empty() =~= before);
            }
            true
        },
        Some(p) => {
            let ghost want = Seq::new(p@.len(), |i: int| schema@[p@[i] as int].name);
            assert(before + want.take(0) =~= before);
            for i in 0..p.len()
                invariant
                    *projection == Some(*p),
                    want == Seq::new(p@.len(), |i: int| schema@[p@[i] as int].name),
                    forall|j: int| 0 <= j < i ==> (#[trigger] p@[j]) < schema@.len(),
                    schema::texts(cols@) == before + want.take(i as int),
            {
                if p[i] >= schema.columns.len() {
                    assert(!(p@[i as int] < schema@.len()));
                    return false;
                }
                assert(schema@[p@[i as int] as int] == schema.columns@[p@[i as int] as int]@);
                let ghost was = schema::texts(cols@);
                cols.push(schema.columns[p[i]].name.clone());
                assert(schema::texts(cols@) =~= was.push(want[i as int]));
                assert(want.take(i + 1) =~= want.take(i as int).push(want[i as int]));
                assert(schema::texts(cols@) =~= before + want.take(i + 1));
            }
            assert(want.take(p.len() as int) =~= want);
            true
        },
    }
}

pub open spec fn both_names(
    a: Option<Seq<Seq<char>>>,
    b: Option<Seq<Seq<char>>>,
) -> Option<Seq<Seq<char>>> {
    match (a, b) {
        (Some(x), Some(y)) => Some(x + y),
        _ => None,
    }
}

pub open spec fn opt_names_of(e: Option<ExprModel>) -> Option<Seq<Seq<char>>> {
    match e {
        Some(x) => expr_names(x),
        None => Some(Seq::empty()),
    }
}

pub open spec fn opt_list_names(s: Option<Seq<ExprModel>>) -> Option<Seq<Seq<char>>> {
    match s {
        Some(x) => list_names(x),
        None => Some(Seq::empty()),
    }
}

/// The names that a plan over one table reads; `None` where that cannot be
/// told or where the plan is of another shape.
pub open spec fn plan_names(p: PlanModel, output_required: bool) -> Option<Seq<Seq<char>>>
    decreases p,
{
    match p {
        PlanModel::Scan { table_name, alias, schema, projection, as_of } => scan_names(
            schema,
            projection,
            output_required,
        ),
        PlanModel::FilteredScan { table_name, alias, schema, projection, predicate, as_of } => {
            both_names(scan_names(schema, projection, output_required), opt_names_of(predicate))
        },
        PlanModel::Filter { input, predicate } => both_names(
            expr_names(predicate),
            plan_names(*input, output_required),
        ),
        PlanModel::Project { input, exprs, aliases, distinct, distinct_on, source_alias } => {
            both_names(
                both_names(list_names(exprs), opt_list_names(distinct_on)),
                plan_names(*input, false),
            )
        },
        PlanModel::Aggregate { input, group_by, aggr_exprs, having } => both_names(
            both_names(
                both_names(list_names(group_by), list_names(aggr_exprs)),
                opt_names_of(having),
            ),
            plan_names(*input, false),
        ),
        PlanModel::Sort { input, exprs, asc } => both_names(
            list_names(exprs),
            plan_names(*input, output_required),
        ),
        PlanModel::Limit { input, limit, offset, limit_param, offset_param } => plan_names(
            *input,
            output_required,
        ),
        _ => None,
    }
}

/// The table under a plan over one table.
pub open spec fn plan_table(p: PlanModel) -> Option<(Seq<char>, Seq<ColumnModel>)>
    decreases p,
{
    match p {
        PlanModel::Scan { table_name, alias, schema, projection, as_of } => Some(
            (table_name, schema),
        ),
        PlanModel::FilteredScan { table_name, alias, schema, projection, predicate, as_of } => Some(
            (table_name, schema),
        ),
        PlanModel::Filter { input, predicate } => plan_table(*input),
        PlanModel::Project { input, exprs, aliases, distinct, distinct_on, source_alias } =>
            plan_table(*input),
        PlanModel::Aggregate { input, group_by, aggr_exprs, having } => plan_table(*input),
        PlanModel::Sort { input, exprs, asc } => plan_table(*input),
        PlanModel::Limit { input, limit, offset, limit_param, offset_param } => plan_table(*input),
        _ => None,
    }
}

fn collect_opt_columns(e: &Option<LogicalExpr>, cols: &mut Vec<String>) -> (r: bool)
    ensures
        r == (opt_names_of(logical_plan::opt_expr(*e)) is Some),
        r ==> schema::texts(final(cols)@) == schema::texts(old(cols)@) + opt_names_of(
            logical_plan::opt_expr(*e),
        )->Some_0,
{
    match e {
        Some(x) => collect_expr_columns(x, cols),
        None => {
            assert(schema::texts(cols@) + Seq::<Seq<char>>::empty() =~= schema::texts(cols@));
            true
        },
    }
}

fn collect_opt_list_columns(e: &Option<Vec<LogicalExpr>>, cols: &mut Vec<String>) -> (r: bool)
    ensures
        r == (opt_list_names(logical_plan::opt_exprs(*e)) is Some),
        r ==> schema::texts(final(cols)@) == schema::texts(old(cols)@) + opt_list_names(
            logical_plan::opt_exprs(*e),
        )->Some_0,
{
    match e {
        Some(x) => collect_list_columns(x, cols),
        None => {
            assert(schema::texts(cols@) + Seq::<Seq<char>>::empty() =~= schema::texts(cols@));
            true
        },
    }
}

proof fn lemma_regroup(a: Seq<Seq<char>>, b: Seq<Seq<char>>, c: Seq<Seq<char>>)
    ensures
        (a + b) + c == a + (b + c),
{
    assert((a + b) + c =~= a + (b + c));
}

/// Collects the names that a plan over one table reads.
fn collect_plan_columns(plan: &LogicalPlan, cols: &mut Vec<String>, output_required: bool) -> (r: bool)
    ensures
        r == (plan_names(plan@, output_required) is Some),
        r ==> schema::texts(final(cols)@) == schema::texts(old(cols)@) + plan_names(
            plan@,
            output_required,
        )->Some_0,
    decreases plan,
{
    let ghost before = schema::texts(cols@);
    match plan {
        LogicalPlan::Scan { table_name, alias, schema, projection, as_of } => collect_scan_columns(
            schema,
            projection,
            output_required,
            cols,
        ),
        LogicalPlan::FilteredScan { table_name, alias, schema, projection, predicate, as_of } => {
            if !collect_scan_columns(schema, projection, output_required, cols) {
                return false;
            }
            if !collect_opt_columns(predicate, cols) {
                return false;
            }
            proof {
                lemma_regroup(
                    before,
                    scan_names(
                        schema@,
                        logical_plan::opt_positions(*projection),
                        output_required,
                    )->Some_0,
                    opt_names_of(logical_plan::opt_expr(*predicate))->Some_0,
                );
            }
            true
        },
        LogicalPlan::Filter { input, predicate } => {
            if !collect_expr_columns(predicate, cols) {
                return false;
            }
            if !collect_plan_columns(input, cols, output_required) {
                return false;
            }
            proof {
                lemma_regroup(
                    before,
                    expr_names(predicate@)->Some_0,
                    plan_names((**input)@, output_required)->Some_0,
                );
            }
            true
        },
        LogicalPlan::Project { input, exprs, aliases, distinct, distinct_on, source_alias } => {
            if !collect_list_columns(exprs, cols) {
                return false;
            }
            if !collect_opt_list_columns(distinct_on, cols) {
                return false;
            }
            if !collect_plan_columns(input, cols, false) {
                return false;
            }
            proof {
                let a = list_names(logical_plan::exprs_model(exprs@))->Some_0;
                let b = opt_list_names(logical_plan::opt_exprs(*distinct_on))->Some_0;
                let c = plan_names((**input)@, false)->Some_0;
                lemma_regroup(before, a, b);
                lemma_regroup(before, a + b, c);
            }
            true
        },
        LogicalPlan::Aggregate { input, group_by, aggr_exprs, having } => {
            if !collect_list_columns(group_by, cols) {
                return false;
            }
            if !collect_list_columns(aggr_exprs, cols) {
                return false;
            }
            if !collect_opt_columns(having, cols) {
                return false;
            }
            if !collect_plan_columns(input, cols, false) {
                return false;
            }
            proof {
                let a = list_names(logical_plan::exprs_model(group_by@))->Some_0;
                let b = list_names(logical_plan::exprs_model(aggr_exprs@))->Some_0;
                let c = opt_names_of(logical_plan::opt_expr(*having))->Some_0;
                let d = plan_names((**input)@, false)->Some_0;
                lemma_regroup(before, a, b);
                lemma_regroup(before, a + b, c);
                lemma_regroup(before, a + b + c, d);
            }
            true
        },
        LogicalPlan::Sort { input, exprs, asc } => {
            if !collect_list_columns(exprs, cols) {
                return false;
            }
            if !collect_plan_columns(input, cols, output_required) {
                return false;
            }
            proof {
                lemma_regroup(
                    before,
                    list_names(logical_plan::exprs_model(exprs@))->Some_0,
                    plan_names((**input)@, output_required)->Some_0,
                );
            }
            true
        },
        LogicalPlan::Limit { input, limit, offset, limit_param, offset_param } =>
            collect_plan_columns(input, cols, output_required),
        _ => false,
    }
}

/// Finds the table under a plan over one table.
fn find_plan_table(plan: &LogicalPlan) -> (r: Option<(&String, &Arc<Schema>)>)
    ensures
        match r {
            Some(t) => plan_table(plan@) == Some((t.0@, t.1@)),
            None => plan_table(plan@) is None,
        },
    decreases plan,
{
    match plan {
        LogicalPlan::Scan { table_name, alias, schema, projection, as_of } => Some(
            (table_name, schema),
        ),
        LogicalPlan::FilteredScan { table_name, alias, schema, projection, predicate, as_of } =>
            Some((table_name, schema)),
        LogicalPlan::Filter { input, predicate } => find_plan_table(input),
        LogicalPlan::Project { input, exprs, aliases, distinct, distinct_on, source_alias } =>
            find_plan_table(input),
        LogicalPlan::Aggregate { input, group_by, aggr_exprs, having } => find_plan_table(input),
        LogicalPlan::Sort { input, exprs, asc } => find_plan_table(input),
        LogicalPlan::Limit { input, limit, offset, limit_param, offset_param } => find_plan_table(
            input,
        ),
        _ => None,
    }
}

/// The positions that given names stand for; a name without a column stands
/// for something derived, whose columns were named where it was derived.
pub open spec fn named_positions(cols: Seq<ColumnModel>, names: Seq<Seq<char>>) -> Set<usize> {
    Set::new(
        |i: usize|
            exists|j: int|
                0 <= j < names.len() && bare_index(cols, #[trigger] names[j], 0) == Some(i),
    )
}

/// Whether one of the first `n` aliases is a name.
pub open spec fn is_alias(aliases: Seq<Seq<char>>, n: nat, name: Seq<char>) -> bool
    decreases n,
{
    n != 0 && n <= aliases.len() && (is_alias(aliases, (n - 1) as nat, name)
        || text::same_ignoring_case(aliases[n - 1], text::last_segment(name)))
}

/// Whether a node of a plan derives a name: a `SELECT` list by an alias. What an
/// aggregation calls its columns is not known, so it counts for every name.
pub open spec fn derives(p: PlanModel, name: Seq<char>) -> bool
    decreases p,
{
    match p {
        PlanModel::Filter { input, predicate } => derives(*input, name),
        PlanModel::Project { input, exprs, aliases, distinct, distinct_on, source_alias } => is_alias(
            aliases,
            aliases.len(),
            name,
        ) || derives(*input, name),
        PlanModel::Aggregate { input, group_by, aggr_exprs, having } => true,
        PlanModel::Sort { input, exprs, asc } => derives(*input, name),
        PlanModel::Limit { input, limit, offset, limit_param, offset_param } => derives(
            *input,
            name,
        ),
        _ => false,
    }
}

/// Whether each name has a column or is derived by the plan below.
pub open spec fn names_known(
    names: Option<Seq<Seq<char>>>,
    cols: Seq<ColumnModel>,
    below: Option<PlanModel>,
) -> bool {
    match names {
        None => false,
        Some(ns) => forall|j: int|
            0 <= j < ns.len() ==> bare_index(cols, #[trigger] ns[j], 0) is Some || (
            below matches Some(b) && derives(b, ns[j])),
    }
}

/// Whether every name in a plan over one table has a column or is derived by a
/// node below the one that reads it.
pub open spec fn plan_is_certain(p: PlanModel, cols: Seq<ColumnModel>) -> bool
    decreases p,
{
    match p {
        PlanModel::Scan { table_name, alias, schema, projection, as_of } => true,
        PlanModel::FilteredScan { table_name, alias, schema, projection, predicate, as_of } =>
            names_known(opt_names_of(predicate), cols, None),
        PlanModel::Filter { input, predicate } => names_known(
            expr_names(predicate),
            cols,
            Some(*input),
        ) && plan_is_certain(*input, cols),
        PlanModel::Project { input, exprs, aliases, distinct, distinct_on, source_alias } =>
            names_known(list_names(exprs), cols, Some(*input)) && names_known(
            opt_list_names(distinct_on),
            cols,
            Some(*input),
        ) && plan_is_certain(*input, cols),
        PlanModel::Aggregate { input, group_by, aggr_exprs, having } => names_known(
            list_names(group_by),
            cols,
            Some(*input),
        ) && names_known(list_names(aggr_exprs), cols, Some(*input)) && plan_is_certain(
            *input,
            cols,
        ),
        PlanModel::Sort { input, exprs, asc } => names_known(list_names(exprs), cols, Some(*input))
            && plan_is_certain(*input, cols),
        PlanModel::Limit { input, limit, offset, limit_param, offset_param } => plan_is_certain(
            *input,
            cols,
        ),
        _ => false,
    }
}

fn has_alias(aliases: &Vec<String>, name: &str) -> (r: bool)
    ensures
        r == is_alias(schema::texts(aliases@), aliases@.len(), name@),
{
    let ghost names = schema::texts(aliases@);
    let bare: String = text::after_last_dot(name);
    let mut found: bool = false;
    let mut i: usize = 0;
    while i < aliases.len()
        invariant
            names == schema::texts(aliases@),
            bare@ == text::last_segment(name@),
            i <= aliases.len(),
            found == is_alias(names, i as nat, name@),
        decreases aliases.len() - i,
    {
        assert(names[i as int] == aliases@[i as int]@);
        if text::eq_ignore_ascii_case(aliases[i].as_str(), bare.as_str()) {
            found = true;
        }
        i += 1;
    }
    found
}

fn plan_derives(plan: &LogicalPlan, name: &str) -> (r: bool)
    ensures
        r == derives(plan@, name@),
    decreases plan,
{
    match plan {
        LogicalPlan::Filter { input, .. } => plan_derives(input, name),
        LogicalPlan::Project { input, aliases, .. } => has_alias(aliases, name) || plan_derives(
            input,
            name,
        ),
        LogicalPlan::Aggregate { .. } => true,
        LogicalPlan::Sort { input, .. } => plan_derives(input, name),
        LogicalPlan::Limit { input, .. } => plan_derives(input, name),
        _ => false,
    }
}

spec fn opt_plan(p: Option<&LogicalPlan>) -> Option<PlanModel> {
    match p {
        Some(p) => Some(p@),
        None => None,
    }
}

fn all_known(names: &Vec<String>, schema: &Schema, below: Option<&LogicalPlan>) -> (r: bool)
    ensures
        r == names_known(Some(schema::texts(names@)), schema@, opt_plan(below)),
{
    let ghost all = schema::texts(names@);
    let mut i: usize = 0;
    while i < names.len()
        invariant
            all == schema::texts(names@),
            i <= names.len(),
            forall|j: int|
                0 <= j < i ==> bare_index(schema@, #[trigger] all[j], 0) is Some || (opt_plan(
                    below,
                ) matches Some(b) && derives(b, all[j])),
        decreases names.len() - i,
    {
        assert(all[i as int] == names@[i as int]@);
        if resolve_col_index(schema, names[i].as_str()).is_none() {
            let derived: bool = match below {
                Some(p) => plan_derives(p, names[i].as_str()),
                None => false,
            };
            if !derived {
                return false;
            }
        }
        i += 1;
    }
    true
}

fn list_is_known(list: &Vec<LogicalExpr>, schema: &Schema, below: &LogicalPlan) -> (r: bool)
    ensures
        r == names_known(list_names(logical_plan::exprs_model(list@)), schema@, Some(below@)),
{
    let mut names: Vec<String> = Vec::new();
    let ok: bool = collect_list_columns(list, &mut names);
    proof {
        if ok {
            assert(schema::texts(names@) =~= list_names(
                logical_plan::exprs_model(list@),
            )->Some_0);
        }
    }
    ok && all_known(&names, schema, Some(below))
}

fn plan_names_are_known(plan: &LogicalPlan, schema: &Schema) -> (r: bool)
    ensures
        r == plan_is_certain(plan@, schema@),
    decreases plan,
{
    match plan {
        LogicalPlan::Scan { .. } => true,
        LogicalPlan::FilteredScan { predicate, .. } => {
            let mut names: Vec<String> = Vec::new();
            let ok: bool = collect_opt_columns(predicate, &mut names);
            proof {
                if ok {
                    assert(schema::texts(names@) =~= opt_names_of(
                        logical_plan::opt_expr(*predicate),
                    )->Some_0);
                }
            }
            ok && all_known(&names, schema, None)
        },
        LogicalPlan::Filter { input, predicate } => {
            let mut names: Vec<String> = Vec::new();
            let ok: bool = collect_expr_columns(predicate, &mut names);
            proof {
                if ok {
                    assert(schema::texts(names@) =~= expr_names(predicate@)->Some_0);
                }
            }
            ok && all_known(&names, schema, Some(input)) && plan_names_are_known(input, schema)
        },
        LogicalPlan::Project { input, exprs, distinct_on, .. } => {
            let on_known: bool = match distinct_on {
                Some(on) => list_is_known(on, schema, input),
                None => true,
            };
            list_is_known(exprs, schema, input) && on_known && plan_names_are_known(input, schema)
        },
        LogicalPlan::Aggregate { input, group_by, aggr_exprs, .. } => list_is_known(
            group_by,
            schema,
            input,
        ) && list_is_known(aggr_exprs, schema, input) && plan_names_are_known(input, schema),
        LogicalPlan::Sort { input, exprs, .. } => list_is_known(exprs, schema, input)
            && plan_names_are_known(input, schema),
        LogicalPlan::Limit { input, .. } => plan_names_are_known(input, schema),
        _ => false,
    }
}

/// The table of a plan over one table, the positions that the plan reads, in
/// order, and the number of columns; `None` where a name is not known.
pub open spec fn single_table(p: PlanModel) -> Option<(Seq<char>, Seq<usize>, nat)> {
    match (plan_names(p, true), plan_table(p)) {
        (Some(names), Some(t)) => if plan_is_certain(p, t.1) {
            Some((t.0, ascending(named_positions(t.1, names), t.1.len()), t.1.len()))
        } else {
            None
        },
        _ => None,
    }
}

fn no_flags(n: usize) -> (r: Vec<bool>)
    ensures
        r.len() == n,
        flagged(r@) == Set::<usize>::empty(),
{
    let mut f: Vec<bool> = Vec::new();
    for i in 0..n
        invariant
            f.len() == i,
            forall|j: int| 0 <= j < i ==> !#[trigger] f@[j],
    {
        f.push(false);
    }
    assert(flagged(f@) =~= Set::<usize>::empty());
    f
}

fn collect_single_table_column_indices(plan: &LogicalPlan) -> (r: Option<(String, Vec<usize>, usize)>)
    ensures
        match r {
            Some(t) => {
                &&& single_table(plan@) == Some((t.0@, t.1@, t.2 as nat))
                &&& t.1.len() > 0 ==> t.1@.last() < t.2
            },
            None => single_table(plan@) is None,
        },
{
    let mut cols: Vec<String> = Vec::new();
    if !collect_plan_columns(plan, &mut cols, true) {
        return None;
    }
    let (table_name, schema): (&String, &Arc<Schema>) = match find_plan_table(plan) {
        Some(t) => t,
        None => {
            return None;
        },
    };
    if !plan_names_are_known(plan, schema) {
        return None;
    }
    let ghost names = plan_names(plan@, true)->Some_0;
    assert(schema::texts(cols@) =~= names);
    let total: usize = schema.columns.len();
    let mut flags: Vec<bool> = no_flags(total);
    for i in 0..cols.len()
        invariant
            schema::texts(cols@) == names,
            flags.len() == total,
            total == schema@.len(),
            total == schema.columns.len(),
            flagged(flags@) == named_positions(schema@, names.take(i as int)),
    {
        let ghost before = flags@;
        assert(names[i as int] == cols@[i as int]@);
        let found: Option<usize> = resolve_col_index(schema, cols[i].as_str());
        match found {
            Some(k) => {
                flags.set(k, true);
            },
            None => {},
        }
        proof {
            let next = names.take(i + 1);
            assert forall|x: usize| #[trigger] flagged(flags@).contains(x) == named_positions(
                schema@,
                next,
            ).contains(x) by {
                let was = named_positions(schema@, names.take(i as int)).contains(x);
                if was {
                    let j = choose|j: int|
                        0 <= j < names.take(i as int).len() && bare_index(
                            schema@,
                            #[trigger] names.take(i as int)[j],
                            0,
                        ) == Some(x);
                    assert(next[j] == names.take(i as int)[j]);
                    assert(flagged(before).contains(x));
                }
                if named_positions(schema@, next).contains(x) {
                    let j = choose|j: int|
                        0 <= j < next.len() && bare_index(schema@, #[trigger] next[j], 0) == Some(
                            x,
                        );
                    if j < i {
                        assert(names.take(i as int)[j] == next[j]);
                        assert(was);
                        assert(flagged(before).contains(x));
                    } else {
                        assert(next[j] == names[i as int]);
                    }
                }
                if found == Some(x) {
                    assert(next[i as int] == names[i as int]);
                }
                if flagged(flags@).contains(x) && found != Some(x) {
                    assert(flagged(before).contains(x));
                }
            }
            assert(flagged(flags@) =~= named_positions(schema@, next));
        }
    }
    assert(names.take(cols.len() as int) =~= names);
    let indices: Vec<usize> = flagged_positions(&flags);
    proof {
        lemma_ascending(flagged(flags@), total as nat);
    }
    Some((table_name.clone(), indices, total))
}

/// How long a prefix of its table's columns a plan over one table reads.
pub fn compute_scan_prefix_hint(plan: &LogicalPlan) -> (r: Option<(String, usize)>)
    ensures
        match r {
            Some(h) => single_table(plan@) matches Some(t) && h.0@ == t.0 && h.1 == prefix_of(t.1),
            None => single_table(plan@) is None,
        },
{
    match collect_single_table_column_indices(plan) {
        Some((table_name, indices, total)) => {
            let n: usize = prefix_length(&indices);
            Some((table_name, n))
        },
        None => None,
    }
}

/// The hint of a plan over one table.
pub open spec fn single_hint(p: PlanModel) -> Option<(Seq<char>, HintModel)> {
    match single_table(p) {
        Some(t) => match chosen_hint(t.1, t.2) {
            Some(h) => Some((t.0, h)),
            None => None,
        },
        None => None,
    }
}

/// How the rows of a plan over one table are decoded.
pub fn compute_scan_decode_hint(plan: &LogicalPlan) -> (r: Option<(String, ScanDecodeHint)>)
    ensures
        match r {
            Some(h) => single_hint(plan@) == Some((h.0@, h.1@)),
            None => single_hint(plan@) is None,
        },
{
    match collect_single_table_column_indices(plan) {
        Some((table_name, indices, total)) => match choose_scan_decode_hint(indices, total) {
            Some(h) => Some((table_name, h)),
            None => None,
        },
        None => None,
    }
}

proof fn lemma_chosen_hint_covers(s: Set<usize>, n: nat, i: usize)
    requires
        n <= usize::MAX,
        i < n,
        s.contains(i),
        chosen_hint(ascending(s, n), n) is Some,
    ensures
        hint_covers(chosen_hint(ascending(s, n), n)->Some_0, i as int),
{
    lemma_ascending(s, n);
    let v = ascending(s, n);
    let j = choose|j: int| 0 <= j < v.len() && #[trigger] v[j] == i;
    match chosen_hint(v, n)->Some_0 {
        HintModel::Prefix(k) => {
            if j < v.len() - 1 {
                assert(v[j] < v[v.len() - 1]);
            }
        },
        HintModel::Columns(w) => {
            assert(w[j] == i);
        },
    }
}

/// The hint of a plan over one table has every column decoded that the plan
/// names.
pub proof fn law_single_hint_covers_every_name(p: PlanModel, name: Seq<char>)
    requires
        plan_names(p, true) is Some,
        plan_names(p, true)->Some_0.contains(name),
        plan_table(p) is Some,
        plan_table(p)->Some_0.1.len() <= usize::MAX,
    ensures
        single_hint(p) matches Some(h) ==> (bare_index(
            plan_table(p)->Some_0.1,
            name,
            0,
        ) matches Some(i) ==> hint_covers(h.1, i as int)),
{
    let cols = plan_table(p)->Some_0.1;
    let names = plan_names(p, true)->Some_0;
    if let Some(i) = bare_index(cols, name, 0) {
        lemma_bare_index(cols, name, 0);
        let j = choose|j: int| 0 <= j < names.len() && names[j] == name;
        assert(bare_index(cols, names[j], 0) == Some(i));
        assert(named_positions(cols, names).contains(i));
        if single_hint(p) is Some {
            lemma_chosen_hint_covers(named_positions(cols, names), cols.len(), i);
        }
    }
}

/// A table of a plan: its name, its alias and its columns.
pub struct ScanTableRef {
    pub table_name: String,
    pub alias: Option<String>,
    pub schema: Arc<Schema>,
}

pub struct TableModel {
    pub name: Seq<char>,
    pub alias: Option<Seq<char>>,
    pub cols: Seq<ColumnModel>,
}

impl View for ScanTableRef {
    type V = TableModel;

    open spec fn view(&self) -> TableModel {
        TableModel {
            name: self.table_name@,
            alias: schema::opt_text(self.alias),
            cols: self.schema@,
        }
    }
}

pub open spec fn tables_model(s: Seq<ScanTableRef>) -> Seq<TableModel> {
    Seq::new(s.len(), |i: int| s[i]@)
}

/// The tables of a plan, in order; `None` where the plan holds more than scans
/// and joins of them.
pub open spec fn scan_tables(p: PlanModel) -> Option<Seq<TableModel>>
    decreases p,
{
    match p {
        PlanModel::Scan { table_name, alias, schema, projection, as_of } => Some(
            seq![TableModel { name: table_name, alias, cols: schema }],
        ),
        PlanModel::FilteredScan { table_name, alias, schema, projection, predicate, as_of } => Some(
            seq![TableModel { name: table_name, alias, cols: schema }],
        ),
        PlanModel::Filter { input, predicate } => scan_tables(*input),
        PlanModel::Project { input, exprs, aliases, distinct, distinct_on, source_alias } =>
            scan_tables(*input),
        PlanModel::Aggregate { input, group_by, aggr_exprs, having } => scan_tables(*input),
        PlanModel::Sort { input, exprs, asc } => scan_tables(*input),
        PlanModel::Limit { input, limit, offset, limit_param, offset_param } => scan_tables(*input),
        PlanModel::Join { left, right, join_type, on, lateral } => if lateral {
            None
        } else {
            match (scan_tables(*left), scan_tables(*right)) {
                (Some(a), Some(b)) => Some(a + b),
                _ => None,
            }
        },
        _ => None,
    }
}

fn collect_scan_tables(plan: &LogicalPlan, tables: &mut Vec<ScanTableRef>) -> (r: bool)
    ensures
        r == (scan_tables(plan@) is Some),
        r ==> tables_model(final(tables)@) == tables_model(old(tables)@) + scan_tables(
            plan@,
        )->Some_0,
    decreases plan,
{
    let ghost before = tables_model(tables@);
    match plan {
        LogicalPlan::Scan { table_name, alias, schema, projection, as_of } => {
            tables.push(
                ScanTableRef {
                    table_name: table_name.clone(),
                    alias: alias.clone(),
                    schema: schema.clone(),
                },
            );
            assert(tables_model(tables@) =~= before + scan_tables(plan@)->Some_0);
            true
        },
        LogicalPlan::FilteredScan { table_name, alias, schema, projection, predicate, as_of } => {
            tables.push(
                ScanTableRef {
                    table_name: table_name.clone(),
                    alias: alias.clone(),
                    schema: schema.clone(),
                },
            );
            assert(tables_model(tables@) =~= before + scan_tables(plan@)->Some_0);
            true
        },
        LogicalPlan::Filter { input, predicate } => collect_scan_tables(input, tables),
        LogicalPlan::Project { input, exprs, aliases, distinct, distinct_on, source_alias } =>
            collect_scan_tables(input, tables),
        LogicalPlan::Aggregate { input, group_by, aggr_exprs, having } => collect_scan_tables(
            input,
            tables,
        ),
        LogicalPlan::Sort { input, exprs, asc } => collect_scan_tables(input, tables),
        LogicalPlan::Limit { input, limit, offset, limit_param, offset_param } =>
            collect_scan_tables(input, tables),
        LogicalPlan::Join { left, right, join_type, on, lateral } => {
            if *lateral {
                return false;
            }
            if !collect_scan_tables(left, tables) {
                return false;
            }
            if !collect_scan_tables(right, tables) {
                return false;
            }
            assert(tables_model(tables@) =~= before + scan_tables(plan@)->Some_0);
            true
        },
        _ => false,
    }
}

/// Whether a qualifier names a table.
pub open spec fn qualifies(t: TableModel, q: Seq<char>) -> bool {
    text::same_ignoring_case(q, t.name) || match t.alias {
        Some(a) => text::same_ignoring_case(q, a),
        None => false,
    }
}

/// Whether no two tables share a name or a qualifier.
pub open spec fn told_apart(a: TableModel, b: TableModel) -> bool {
    !qualifies(a, b.name) && match b.alias {
        Some(q) => !qualifies(a, q),
        None => true,
    }
}

pub open spec fn all_told_apart(ts: Seq<TableModel>) -> bool {
    forall|i: int, j: int|
        0 <= i < j < ts.len() ==> told_apart(#[trigger] ts[i], #[trigger] ts[j])
}

fn is_qualifier(t: &ScanTableRef, q: &str) -> (r: bool)
    ensures
        r == qualifies(t@, q@),
{
    text::eq_ignore_ascii_case(q, t.table_name.as_str()) || match &t.alias {
        Some(a) => text::eq_ignore_ascii_case(q, a.as_str()),
        None => false,
    }
}

fn are_told_apart(a: &ScanTableRef, b: &ScanTableRef) -> (r: bool)
    ensures
        r == told_apart(a@, b@),
{
    !is_qualifier(a, b.table_name.as_str()) && match &b.alias {
        Some(q) => !is_qualifier(a, q.as_str()),
        None => true,
    }
}

fn table_qualifiers_are_unique(tables: &Vec<ScanTableRef>) -> (r: bool)
    ensures
        r == all_told_apart(tables_model(tables@)),
{
    let ghost ts = tables_model(tables@);
    for j in 0..tables.len()
        invariant
            ts == tables_model(tables@),
            forall|a: int, b: int|
                0 <= a < b < j ==> told_apart(#[trigger] ts[a], #[trigger] ts[b]),
    {
        for i in 0..j
            invariant
                ts == tables_model(tables@),
                j < tables.len(),
                forall|a: int| 0 <= a < i ==> told_apart(#[trigger] ts[a], ts[j as int]),
        {
            assert(ts[i as int] == tables@[i as int]@);
            assert(ts[j as int] == tables@[j as int]@);
            if !are_told_apart(&tables[i], &tables[j]) {
                assert(!told_apart(ts[i as int], ts[j as int]));
                return false;
            }
        }
    }
    true
}

/// A column of a table: both positions.
pub type At = (usize, usize);

/// The first table from `from` on that a qualifier names.
pub open spec fn qualified_table(ts: Seq<TableModel>, q: Seq<char>, from: int) -> Option<usize>
    decreases ts.len() - from,
{
    if from < 0 || from >= ts.len() {
        None
    } else if qualifies(ts[from], q) {
        Some(from as usize)
    } else {
        qualified_table(ts, q, from + 1)
    }
}

/// The columns from table `from` on that a bare name stands for.
pub open spec fn bare_columns(ts: Seq<TableModel>, name: Seq<char>, from: int) -> Seq<At>
    decreases ts.len() - from,
{
    if from < 0 || from >= ts.len() {
        Seq::empty()
    } else {
        let rest = bare_columns(ts, name, from + 1);
        match bare_index(ts[from].cols, name, 0) {
            Some(c) => seq![(from as usize, c)] + rest,
            None => rest,
        }
    }
}

/// The column that a reference stands for: `Some(None)` for something derived,
/// `None` where that cannot be told.
pub open spec fn table_column(ts: Seq<TableModel>, q: Option<Seq<char>>, name: Seq<char>) -> Option<
    Option<At>,
> {
    match q {
        Some(x) => match qualified_table(ts, x, 0) {
            None => Some(None),
            Some(t) => match bare_index(ts[t as int].cols, name, 0) {
                Some(c) => Some(Some((t, c))),
                None => None,
            },
        },
        None => {
            let found = bare_columns(ts, name, 0);
            if found.len() == 0 {
                Some(None)
            } else if found.len() == 1 {
                Some(Some(found[0]))
            } else {
                None
            }
        },
    }
}

pub open spec fn valid_at(ts: Seq<TableModel>, at: At) -> bool {
    at.0 < ts.len() && at.1 < ts[at.0 as int].cols.len()
}

proof fn lemma_bare_columns_valid(ts: Seq<TableModel>, name: Seq<char>, from: int)
    requires
        0 <= from,
        ts.len() <= usize::MAX,
        forall|i: int| 0 <= i < ts.len() ==> (#[trigger] ts[i]).cols.len() <= usize::MAX,
    ensures
        forall|j: int|
            0 <= j < bare_columns(ts, name, from).len() ==> valid_at(
                ts,
                #[trigger] bare_columns(ts, name, from)[j],
            ),
    decreases ts.len() - from,
{
    if from < ts.len() {
        lemma_bare_columns_valid(ts, name, from + 1);
        lemma_bare_index(ts[from].cols, name, 0);
        let rest = bare_columns(ts, name, from + 1);
        assert forall|j: int| 0 <= j < bare_columns(ts, name, from).len() implies valid_at(
            ts,
            #[trigger] bare_columns(ts, name, from)[j],
        ) by {
            if bare_index(ts[from].cols, name, 0) is Some {
                if j > 0 {
                    assert(bare_columns(ts, name, from)[j] == rest[j - 1]);
                }
            } else {
                assert(bare_columns(ts, name, from)[j] == rest[j]);
            }
        }
    }
}

fn find_qualified(tables: &Vec<ScanTableRef>, q: &str) -> (r: Option<usize>)
    ensures
        r == qualified_table(tables_model(tables@), q@, 0),
        r matches Some(i) ==> i < tables.len(),
{
    let ghost ts = tables_model(tables@);
    let mut i: usize = 0;
    while i < tables.len()
        invariant
            ts == tables_model(tables@),
            i <= tables.len(),
            qualified_table(ts, q@, 0) == qualified_table(ts, q@, i as int),
        decreases tables.len() - i,
    {
        assert(ts[i as int] == tables@[i as int]@);
        if is_qualifier(&tables[i], q) {
            return Some(i);
        }
        i = i + 1;
    }
    None
}

fn resolve_table_column(tables: &Vec<ScanTableRef>, qualifier: Option<&str>, name: &str) -> (r:
    Option<Option<At>>)
    ensures
        r == table_column(tables_model(tables@), schema::opt_str(qualifier), name@),
        r matches Some(Some(at)) ==> valid_at(tables_model(tables@), at),
{
    let ghost ts = tables_model(tables@);
    match qualifier {
        Some(q) => match find_qualified(tables, q) {
            None => Some(None),
            Some(t) => {
                assert(ts[t as int] == tables@[t as int]@);
                match resolve_col_index(&tables[t].schema, name) {
                    Some(c) => Some(Some((t, c))),
                    None => None,
                }
            },
        },
        None => {
            let mut found: Option<At> = None;
            let mut i: usize = tables.len();
            while i > 0
                invariant
                    qualifier is None,
                    i <= tables.len(),
                    ts == tables_model(tables@),
                    found is None ==> bare_columns(ts, name@, i as int).len() == 0,
                    found matches Some(at) ==> bare_columns(ts, name@, i as int) == seq![at]
                        && valid_at(ts, at),
                decreases i,
            {
                i = i - 1;
                assert(ts[i as int] == tables@[i as int]@);
                match resolve_col_index(&tables[i].schema, name) {
                    Some(c) => {
                        let ghost rest = bare_columns(ts, name@, i + 1);
                        assert(bare_columns(ts, name@, i as int) == seq![(i, c)] + rest);
                        if found.is_some() {
                            proof {
                                lemma_bare_columns_len(ts, name@, 0, i as int);
                            }
                            return None;
                        }
                        found = Some((i, c));
                        assert(bare_columns(ts, name@, i as int) =~= seq![(i, c)]);
                    },
                    None => {},
                }
            }
            match found {
                Some(at) => Some(Some(at)),
                None => Some(None),
            }
        },
    }
}

proof fn lemma_bare_columns_len(ts: Seq<TableModel>, name: Seq<char>, a: int, b: int)
    requires
        0 <= a <= b <= ts.len(),
    ensures
        bare_columns(ts, name, a).len() >= bare_columns(ts, name, b).len(),
    decreases b - a,
{
    if a < b {
        lemma_bare_columns_len(ts, name, a + 1, b);
    }
}

/// All columns of all tables.
pub open spec fn every_column(ts: Seq<TableModel>) -> Set<At> {
    Set::new(|at: At| valid_at(ts, at))
}

/// All columns of one table.
pub open spec fn table_columns(ts: Seq<TableModel>, t: usize) -> Set<At> {
    Set::new(|at: At| at.0 == t && valid_at(ts, at))
}

/// The columns that an expression reads; `None` where that cannot be told.
pub open spec fn expr_columns(e: ExprModel, ts: Seq<TableModel>) -> Option<Set<At>>
    decreases e, 1int, 0nat,
{
    match e {
        ExprModel::Column { table, name } => match table_column(ts, table, name) {
            None => None,
            Some(None) => Some(Set::empty()),
            Some(Some(at)) => Some(Set::empty().insert(at)),
        },
        ExprModel::NewRow { .. } => None,
        ExprModel::OldRow { .. } => None,
        ExprModel::BoundColumn { .. } => None,
        ExprModel::Wildcard => Some(every_column(ts)),
        ExprModel::ScalarSubquery { .. } => None,
        ExprModel::InSubquery { .. } => None,
        ExprModel::Exists { .. } => None,
        _ => if counts_rows(e) {
            Some(Set::empty())
        } else {
            columns_of_parts(e, expr_tree::parts(e).len(), ts)
        },
    }
}

pub open spec fn columns_of_parts(e: ExprModel, n: nat, ts: Seq<TableModel>) -> Option<Set<At>>
    decreases e, 0int, n,
{
    if n == 0 || n > expr_tree::parts(e).len() {
        Some(Set::empty())
    } else {
        proof {
            expr_tree::lemma_parts_are_smaller(e);
        }
        both_columns(
            columns_of_parts(e, (n - 1) as nat, ts),
            expr_columns(expr_tree::parts(e)[n - 1], ts),
        )
    }
}

pub open spec fn both_columns(a: Option<Set<At>>, b: Option<Set<At>>) -> Option<Set<At>> {
    match (a, b) {
        (Some(x), Some(y)) => Some(x.union(y)),
        _ => None,
    }
}

proof fn lemma_columns_stop(e: ExprModel, n: nat, m: nat, ts: Seq<TableModel>)
    requires
        columns_of_parts(e, n, ts) is None,
        n <= m <= expr_tree::parts(e).len(),
    ensures
        columns_of_parts(e, m, ts) is None,
    decreases m - n,
{
    if n < m {
        lemma_columns_stop(e, n, (m - 1) as nat, ts);
    }
}

/// The columns whose flag is set.
pub open spec fn marked(f: Seq<Vec<bool>>) -> Set<At> {
    Set::new(|at: At| at.0 < f.len() && at.1 < f[at.0 as int].len() && f[at.0 as int]@[at.1 as int])
}

/// Flags for every column of every table.
pub open spec fn fits(f: Seq<Vec<bool>>, ts: Seq<TableModel>) -> bool {
    &&& f.len() == ts.len()
    &&& forall|i: int| 0 <= i < f.len() ==> (#[trigger] f[i]).len() == ts[i].cols.len()
}

fn mark_column(f: &mut Vec<Vec<bool>>, at: At, Ghost(ts): Ghost<Seq<TableModel>>)
    requires
        fits(old(f)@, ts),
        valid_at(ts, at),
    ensures
        fits(final(f)@, ts),
        marked(final(f)@) == marked(old(f)@).insert(at),
{
    let ghost before = f@;
    assert(before[at.0 as int].len() == ts[at.0 as int].cols.len());
    let mut row: Vec<bool> = Vec::new();
    std::mem::swap(&mut row, &mut f[at.0]);
    row.set(at.1, true);
    f.set(at.0, row);
    proof {
        assert forall|i: int| 0 <= i < f.len() implies (#[trigger] f@[i]).len()
            == ts[i].cols.len() by {
            assert(before[i].len() == ts[i].cols.len());
        }
        assert(marked(f@) =~= marked(before).insert(at));
    }
}

fn mark_table(f: &mut Vec<Vec<bool>>, t: usize, Ghost(ts): Ghost<Seq<TableModel>>)
    requires
        fits(old(f)@, ts),
        t < ts.len(),
    ensures
        fits(final(f)@, ts),
        marked(final(f)@) == marked(old(f)@).union(table_columns(ts, t)),
{
    let ghost before = marked(f@);
    let n: usize = f[t].len();
    assert(f@[t as int].len() == ts[t as int].cols.len());
    for c in 0..n
        invariant
            fits(f@, ts),
            t < ts.len(),
            n == ts[t as int].cols.len(),
            marked(f@) == before.union(
                Set::new(|at: At| at.0 == t && at.1 < c && valid_at(ts, at)),
            ),
    {
        mark_column(f, (t, c), Ghost(ts));
        assert(marked(f@) =~= before.union(
            Set::new(|at: At| at.0 == t && at.1 < c + 1 && valid_at(ts, at)),
        ));
    }
    assert(marked(f@) =~= before.union(table_columns(ts, t)));
    assert(before.union(Set::new(|at: At| at.0 == t && at.1 < 0 && valid_at(ts, at))) =~= before);
}

fn collect_expr_columns_by_table(
    expr: &LogicalExpr,
    tables: &Vec<ScanTableRef>,
    needed: &mut Vec<Vec<bool>>,
) -> (r: bool)
    requires
        fits(old(needed)@, tables_model(tables@)),
    ensures
        fits(final(needed)@, tables_model(tables@)),
        r == (expr_columns(expr@, tables_model(tables@)) is Some),
        r ==> marked(final(needed)@) == marked(old(needed)@).union(
            expr_columns(expr@, tables_model(tables@))->Some_0,
        ),
    decreases expr,
{
    let ghost before = marked(needed@);
    let ghost ts = tables_model(tables@);
    match expr {
        LogicalExpr::Column { table, name } => {
            match resolve_table_column(tables, schema::as_str(table), name.as_str()) {
                None => false,
                Some(None) => {
                    assert(before.union(Set::empty()) =~= before);
                    true
                },
                Some(Some(at)) => {
                    mark_column(needed, at, Ghost(ts));
                    assert(marked(needed@) =~= before.union(Set::empty().insert(at)));
                    true
                },
            }
        },
        LogicalExpr::NewRow { .. } => false,
        LogicalExpr::OldRow { .. } => false,
        LogicalExpr::BoundColumn { .. } => false,
        LogicalExpr::Wildcard => {
            for t in 0..tables.len()
                invariant
                    ts == tables_model(tables@),
                    fits(needed@, ts),
                    marked(needed@) == before.union(
                        Set::new(|at: At| at.0 < t && valid_at(ts, at)),
                    ),
            {
                mark_table(needed, t, Ghost(ts));
                assert(marked(needed@) =~= before.union(
                    Set::new(|at: At| at.0 < t + 1 && valid_at(ts, at)),
                ));
            }
            assert(marked(needed@) =~= before.union(every_column(ts)));
            assert(before.union(Set::new(|at: At| at.0 < 0 && valid_at(ts, at))) =~= before);
            true
        },
        LogicalExpr::ScalarSubquery { .. } => false,
        LogicalExpr::InSubquery { .. } => false,
        LogicalExpr::Exists { .. } => false,
        _ => {
            if is_row_count(expr) {
                assert(before.union(Set::empty()) =~= before);
                return true;
            }
            let v: Vec<&LogicalExpr> = expr_tree::expr_parts(expr);
            assert(expr_tree::borrowed_model(v@).len() == v.len());
            assert(before.union(Set::empty()) =~= before);
            for i in 0..v.len()
                invariant
                    ts == tables_model(tables@),
                    expr_columns(expr@, ts) == columns_of_parts(
                        expr@,
                        expr_tree::parts(expr@).len(),
                        ts,
                    ),
                    v.len() == expr_tree::parts(expr@).len(),
                    expr_tree::borrowed_model(v@) == expr_tree::parts(expr@),
                    forall|j: int|
                        0 <= j < v.len() ==> decreases_to!(*expr => *#[trigger] v@[j]),
                    fits(needed@, ts),
                    columns_of_parts(expr@, i as nat, ts) is Some,
                    marked(needed@) == before.union(
                        columns_of_parts(expr@, i as nat, ts)->Some_0,
                    ),
            {
                assert(decreases_to!(*expr => *v@[i as int]));
                assert(expr_tree::parts(expr@)[i as int] == v@[i as int]@);
                if !collect_expr_columns_by_table(v[i], tables, needed) {
                    proof {
                        lemma_columns_stop(expr@, (i + 1) as nat, v.len() as nat, ts);
                    }
                    return false;
                }
                assert(marked(needed@) =~= before.union(
                    columns_of_parts(expr@, (i + 1) as nat, ts)->Some_0,
                ));
            }
            true
        },
    }
}

/// The columns that a list of expressions reads.
pub open spec fn list_columns(s: Seq<ExprModel>, ts: Seq<TableModel>) -> Option<Set<At>>
    decreases s.len(),
{
    if s.len() == 0 {
        Some(Set::empty())
    } else {
        both_columns(list_columns(s.drop_last(), ts), expr_columns(s.last(), ts))
    }
}

proof fn lemma_list_columns_stop(s: Seq<ExprModel>, n: int, ts: Seq<TableModel>)
    requires
        0 <= n <= s.len(),
        list_columns(s.take(n), ts) is None,
    ensures
        list_columns(s, ts) is None,
    decreases s.len() - n,
{
    if n < s.len() {
        assert(s.take(n + 1).drop_last() =~= s.take(n));
        lemma_list_columns_stop(s, n + 1, ts);
    } else {
        assert(s.take(n) =~= s);
    }
}

fn collect_list_columns_by_table(
    list: &Vec<LogicalExpr>,
    tables: &Vec<ScanTableRef>,
    needed: &mut Vec<Vec<bool>>,
) -> (r: bool)
    requires
        fits(old(needed)@, tables_model(tables@)),
    ensures
        fits(final(needed)@, tables_model(tables@)),
        r == (list_columns(logical_plan::exprs_model(list@), tables_model(tables@)) is Some),
        r ==> marked(final(needed)@) == marked(old(needed)@).union(
            list_columns(logical_plan::exprs_model(list@), tables_model(tables@))->Some_0,
        ),
{
    let ghost before = marked(needed@);
    let ghost ts = tables_model(tables@);
    let ghost all = logical_plan::exprs_model(list@);
    proof {
        logical_plan::lemma_exprs_model(list@);
    }
    assert(all.take(0) =~= Seq::<ExprModel>::empty());
    assert(before.union(Set::empty()) =~= before);
    for i in 0..list.len()
        invariant
            ts == tables_model(tables@),
            all == logical_plan::exprs_model(list@),
            all.len() == list.len(),
            forall|j: int| 0 <= j < list.len() ==> #[trigger] all[j] == list@[j]@,
            fits(needed@, ts),
            list_columns(all.take(i as int), ts) is Some,
            marked(needed@) == before.union(list_columns(all.take(i as int), ts)->Some_0),
    {
        assert(all.take(i + 1).drop_last() =~= all.take(i as int));
        assert(all.take(i + 1).last() == list@[i as int]@);
        if !collect_expr_columns_by_table(&list[i], tables, needed) {
            proof {
                lemma_list_columns_stop(all, i + 1, ts);
            }
            return false;
        }
        assert(marked(needed@) =~= before.union(list_columns(all.take(i + 1), ts)->Some_0));
    }
    assert(all.take(list.len() as int) =~= all);
    true
}

pub open spec fn opt_columns_of(e: Option<ExprModel>, ts: Seq<TableModel>) -> Option<Set<At>> {
    match e {
        Some(x) => expr_columns(x, ts),
        None => Some(Set::empty()),
    }
}

pub open spec fn opt_list_columns(s: Option<Seq<ExprModel>>, ts: Seq<TableModel>) -> Option<
    Set<At>,
> {
    match s {
        Some(x) => list_columns(x, ts),
        None => Some(Set::empty()),
    }
}

fn collect_opt_by_table(
    e: &Option<LogicalExpr>,
    tables: &Vec<ScanTableRef>,
    needed: &mut Vec<Vec<bool>>,
) -> (r: bool)
    requires
        fits(old(needed)@, tables_model(tables@)),
    ensures
        fits(final(needed)@, tables_model(tables@)),
        r == (opt_columns_of(logical_plan::opt_expr(*e), tables_model(tables@)) is Some),
        r ==> marked(final(needed)@) == marked(old(needed)@).union(
            opt_columns_of(logical_plan::opt_expr(*e), tables_model(tables@))->Some_0,
        ),
{
    match e {
        Some(x) => collect_expr_columns_by_table(x, tables, needed),
        None => {
            assert(marked(needed@).union(Set::empty()) =~= marked(needed@));
            true
        },
    }
}

fn collect_opt_list_by_table(
    e: &Option<Vec<LogicalExpr>>,
    tables: &Vec<ScanTableRef>,
    needed: &mut Vec<Vec<bool>>,
) -> (r: bool)
    requires
        fits(old(needed)@, tables_model(tables@)),
    ensures
        fits(final(needed)@, tables_model(tables@)),
        r == (opt_list_columns(logical_plan::opt_exprs(*e), tables_model(tables@)) is Some),
        r ==> marked(final(needed)@) == marked(old(needed)@).union(
            opt_list_columns(logical_plan::opt_exprs(*e), tables_model(tables@))->Some_0,
        ),
{
    match e {
        Some(x) => collect_list_columns_by_table(x, tables, needed),
        None => {
            assert(marked(needed@).union(Set::empty()) =~= marked(needed@));
            true
        },
    }
}

/// The first table from `from` on that is called by a name.
pub open spec fn table_called(ts: Seq<TableModel>, name: Seq<char>, from: int) -> Option<usize>
    decreases ts.len() - from,
{
    if from < 0 || from >= ts.len() {
        None
    } else if text::same_ignoring_case(ts[from].name, name) {
        Some(from as usize)
    } else {
        table_called(ts, name, from + 1)
    }
}

fn find_scan_table_index(tables: &Vec<ScanTableRef>, table_name: &str) -> (r: Option<usize>)
    ensures
        r == table_called(tables_model(tables@), table_name@, 0),
        r matches Some(i) ==> i < tables.len(),
{
    let ghost ts = tables_model(tables@);
    let mut i: usize = 0;
    while i < tables.len()
        invariant
            ts == tables_model(tables@),
            i <= tables.len(),
            table_called(ts, table_name@, 0) == table_called(ts, table_name@, i as int),
        decreases tables.len() - i,
    {
        assert(ts[i as int] == tables@[i as int]@);
        if text::eq_ignore_ascii_case(tables[i].table_name.as_str(), table_name) {
            return Some(i);
        }
        i = i + 1;
    }
    None
}

/// The columns that a scan hands on. A position outside of the scan's own
/// columns, or outside of those of the table found under its name, cannot be
/// told.
pub open spec fn scan_columns(
    table_name: Seq<char>,
    cols: Seq<ColumnModel>,
    projection: Option<Seq<usize>>,
    output_required: bool,
    ts: Seq<TableModel>,
) -> Option<Set<At>> {
    match table_called(ts, table_name, 0) {
        None => None,
        Some(t) => match projection {
            None => if output_required {
                Some(table_columns(ts, t))
            } else {
                Some(Set::empty())
            },
            Some(p) => if forall|i: int|
                0 <= i < p.len() ==> (#[trigger] p[i]) < cols.len() && p[i]
                    < ts[t as int].cols.len() {
                Some(
                    Set::new(
                        |at: At|
                            at.0 == t && exists|i: int| 0 <= i < p.len() && #[trigger] p[i] == at.1,
                    ),
                )
            } else {
                None
            },
        },
    }
}

fn collect_scan_columns_by_table(
    table_name: &str,
    schema: &Schema,
    projection: &Option<Vec<usize>>,
    output_required: bool,
    tables: &Vec<ScanTableRef>,
    needed: &mut Vec<Vec<bool>>,
) -> (r: bool)
    requires
        fits(old(needed)@, tables_model(tables@)),
    ensures
        fits(final(needed)@, tables_model(tables@)),
        ({
            let want = scan_columns(
                table_name@,
                schema@,
                logical_plan::opt_positions(*projection),
                output_required,
                tables_model(tables@),
            );
            &&& r == (want is Some)
            &&& r ==> marked(final(needed)@) == marked(old(needed)@).union(want->Some_0)
        }),
{
    let ghost before = marked(needed@);
    let ghost ts = tables_model(tables@);
    let t: usize = match find_scan_table_index(tables, table_name) {
        Some(t) => t,
        None => {
            return false;
        },
    };
    match projection {
        None => {
            if output_required {
                mark_table(needed, t, Ghost(ts));
            } else {
                assert(before.union(Set::empty()) =~= before);
            }
            true
        },
        Some(p) => {
            assert(before.union(
                Set::new(
                    |at: At|
                        at.0 == t && exists|j: int| 0 <= j < 0 && #[trigger] p@[j] == at.1,
                ),
            ) =~= before);
            for i in 0..p.len()
                invariant
                    *projection == Some(*p),
                    ts == tables_model(tables@),
                    table_called(ts, table_name@, 0) == Some(t),
                    t < tables.len(),
                    fits(needed@, ts),
                    forall|j: int|
                        0 <= j < i ==> (#[trigger] p@[j]) < schema@.len() && p@[j]
                            < ts[t as int].cols.len(),
                    marked(needed@) == before.union(
                        Set::new(
                            |at: At|
                                at.0 == t && exists|j: int|
                                    0 <= j < i && #[trigger] p@[j] == at.1,
                        ),
                    ),
            {
                assert(ts[t as int] == tables@[t as int]@);
                if p[i] >= schema.columns.len() || p[i] >= tables[t].schema.columns.len() {
                    assert(!(p@[i as int] < schema@.len() && p@[i as int]
                        < ts[t as int].cols.len()));
                    return false;
                }
                let ghost was = marked(needed@);
                mark_column(needed, (t, p[i]), Ghost(ts));
                proof {
                    let now = before.union(
                        Set::new(
                            |at: At|
                                at.0 == t && exists|j: int|
                                    0 <= j < i + 1 && #[trigger] p@[j] == at.1,
                        ),
                    );
                    assert forall|at: At| #[trigger] marked(needed@).contains(at) == now.contains(
                        at,
                    ) by {
                        if at == (t, p@[i as int]) {
                            assert(p@[i as int] == at.1);
                        }
                        if was.contains(at) && !before.contains(at) {
                            let j = choose|j: int| 0 <= j < i && #[trigger] p@[j] == at.1;
                            assert(p@[j] == at.1);
                        }
                        if now.contains(at) && !before.contains(at) {
                            let j = choose|j: int| 0 <= j < i + 1 && #[trigger] p@[j] == at.1;
                            if j < i {
                                assert(was.contains(at));
                            }
                        }
                    }
                    assert(marked(needed@) =~= now);
                }
            }
            true
        },
    }
}

/// The columns that a plan reads; `None` where that cannot be told.
pub open spec fn plan_columns(p: PlanModel, ts: Seq<TableModel>, output_required: bool) -> Option<
    Set<At>,
>
    decreases p,
{
    match p {
        PlanModel::Scan { table_name, alias, schema, projection, as_of } => scan_columns(
            table_name,
            schema,
            projection,
            output_required,
            ts,
        ),
        PlanModel::FilteredScan { table_name, alias, schema, projection, predicate, as_of } => {
            both_columns(
                scan_columns(table_name, schema, projection, output_required, ts),
                opt_columns_of(predicate, ts),
            )
        },
        PlanModel::Filter { input, predicate } => both_columns(
            expr_columns(predicate, ts),
            plan_columns(*input, ts, output_required),
        ),
        PlanModel::Project { input, exprs, aliases, distinct, distinct_on, source_alias } => {
            both_columns(
                both_columns(list_columns(exprs, ts), opt_list_columns(distinct_on, ts)),
                plan_columns(*input, ts, false),
            )
        },
        PlanModel::Aggregate { input, group_by, aggr_exprs, having } => both_columns(
            both_columns(
                both_columns(list_columns(group_by, ts), list_columns(aggr_exprs, ts)),
                opt_columns_of(having, ts),
            ),
            plan_columns(*input, ts, false),
        ),
        PlanModel::Sort { input, exprs, asc } => both_columns(
            list_columns(exprs, ts),
            plan_columns(*input, ts, output_required),
        ),
        PlanModel::Limit { input, limit, offset, limit_param, offset_param } => plan_columns(
            *input,
            ts,
            output_required,
        ),
        PlanModel::Join { left, right, join_type, on, lateral } => if lateral {
            None
        } else {
            both_columns(
                both_columns(
                    opt_columns_of(on, ts),
                    plan_columns(*left, ts, output_required),
                ),
                plan_columns(*right, ts, output_required),
            )
        },
        _ => None,
    }
}

fn collect_plan_columns_by_table(
    plan: &LogicalPlan,
    tables: &Vec<ScanTableRef>,
    needed: &mut Vec<Vec<bool>>,
    output_required: bool,
) -> (r: bool)
    requires
        fits(old(needed)@, tables_model(tables@)),
    ensures
        fits(final(needed)@, tables_model(tables@)),
        r == (plan_columns(plan@, tables_model(tables@), output_required) is Some),
        r ==> marked(final(needed)@) == marked(old(needed)@).union(
            plan_columns(plan@, tables_model(tables@), output_required)->Some_0,
        ),
    decreases plan,
{
    let ghost before = marked(needed@);
    let ghost ts = tables_model(tables@);
    let r: bool = match plan {
        LogicalPlan::Scan { table_name, alias, schema, projection, as_of } => {
            collect_scan_columns_by_table(
                table_name.as_str(),
                schema,
                projection,
                output_required,
                tables,
                needed,
            )
        },
        LogicalPlan::FilteredScan { table_name, alias, schema, projection, predicate, as_of } => {
            collect_scan_columns_by_table(
                table_name.as_str(),
                schema,
                projection,
                output_required,
                tables,
                needed,
            ) && collect_opt_by_table(predicate, tables, needed)
        },
        LogicalPlan::Filter { input, predicate } => {
            collect_expr_columns_by_table(predicate, tables, needed)
                && collect_plan_columns_by_table(input, tables, needed, output_required)
        },
        LogicalPlan::Project { input, exprs, aliases, distinct, distinct_on, source_alias } => {
            collect_list_columns_by_table(exprs, tables, needed) && collect_opt_list_by_table(
                distinct_on,
                tables,
                needed,
            ) && collect_plan_columns_by_table(input, tables, needed, false)
        },
        LogicalPlan::Aggregate { input, group_by, aggr_exprs, having } => {
            collect_list_columns_by_table(group_by, tables, needed)
                && collect_list_columns_by_table(aggr_exprs, tables, needed)
                && collect_opt_by_table(having, tables, needed) && collect_plan_columns_by_table(
                input,
                tables,
                needed,
                false,
            )
        },
        LogicalPlan::Sort { input, exprs, asc } => {
            collect_list_columns_by_table(exprs, tables, needed) && collect_plan_columns_by_table(
                input,
                tables,
                needed,
                output_required,
            )
        },
        LogicalPlan::Limit { input, limit, offset, limit_param, offset_param } => {
            collect_plan_columns_by_table(input, tables, needed, output_required)
        },
        LogicalPlan::Join { left, right, join_type, on, lateral } => {
            !*lateral && collect_opt_by_table(on, tables, needed) && collect_plan_columns_by_table(
                left,
                tables,
                needed,
                output_required,
            ) && collect_plan_columns_by_table(right, tables, needed, output_required)
        },
        _ => false,
    };
    assert(r ==> marked(needed@) =~= before.union(
        plan_columns(plan@, ts, output_required)->Some_0,
    ));
    r
}

/// The positions of one table among columns of several.
pub open spec fn positions_of(s: Set<At>, t: usize) -> Set<usize> {
    Set::new(|c: usize| s.contains((t, c)))
}

/// The hints for the first `n` tables.
pub open spec fn table_hints(ts: Seq<TableModel>, read: Set<At>, n: nat) -> Seq<
    (Seq<char>, HintModel),
>
    decreases n,
{
    if n == 0 || n > ts.len() {
        Seq::empty()
    } else {
        let m = (n - 1) as nat;
        let t = ts[m as int];
        let before = table_hints(ts, read, m);
        match chosen_hint(
            ascending(positions_of(read, m as usize), t.cols.len()),
            t.cols.len(),
        ) {
            Some(h) => before.push((t.name, h)),
            None => before,
        }
    }
}

/// How the rows of every table of a plan are decoded: of one table, or of
/// several that can be told apart where it is clear what each column belongs
/// to. Whatever is not listed is decoded whole.
pub open spec fn decode_hints(p: PlanModel) -> Seq<(Seq<char>, HintModel)> {
    match single_hint(p) {
        Some(h) => seq![h],
        None => match scan_tables(p) {
            Some(ts) => if ts.len() >= 2 && all_told_apart(ts) && plan_columns(p, ts, true)
                is Some {
                table_hints(ts, plan_columns(p, ts, true)->Some_0, ts.len())
            } else {
                Seq::empty()
            },
            None => Seq::empty(),
        },
    }
}

pub open spec fn hints_model(s: Seq<(String, ScanDecodeHint)>) -> Seq<(Seq<char>, HintModel)> {
    Seq::new(s.len(), |i: int| (s[i].0@, s[i].1@))
}

/// How the rows of every table of a plan are decoded.
pub fn compute_scan_decode_hints(plan: &LogicalPlan) -> (r: Vec<(String, ScanDecodeHint)>)
    ensures
        hints_model(r@) == decode_hints(plan@),
{
    let mut hints: Vec<(String, ScanDecodeHint)> = Vec::new();
    assert(hints_model(hints@) =~= Seq::<(Seq<char>, HintModel)>::empty());
    match compute_scan_decode_hint(plan) {
        Some(h) => {
            hints.push(h);
            assert(hints_model(hints@) =~= decode_hints(plan@));
            return hints;
        },
        None => {},
    }
    let mut tables: Vec<ScanTableRef> = Vec::new();
    if !collect_scan_tables(plan, &mut tables) {
        return hints;
    }
    let ghost ts = scan_tables(plan@)->Some_0;
    assert(tables_model(tables@) =~= ts);
    if tables.len() < 2 || !table_qualifiers_are_unique(&tables) {
        return hints;
    }
    let mut needed: Vec<Vec<bool>> = Vec::new();
    for i in 0..tables.len()
        invariant
            tables_model(tables@) == ts,
            needed.len() == i,
            forall|j: int|
                0 <= j < i ==> (#[trigger] needed@[j]).len() == ts[j].cols.len() && flagged(
                    needed@[j]@,
                ) == Set::<usize>::empty(),
    {
        assert(ts[i as int] == tables@[i as int]@);
        needed.push(no_flags(tables[i].schema.columns.len()));
    }
    proof {
        assert forall|at: At| !marked(needed@).contains(at) by {
            if marked(needed@).contains(at) {
                assert(flagged(needed@[at.0 as int]@).contains(at.1));
            }
        }
        assert(marked(needed@) =~= Set::<At>::empty());
    }
    if !collect_plan_columns_by_table(plan, &tables, &mut needed, true) {
        return hints;
    }
    let ghost read = plan_columns(plan@, ts, true)->Some_0;
    assert(marked(needed@) =~= read);
    for i in 0..tables.len()
        invariant
            tables_model(tables@) == ts,
            fits(needed@, ts),
            marked(needed@) == read,
            hints_model(hints@) == table_hints(ts, read, i as nat),
    {
        assert(ts[i as int] == tables@[i as int]@);
        assert(needed@[i as int].len() == ts[i as int].cols.len());
        proof {
            assert forall|c: usize| flagged(needed@[i as int]@).contains(c) == #[trigger]
                positions_of(read, i).contains(c) by {
                assert(marked(needed@).contains((i, c)) == read.contains((i, c)));
            }
            assert(flagged(needed@[i as int]@) =~= positions_of(read, i));
            lemma_ascending(positions_of(read, i), ts[i as int].cols.len());
        }
        let indices: Vec<usize> = flagged_positions(&needed[i]);
        match choose_scan_decode_hint(indices, tables[i].schema.columns.len()) {
            Some(h) => {
                hints.push((tables[i].table_name.clone(), h));
            },
            None => {},
        }
        assert(hints_model(hints@) =~= table_hints(ts, read, (i + 1) as nat));
    }
    hints
}

/// The hint for each table of a plan over several has every column of it
/// decoded that the plan reads.
pub proof fn law_table_hints_cover_every_column(
    ts: Seq<TableModel>,
    read: Set<At>,
    n: nat,
    at: At,
)
    requires
        n <= ts.len(),
        ts.len() <= usize::MAX,
        at.0 < n,
        at.1 < ts[at.0 as int].cols.len(),
        ts[at.0 as int].cols.len() <= usize::MAX,
        read.contains(at),
    ensures
        chosen_hint(
            ascending(positions_of(read, at.0), ts[at.0 as int].cols.len()),
            ts[at.0 as int].cols.len(),
        ) matches Some(h) ==> hint_covers(h, at.1 as int) && table_hints(ts, read, n).contains(
            (ts[at.0 as int].name, h),
        ),
    decreases n,
{
    let s = positions_of(read, at.0);
    let t = ts[at.0 as int];
    if let Some(h) = chosen_hint(ascending(s, t.cols.len()), t.cols.len()) {
        lemma_chosen_hint_covers(s, t.cols.len(), at.1);
        let m = (n - 1) as nat;
        if at.0 < m {
            law_table_hints_cover_every_column(ts, read, m, at);
            let before = table_hints(ts, read, m);
            let k = choose|k: int| 0 <= k < before.len() && before[k] == (t.name, h);
            assert(table_hints(ts, read, n)[k] == (t.name, h));
        } else {
            let all = table_hints(ts, read, n);
            assert(all[all.len() - 1] == (t.name, h));
        }
    }
}

} // verus!
