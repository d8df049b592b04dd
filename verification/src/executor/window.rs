//! The stage of window functions under a `SELECT` list: their values become
//! columns behind those of the input, and the list reads them by name.

use crate::logical_plan;
use crate::logical_plan::{ExprModel, LogicalExpr};
use crate::schema;
use crate::schema::{Column, ColumnModel, Schema};
use crate::value::DataType;
use vstd::prelude::*;

verus! {

/// What a `SELECT` list with window functions is turned into.
pub struct WindowStage {
    /// The window functions, each with the name of its column.
    pub window_exprs: Vec<(LogicalExpr, String)>,
    /// The columns of the input and those of the window functions.
    pub schema: Schema,
    /// The list over those columns.
    pub items: Vec<LogicalExpr>,
}

/// What window functions with their names stand for.
pub open spec fn pairs_model(s: Seq<(LogicalExpr, String)>) -> Seq<(ExprModel, Seq<char>)> {
    s.map_values(|p: (LogicalExpr, String)| (p.0@, p.1@))
}

/// Whether an item of a list is a window function with a name.
pub open spec fn is_window_item(exprs: Seq<ExprModel>, aliases: Seq<Seq<char>>, i: int) -> bool {
    0 <= i < exprs.len() && i < aliases.len() && exprs[i] is WindowFunction
}

/// The window functions among the first `n` items, with their names.
pub open spec fn window_items(
    exprs: Seq<ExprModel>,
    aliases: Seq<Seq<char>>,
    n: nat,
) -> Seq<(ExprModel, Seq<char>)>
    decreases n,
{
    if n == 0 {
        Seq::empty()
    } else {
        let before = window_items(exprs, aliases, (n - 1) as nat);
        if is_window_item(exprs, aliases, n - 1) {
            before.push((exprs[n - 1], aliases[n - 1]))
        } else {
            before
        }
    }
}

/// The columns under a list with window functions.
pub open spec fn stage_columns(
    cols: Seq<ColumnModel>,
    windows: Seq<(ExprModel, Seq<char>)>,
) -> Seq<ColumnModel> {
    cols + windows.map_values(
        |w: (ExprModel, Seq<char>)| schema::plain_column(w.1, DataType::Int8),
    )
}

/// An item of the list over the columns of the stage.
pub open spec fn staged_item(
    exprs: Seq<ExprModel>,
    aliases: Seq<Seq<char>>,
    i: int,
) -> ExprModel {
    if is_window_item(exprs, aliases, i) {
        ExprModel::Column { table: None, name: aliases[i] }
    } else {
        exprs[i]
    }
}

/// The window functions of a list, the columns that they add to an input, and the
/// list over those columns.
pub fn plan_window(exprs: &Vec<LogicalExpr>, aliases: &Vec<String>, input: &Schema) -> (r:
    WindowStage)
    ensures
        ({
            let items = logical_plan::exprs_model(exprs@);
            let names = schema::texts(aliases@);
            &&& pairs_model(r.window_exprs@) == window_items(items, names, items.len())
            &&& r.schema@ == stage_columns(input@, window_items(items, names, items.len()))
            &&& logical_plan::exprs_model(r.items@) == Seq::new(
                items.len(),
                |i: int| staged_item(items, names, i),
            )
        }),
{
    let ghost items = logical_plan::exprs_model(exprs@);
    let ghost names = schema::texts(aliases@);
    let mut window_exprs: Vec<(LogicalExpr, String)> = Vec::new();
    let mut columns: Vec<Column> = schema::clone_columns(&input.columns);
    let mut list: Vec<LogicalExpr> = Vec::new();
    proof {
        logical_plan::lemma_exprs_model(exprs@);
        logical_plan::lemma_exprs_model(list@);
        assert(pairs_model(window_exprs@) =~= window_items(items, names, 0));
        assert(schema::columns_model(columns@) =~= stage_columns(input@, window_items(items, names, 0)));
    }
    let mut i: usize = 0;
    while i < exprs.len()
        invariant
            items == logical_plan::exprs_model(exprs@),
            names == schema::texts(aliases@),
            items.len() == exprs@.len(),
            forall|j: int| 0 <= j < exprs@.len() ==> #[trigger] items[j] == exprs@[j]@,
            i <= exprs@.len(),
            pairs_model(window_exprs@) == window_items(items, names, i as nat),
            schema::columns_model(columns@) == stage_columns(
                input@,
                window_items(items, names, i as nat),
            ),
            list@.len() == i,
            forall|j: int| 0 <= j < i ==> (#[trigger] list@[j])@ == staged_item(items, names, j),
        decreases exprs.len() - i,
    {
        let ghost before = window_items(items, names, i as nat);
        let ghost old_pairs = window_exprs@;
        let ghost old_columns = columns@;
        assert(items[i as int] == exprs@[i as int]@);
        if i < aliases.len() && matches!(&exprs[i], LogicalExpr::WindowFunction { .. }) {
            assert(names[i as int] == aliases@[i as int]@);
            let e: LogicalExpr = exprs[i].clone();
            window_exprs.push((e, aliases[i].clone()));
            columns.push(Column::new(aliases[i].as_str(), DataType::Int8));
            list.push(LogicalExpr::Column { table: None, name: aliases[i].clone() });
            proof {
                let w = (items[i as int], names[i as int]);
                assert(pairs_model(window_exprs@) =~= pairs_model(old_pairs).push(w));
                assert(schema::columns_model(columns@) =~= schema::columns_model(old_columns).push(
                    schema::plain_column(w.1, DataType::Int8),
                ));
                assert(stage_columns(input@, before.push(w)) =~= stage_columns(input@, before).push(
                    schema::plain_column(w.1, DataType::Int8),
                ));
            }
        } else {
            list.push(exprs[i].clone());
        }
        i += 1;
    }
    proof {
        logical_plan::lemma_exprs_model(list@);
        assert(logical_plan::exprs_model(list@) =~= Seq::new(
            items.len(),
            |j: int| staged_item(items, names, j),
        ));
    }
    WindowStage { window_exprs, schema: Schema { columns }, items: list }
}

/// Where the column of the window function at item `i` stands.
pub open spec fn window_place(
    cols: Seq<ColumnModel>,
    exprs: Seq<ExprModel>,
    aliases: Seq<Seq<char>>,
    i: int,
) -> nat {
    cols.len() + window_items(exprs, aliases, i as nat).len()
}

proof fn lemma_earlier_windows(exprs: Seq<ExprModel>, aliases: Seq<Seq<char>>, m: nat, n: nat)
    requires
        m <= n <= exprs.len(),
    ensures
        window_items(exprs, aliases, m).len() <= window_items(exprs, aliases, n).len() <= n,
        window_items(exprs, aliases, m) =~= window_items(exprs, aliases, n).take(
            window_items(exprs, aliases, m).len() as int,
        ),
    decreases n,
{
    if m < n {
        lemma_earlier_windows(exprs, aliases, m, (n - 1) as nat);
    } else if n > 0 {
        lemma_earlier_windows(exprs, aliases, (n - 1) as nat, (n - 1) as nat);
    }
}

proof fn lemma_windows_are_items(exprs: Seq<ExprModel>, aliases: Seq<Seq<char>>, n: nat) -> (at: Seq<
    int,
>)
    requires
        n <= exprs.len(),
    ensures
        at.len() == window_items(exprs, aliases, n).len(),
        forall|k: int|
            0 <= k < at.len() ==> 0 <= #[trigger] at[k] < n && is_window_item(exprs, aliases, at[k])
                && window_items(exprs, aliases, n)[k] == (exprs[at[k]], aliases[at[k]]),
    decreases n,
{
    if n == 0 {
        Seq::empty()
    } else {
        let before = lemma_windows_are_items(exprs, aliases, (n - 1) as nat);
        if is_window_item(exprs, aliases, n - 1) {
            before.push(n - 1)
        } else {
            before
        }
    }
}

/// A window function in a list is replaced by a column, and that column is the one
/// of its own values, where its name is neither a name of the input nor that of an
/// earlier window function.
pub proof fn law_a_window_item_reads_its_own_column(
    cols: Seq<ColumnModel>,
    exprs: Seq<ExprModel>,
    aliases: Seq<Seq<char>>,
    i: int,
)
    requires
        is_window_item(exprs, aliases, i),
        cols.len() + exprs.len() <= usize::MAX,
        forall|k: int| 0 <= k < cols.len() ==> (#[trigger] cols[k]).name != aliases[i],
        forall|k: int|
            0 <= k < i && #[trigger] is_window_item(exprs, aliases, k) ==> aliases[k] != aliases[i],
    ensures
        ({
            let windows = window_items(exprs, aliases, exprs.len());
            let place = window_place(cols, exprs, aliases, i);
            &&& staged_item(exprs, aliases, i) == (ExprModel::Column {
                table: None,
                name: aliases[i],
            })
            &&& schema::column_index(stage_columns(cols, windows), aliases[i]) == Some(
                place as usize,
            )
            &&& windows[place - cols.len()] == (exprs[i], aliases[i])
        }),
{
    let windows = window_items(exprs, aliases, exprs.len());
    let all = stage_columns(cols, windows);
    let rank = window_items(exprs, aliases, i as nat).len();
    lemma_earlier_windows(exprs, aliases, i as nat, (i + 1) as nat);
    lemma_earlier_windows(exprs, aliases, (i + 1) as nat, exprs.len());
    lemma_earlier_windows(exprs, aliases, i as nat, exprs.len());
    assert(window_items(exprs, aliases, (i + 1) as nat)[rank as int] == (exprs[i], aliases[i]));
    assert(windows.take((rank + 1) as int)[rank as int] == windows[rank as int]);
    assert(all[(cols.len() + rank) as int].name == aliases[i]);
    let at = lemma_windows_are_items(exprs, aliases, i as nat);
    assert forall|j: int| 0 <= j < cols.len() + rank implies (#[trigger] all[j]).name
        != aliases[i] by {
        if j < cols.len() {
            assert(all[j] == cols[j]);
        } else {
            let k = j - cols.len();
            assert(windows.take(rank as int)[k] == windows[k]);
            assert(is_window_item(exprs, aliases, at[k]));
        }
    }
    schema::lemma_find_named(all, aliases[i], 0);
}

} // verus!
