//! Expressions as trees: the direct parts of an expression and what can be
//! asked of all of them.

use crate::logical_plan;
use crate::logical_plan::{ExprModel, LogicalExpr};
use crate::schema;
use vstd::prelude::*;

verus! {

/// An optional part as a list.
pub open spec fn optional_part(e: Option<Box<ExprModel>>) -> Seq<ExprModel> {
    match e {
        Some(b) => seq![*b],
        None => Seq::empty(),
    }
}

/// The parts of `WHEN .. THEN ..` branches, in order.
pub open spec fn branch_parts(s: Seq<(ExprModel, ExprModel)>) -> Seq<ExprModel> {
    Seq::new(
        2 * s.len(),
        |i: int|
            if i % 2 == 0 {
                s[i / 2].0
            } else {
                s[i / 2].1
            },
    )
}

/// The sort keys of a window.
pub open spec fn key_parts(s: Seq<(ExprModel, bool)>) -> Seq<ExprModel> {
    Seq::new(s.len(), |i: int| s[i].0)
}

/// The direct parts of an expression. A subquery is no part of it.
pub open spec fn parts(e: ExprModel) -> Seq<ExprModel> {
    match e {
        ExprModel::BinaryExpr { left, op, right } => seq![*left, *right],
        ExprModel::UnaryExpr { op, expr } => seq![*expr],
        ExprModel::Cast { expr, data_type } => seq![*expr],
        ExprModel::IsNull { expr, is_null } => seq![*expr],
        ExprModel::InSet { expr, values, negated } => seq![*expr],
        ExprModel::InSubquery { expr, subquery, negated } => seq![*expr],
        ExprModel::Between { expr, low, high, negated } => seq![*expr, *low, *high],
        ExprModel::InList { expr, list, negated } => seq![*expr] + list,
        ExprModel::Case { expr, when_then, else_result } => optional_part(expr) + branch_parts(
            when_then,
        ) + optional_part(else_result),
        ExprModel::ScalarFunction { fun, args } => args,
        ExprModel::AggregateFunction { fun, args, distinct } => args,
        ExprModel::WindowFunction { fun, args, partition_by, order_by } => args + partition_by
            + key_parts(order_by),
        ExprModel::Tuple { items } => items,
        ExprModel::ArraySubscript { array, index } => seq![*array, *index],
        _ => Seq::empty(),
    }
}

/// The parts of an expression are smaller than the expression.
pub proof fn lemma_parts_are_smaller(e: ExprModel)
    ensures
        forall|i: int| 0 <= i < parts(e).len() ==> decreases_to!(e => #[trigger] parts(e)[i]),
{
    assert forall|i: int| 0 <= i < parts(e).len() implies decreases_to!(
        e => #[trigger] parts(e)[i]
    ) by {
        match e {
            ExprModel::BinaryExpr { left, op, right } => {
                assert(decreases_to!(e => left));
                assert(decreases_to!(e => right));
            },
            ExprModel::Between { expr, low, high, negated } => {
                assert(decreases_to!(e => expr));
                assert(decreases_to!(e => low));
                assert(decreases_to!(e => high));
            },
            ExprModel::InList { expr, list, negated } => {
                assert(decreases_to!(e => expr));
                if i > 0 {
                    assert(decreases_to!(e => list));
                    assert(decreases_to!(list => list[i - 1]));
                }
            },
            ExprModel::Case { expr, when_then, else_result } => {
                let a = optional_part(expr).len();
                let b = 2 * when_then.len();
                if i < a {
                    assert(decreases_to!(e => expr));
                    assert(decreases_to!(expr => expr->Some_0));
                } else if i < a + b {
                    let k = (i - a) / 2;
                    assert(decreases_to!(e => when_then));
                    assert(decreases_to!(when_then => when_then[k]));
                    assert(decreases_to!(when_then[k] => when_then[k].0));
                    assert(decreases_to!(when_then[k] => when_then[k].1));
                } else {
                    assert(decreases_to!(e => else_result));
                    assert(decreases_to!(else_result => else_result->Some_0));
                }
            },
            ExprModel::ScalarFunction { fun, args } => {
                assert(decreases_to!(e => args));
                assert(decreases_to!(args => args[i]));
            },
            ExprModel::AggregateFunction { fun, args, distinct } => {
                assert(decreases_to!(e => args));
                assert(decreases_to!(args => args[i]));
            },
            ExprModel::WindowFunction { fun, args, partition_by, order_by } => {
                let a = args.len();
                let b = partition_by.len();
                if i < a {
                    assert(decreases_to!(e => args));
                    assert(decreases_to!(args => args[i]));
                } else if i < a + b {
                    assert(decreases_to!(e => partition_by));
                    assert(decreases_to!(partition_by => partition_by[i - a]));
                } else {
                    let k = i - a - b;
                    assert(decreases_to!(e => order_by));
                    assert(decreases_to!(order_by => order_by[k]));
                    assert(decreases_to!(order_by[k] => order_by[k].0));
                }
            },
            ExprModel::Tuple { items } => {
                assert(decreases_to!(e => items));
                assert(decreases_to!(items => items[i]));
            },
            ExprModel::ArraySubscript { array, index } => {
                assert(decreases_to!(e => array));
                assert(decreases_to!(e => index));
            },
            ExprModel::UnaryExpr { op, expr } => {
                assert(decreases_to!(e => expr));
            },
            ExprModel::Cast { expr, data_type } => {
                assert(decreases_to!(e => expr));
            },
            ExprModel::IsNull { expr, is_null } => {
                assert(decreases_to!(e => expr));
            },
            ExprModel::InSet { expr, values, negated } => {
                assert(decreases_to!(e => expr));
            },
            ExprModel::InSubquery { expr, subquery, negated } => {
                assert(decreases_to!(e => expr));
            },
            _ => {},
        }
    }
}

/// What borrowed expressions stand for.
pub open spec fn borrowed_model(s: Seq<&LogicalExpr>) -> Seq<ExprModel> {
    Seq::new(s.len(), |i: int| s[i]@)
}

fn push_all<'a>(out: &mut Vec<&'a LogicalExpr>, v: &'a Vec<LogicalExpr>)
    ensures
        borrowed_model(final(out)@) == borrowed_model(old(out)@) + logical_plan::exprs_model(v@),
        forall|i: int|
            0 <= i < old(out).len() ==> #[trigger] final(out)@[i] == old(out)@[i],
        forall|i: int|
            old(out).len() <= i < final(out).len() ==> decreases_to!(*v => *#[trigger] final(out)@[i]),
{
    let ghost before = out@;
    proof {
        logical_plan::lemma_exprs_model(v@);
    }
    for i in 0..v.len()
        invariant
            out.len() == before.len() + i,
            logical_plan::exprs_model(v@).len() == v.len(),
            forall|j: int|
                0 <= j < v.len() ==> #[trigger] logical_plan::exprs_model(v@)[j] == v@[j]@,
            forall|j: int| 0 <= j < before.len() ==> #[trigger] out@[j] == before[j],
            forall|j: int|
                before.len() <= j < out.len() ==> *#[trigger] out@[j] == v@[j - before.len()],
            forall|j: int|
                before.len() <= j < out.len() ==> decreases_to!(*v => *#[trigger] out@[j]),
    {
        assert(decreases_to!(*v => v@));
        assert(decreases_to!(v@ => v@[i as int]));
        out.push(&v[i]);
    }
    assert(borrowed_model(out@) =~= borrowed_model(before) + logical_plan::exprs_model(v@));
}

fn push_branches<'a>(out: &mut Vec<&'a LogicalExpr>, v: &'a Vec<(LogicalExpr, LogicalExpr)>)
    ensures
        borrowed_model(final(out)@) == borrowed_model(old(out)@) + branch_parts(
            logical_plan::pairs_model(v@),
        ),
        forall|i: int|
            0 <= i < old(out).len() ==> #[trigger] final(out)@[i] == old(out)@[i],
        forall|i: int|
            old(out).len() <= i < final(out).len() ==> decreases_to!(*v => *#[trigger] final(out)@[i]),
{
    let ghost before = out@;
    proof {
        logical_plan::lemma_pairs_model(v@);
    }
    for i in 0..v.len()
        invariant
            out.len() == before.len() + 2 * i,
            logical_plan::pairs_model(v@).len() == v.len(),
            forall|j: int|
                0 <= j < v.len() ==> #[trigger] logical_plan::pairs_model(v@)[j] == (
                    v@[j].0@,
                    v@[j].1@,
                ),
            forall|j: int| 0 <= j < before.len() ==> #[trigger] out@[j] == before[j],
            borrowed_model(out@) == borrowed_model(before) + branch_parts(
                logical_plan::pairs_model(v@),
            ).take(2 * i as int),
            forall|j: int|
                before.len() <= j < out.len() ==> decreases_to!(*v => *#[trigger] out@[j]),
    {
        let ghost was = out@;
        assert(decreases_to!(*v => v@));
        assert(decreases_to!(v@ => v@[i as int]));
        assert(decreases_to!(v@[i as int] => v@[i as int].0));
        assert(decreases_to!(v@[i as int] => v@[i as int].1));
        out.push(&v[i].0);
        out.push(&v[i].1);
        let ghost all = branch_parts(logical_plan::pairs_model(v@));
        assert(all[2 * i as int] == v@[i as int].0@);
        assert(all[2 * i + 1] == v@[i as int].1@);
        assert(borrowed_model(out@) =~= borrowed_model(was).push(all[2 * i as int]).push(
            all[2 * i + 1],
        ));
        assert(all.take(2 * (i + 1)) =~= all.take(2 * i as int).push(all[2 * i as int]).push(
            all[2 * i + 1],
        ));
        assert(borrowed_model(out@) =~= borrowed_model(before) + all.take(2 * (i + 1)));
    }
    assert(branch_parts(logical_plan::pairs_model(v@)).take(2 * v.len() as int) =~= branch_parts(
        logical_plan::pairs_model(v@),
    ));
    assert(borrowed_model(before) + branch_parts(logical_plan::pairs_model(v@)).take(0)
        =~= borrowed_model(before));
}

fn push_keys<'a>(out: &mut Vec<&'a LogicalExpr>, v: &'a Vec<(LogicalExpr, bool)>)
    ensures
        borrowed_model(final(out)@) == borrowed_model(old(out)@) + key_parts(
            logical_plan::flagged_model(v@),
        ),
        forall|i: int|
            0 <= i < old(out).len() ==> #[trigger] final(out)@[i] == old(out)@[i],
        forall|i: int|
            old(out).len() <= i < final(out).len() ==> decreases_to!(*v => *#[trigger] final(out)@[i]),
{
    let ghost before = out@;
    proof {
        logical_plan::lemma_flagged_model(v@);
    }
    for i in 0..v.len()
        invariant
            out.len() == before.len() + i,
            logical_plan::flagged_model(v@).len() == v.len(),
            forall|j: int|
                0 <= j < v.len() ==> #[trigger] logical_plan::flagged_model(v@)[j] == (
                    v@[j].0@,
                    v@[j].1,
                ),
            forall|j: int| 0 <= j < before.len() ==> #[trigger] out@[j] == before[j],
            forall|j: int|
                before.len() <= j < out.len() ==> *#[trigger] out@[j] == v@[j - before.len()].0,
            forall|j: int|
                before.len() <= j < out.len() ==> decreases_to!(*v => *#[trigger] out@[j]),
    {
        assert(decreases_to!(*v => v@));
        assert(decreases_to!(v@ => v@[i as int]));
        assert(decreases_to!(v@[i as int] => v@[i as int].0));
        out.push(&v[i].0);
    }
    assert(borrowed_model(out@) =~= borrowed_model(before) + key_parts(
        logical_plan::flagged_model(v@),
    ));
}

/// The direct parts of an expression.
pub fn expr_parts(e: &LogicalExpr) -> (r: Vec<&LogicalExpr>)
    ensures
        borrowed_model(r@) == parts(e@),
        forall|i: int| 0 <= i < r.len() ==> decreases_to!(*e => *#[trigger] r@[i]),
{
    let mut out: Vec<&LogicalExpr> = Vec::new();
    match e {
        LogicalExpr::BinaryExpr { left, op, right } => {
            assert(decreases_to!(*e => **left));
            assert(decreases_to!(*e => **right));
            out.push(&**left);
            out.push(&**right);
            assert(borrowed_model(out@) =~= parts(e@));
        },
        LogicalExpr::UnaryExpr { op, expr } => {
            out.push(&**expr);
            assert(borrowed_model(out@) =~= parts(e@));
        },
        LogicalExpr::Cast { expr, data_type } => {
            out.push(&**expr);
            assert(borrowed_model(out@) =~= parts(e@));
        },
        LogicalExpr::IsNull { expr, is_null } => {
            out.push(&**expr);
            assert(borrowed_model(out@) =~= parts(e@));
        },
        LogicalExpr::InSet { expr, values, negated } => {
            out.push(&**expr);
            assert(borrowed_model(out@) =~= parts(e@));
        },
        LogicalExpr::InSubquery { expr, subquery, negated } => {
            out.push(&**expr);
            assert(borrowed_model(out@) =~= parts(e@));
        },
        LogicalExpr::Between { expr, low, high, negated } => {
            out.push(&**expr);
            out.push(&**low);
            out.push(&**high);
            assert(borrowed_model(out@) =~= parts(e@));
        },
        LogicalExpr::InList { expr, list, negated } => {
            assert(decreases_to!(*e => *list));
            out.push(&**expr);
            push_all(&mut out, list);
            assert(borrowed_model(out@) =~= parts(e@));
        },
        LogicalExpr::Case { expr, when_then, else_result } => {
            assert(decreases_to!(*e => *when_then));
            match expr {
                Some(x) => {
                    assert(decreases_to!(*e => *expr));
                    out.push(&**x);
                },
                None => {},
            }
            let ghost first = match e@ {
                ExprModel::Case { expr, when_then, else_result } => optional_part(expr),
                _ => arbitrary(),
            };
            assert(borrowed_model(out@) =~= first);
            push_branches(&mut out, when_then);
            let ghost middle = borrowed_model(out@);
            let ghost last = match e@ {
                ExprModel::Case { expr, when_then, else_result } => optional_part(else_result),
                _ => arbitrary(),
            };
            match else_result {
                Some(x) => {
                    assert(decreases_to!(*e => *else_result));
                    out.push(&**x);
                    assert(borrowed_model(out@) =~= middle.push(x@));
                },
                None => {},
            }
            assert(borrowed_model(out@) =~= middle + last);
            assert(borrowed_model(out@) =~= parts(e@));
        },
        LogicalExpr::ScalarFunction { fun, args } => {
            assert(decreases_to!(*e => *args));
            push_all(&mut out, args);
            assert(borrowed_model(out@) =~= parts(e@));
        },
        LogicalExpr::AggregateFunction { fun, args, distinct } => {
            assert(decreases_to!(*e => *args));
            push_all(&mut out, args);
            assert(borrowed_model(out@) =~= parts(e@));
        },
        LogicalExpr::WindowFunction { fun, args, partition_by, order_by } => {
            assert(decreases_to!(*e => *args));
            assert(decreases_to!(*e => *partition_by));
            assert(decreases_to!(*e => *order_by));
            push_all(&mut out, args);
            push_all(&mut out, partition_by);
            push_keys(&mut out, order_by);
            assert(borrowed_model(out@) =~= parts(e@));
        },
        LogicalExpr::Tuple { items } => {
            assert(decreases_to!(*e => *items));
            push_all(&mut out, items);
            assert(borrowed_model(out@) =~= parts(e@));
        },
        LogicalExpr::ArraySubscript { array, index } => {
            out.push(&**array);
            out.push(&**index);
            assert(borrowed_model(out@) =~= parts(e@));
        },
        _ => {
            assert(borrowed_model(out@) =~= parts(e@));
        },
    }
    out
}

/// The column names that an expression spells out, in order, with their
/// qualifiers. A subquery's columns are its own.
pub open spec fn column_refs(e: ExprModel) -> Seq<(Option<Seq<char>>, Seq<char>)>
    decreases e, 1int, 0nat,
{
    match e {
        ExprModel::Column { table, name } => seq![(table, name)],
        _ => refs_of_parts(e, parts(e).len()),
    }
}

/// The column names in the first `n` parts of an expression.
pub open spec fn refs_of_parts(e: ExprModel, n: nat) -> Seq<(Option<Seq<char>>, Seq<char>)>
    decreases e, 0int, n,
{
    if n == 0 || n > parts(e).len() {
        Seq::empty()
    } else {
        proof {
            lemma_parts_are_smaller(e);
        }
        refs_of_parts(e, (n - 1) as nat) + column_refs(parts(e)[n - 1])
    }
}

/// A column name with its qualifier.
pub struct ColumnRef {
    pub table: Option<String>,
    pub name: String,
}

/// What spelled columns stand for.
pub open spec fn refs_model(s: Seq<ColumnRef>) -> Seq<(Option<Seq<char>>, Seq<char>)> {
    Seq::new(s.len(), |i: int| (schema::opt_text(s[i].table), s[i].name@))
}

fn collect_refs(e: &LogicalExpr, out: &mut Vec<ColumnRef>)
    ensures
        refs_model(final(out)@) == refs_model(old(out)@) + column_refs(e@),
    decreases e,
{
    let ghost before = refs_model(out@);
    match e {
        LogicalExpr::Column { table, name } => {
            out.push(ColumnRef { table: table.clone(), name: name.clone() });
            assert(refs_model(out@) =~= before + column_refs(e@));
        },
        _ => {
            let v: Vec<&LogicalExpr> = expr_parts(e);
            assert(before + refs_of_parts(e@, 0) =~= before);
            for i in 0..v.len()
                invariant
                    borrowed_model(v@) == parts(e@),
                    forall|j: int| 0 <= j < v.len() ==> decreases_to!(*e => *#[trigger] v@[j]),
                    refs_model(out@) == before + refs_of_parts(e@, i as nat),
            {
                assert(decreases_to!(*e => *v@[i as int]));
                assert(parts(e@)[i as int] == v@[i as int]@);
                collect_refs(v[i], out);
                assert(refs_model(out@) =~= before + refs_of_parts(e@, (i + 1) as nat));
            }
            assert(borrowed_model(v@).len() == parts(e@).len());
        },
    }
}

/// The column names that an expression spells out, in order.
pub fn spelled_columns(e: &LogicalExpr) -> (r: Vec<ColumnRef>)
    ensures
        refs_model(r@) == column_refs(e@),
{
    let mut out: Vec<ColumnRef> = Vec::new();
    collect_refs(e, &mut out);
    assert(refs_model(out@) =~= column_refs(e@));
    out
}

} // verus!
