//! What filling an outer row into a subquery means: the expressions of the subquery read
//! their outer columns from that row.

use crate::evaluator;
use crate::executor::subquery;
use crate::executor::subquery::OuterRow;
use crate::logical_plan::ExprModel;
use crate::schema;
use crate::schema::ColumnModel;
use crate::value::ValueModel;
use vstd::prelude::*;

verus! {

/// Whether each column that an expression names is found among the inner columns or else
/// among the outer ones, and is the same among all of them, inner before outer.
pub open spec fn names_through(e: ExprModel, inner: Seq<ColumnModel>, outer: Seq<ColumnModel>) -> bool
    decreases e,
{
    match e {
        ExprModel::Column { table, name } => {
            let all = schema::qualified_index(inner + outer, table, name);
            if subquery::is_inner(table, name, Some(inner)) {
                &&& schema::qualified_index(inner, table, name) is Some
                &&& all == schema::qualified_index(inner, table, name)
            } else {
                &&& schema::qualified_index(outer, table, name) is Some
                &&& all == Some(
                    (inner.len() + schema::qualified_index(outer, table, name)->Some_0) as usize,
                )
            }
        },
        ExprModel::BoundColumn { index, .. } => index < inner.len(),
        ExprModel::BinaryExpr { left, op, right } => names_through(*left, inner, outer)
            && names_through(*right, inner, outer),
        ExprModel::UnaryExpr { op, expr } => names_through(*expr, inner, outer),
        ExprModel::IsNull { expr, is_null } => names_through(*expr, inner, outer),
        ExprModel::Between { expr, low, high, negated } => names_through(*expr, inner, outer)
            && names_through(*low, inner, outer) && names_through(*high, inner, outer),
        ExprModel::InList { expr, list, negated } => names_through(*expr, inner, outer) && (
        forall|i: int| 0 <= i < list.len() ==> names_through(#[trigger] list[i], inner, outer)),
        ExprModel::Case { expr, when_then, else_result } => {
            &&& expr matches Some(b) ==> names_through(*b, inner, outer)
            &&& forall|i: int|
                0 <= i < when_then.len() ==> names_through(
                    (#[trigger] when_then[i]).0,
                    inner,
                    outer,
                ) && names_through(when_then[i].1, inner, outer)
            &&& else_result matches Some(b) ==> names_through(*b, inner, outer)
        },
        ExprModel::InSet { .. } => false,
        ExprModel::ArraySubscript { .. } => false,
        _ => true,
    }
}

/// Whether an inner and an outer row have a value for each of their columns.
pub open spec fn rows_have_values(inner: Seq<ColumnModel>, row: Seq<ValueModel>, o: OuterRow) -> bool {
    &&& row.len() == inner.len()
    &&& o.row.len() == o.cols.len()
    &&& inner.len() + o.cols.len() <= usize::MAX
}

proof fn lemma_filled_column(
    table: Option<Seq<char>>,
    name: Seq<char>,
    inner: Seq<ColumnModel>,
    params: Seq<ValueModel>,
    row: Seq<ValueModel>,
    o: OuterRow,
)
    requires
        names_through((ExprModel::Column { table, name }), inner, o.cols),
        rows_have_values(inner, row, o),
    ensures
        ({
            let e = ExprModel::Column { table, name };
            evaluator::eval(subquery::filled(e, Some(inner), o), inner, params, row)
                == evaluator::eval(e, inner + o.cols, params, row + o.row)
        }),
{
    schema::lemma_qualified_index_in_range(inner, table, name);
    schema::lemma_qualified_index_in_range(o.cols, table, name);
    let all = row + o.row;
    if subquery::is_inner(table, name, Some(inner)) {
        let i = schema::qualified_index(inner, table, name)->Some_0;
        assert(all[i as int] == row[i as int]);
    } else {
        let i = schema::qualified_index(o.cols, table, name)->Some_0;
        assert(all[inner.len() + i] == o.row[i as int]);
    }
}

/// An expression of a subquery with an outer row filled in gives, on an inner row, what the
/// expression itself gives on the inner and the outer row together: each outer column has
/// its value of the outer row, and each inner column its value of the inner row.
pub proof fn law_filling_reads_the_outer_row(
    e: ExprModel,
    inner: Seq<ColumnModel>,
    params: Seq<ValueModel>,
    row: Seq<ValueModel>,
    o: OuterRow,
)
    requires
        names_through(e, inner, o.cols),
        rows_have_values(inner, row, o),
    ensures
        evaluator::eval(subquery::filled(e, Some(inner), o), inner, params, row)
            == evaluator::eval(e, inner + o.cols, params, row + o.row),
    decreases e, 1int,
{
    match e {
        ExprModel::Column { table, name } => {
            lemma_filled_column(table, name, inner, params, row, o);
        },
        ExprModel::BoundColumn { index, table, name } => {
            assert((row + o.row)[index as int] == row[index as int]);
        },
        ExprModel::BinaryExpr { left, op, right } => {
            law_filling_reads_the_outer_row(*left, inner, params, row, o);
            law_filling_reads_the_outer_row(*right, inner, params, row, o);
        },
        ExprModel::UnaryExpr { op, expr } => {
            law_filling_reads_the_outer_row(*expr, inner, params, row, o);
        },
        ExprModel::IsNull { expr, is_null } => {
            law_filling_reads_the_outer_row(*expr, inner, params, row, o);
        },
        ExprModel::Between { expr, low, high, negated } => {
            law_filling_reads_the_outer_row(*expr, inner, params, row, o);
            law_filling_reads_the_outer_row(*low, inner, params, row, o);
            law_filling_reads_the_outer_row(*high, inner, params, row, o);
        },
        ExprModel::InList { expr, list, negated } => {
            law_filling_reads_the_outer_row(*expr, inner, params, row, o);
            lemma_filled_list(list, inner, params, row, o);
        },
        ExprModel::Case { expr, when_then, else_result } => {
            lemma_filled_case(e, inner, params, row, o);
        },
        _ => {},
    }
}

proof fn lemma_filled_case(
    e: ExprModel,
    inner: Seq<ColumnModel>,
    params: Seq<ValueModel>,
    row: Seq<ValueModel>,
    o: OuterRow,
)
    requires
        e is Case,
        names_through(e, inner, o.cols),
        rows_have_values(inner, row, o),
    ensures
        evaluator::eval(subquery::filled(e, Some(inner), o), inner, params, row)
            == evaluator::eval(e, inner + o.cols, params, row + o.row),
    decreases e, 0int,
{
    let cols = inner + o.cols;
    let both = row + o.row;
    let bound = subquery::filled(e, Some(inner), o);
    let branches = e->Case_when_then;
    assert(bound is Case);
    assert(bound->Case_when_then == subquery::filled_pairs(branches, Some(inner), o));
    if let Some(b) = e->Case_else_result {
        law_filling_reads_the_outer_row(*b, inner, params, row, o);
    }
    if let Some(b) = e->Case_expr {
        law_filling_reads_the_outer_row(*b, inner, params, row, o);
        if let Ok(v) = evaluator::eval(*b, cols, params, both) {
            lemma_filled_branches(Some(v), branches, inner, params, row, o);
        }
    } else {
        lemma_filled_branches(None, branches, inner, params, row, o);
    }
    evaluator::lemma_case_steps(bound, inner, params, row);
    evaluator::lemma_case_steps(e, cols, params, both);
}

proof fn lemma_filled_list(
    list: Seq<ExprModel>,
    inner: Seq<ColumnModel>,
    params: Seq<ValueModel>,
    row: Seq<ValueModel>,
    o: OuterRow,
)
    requires
        forall|i: int| 0 <= i < list.len() ==> names_through(#[trigger] list[i], inner, o.cols),
        rows_have_values(inner, row, o),
    ensures
        evaluator::eval_all(subquery::filled_list(list, Some(inner), o), inner, params, row)
            == evaluator::eval_all(list, inner + o.cols, params, row + o.row),
    decreases list,
{
    if list.len() > 0 {
        let rest = list.drop_last();
        let bound = subquery::filled_list(list, Some(inner), o);
        assert(bound.drop_last() =~= subquery::filled_list(rest, Some(inner), o));
        assert(bound.last() == subquery::filled(list.last(), Some(inner), o));
        assert forall|i: int| 0 <= i < rest.len() implies names_through(
            #[trigger] rest[i],
            inner,
            o.cols,
        ) by {
            assert(rest[i] == list[i]);
        }
        lemma_filled_list(rest, inner, params, row, o);
        law_filling_reads_the_outer_row(list[list.len() - 1], inner, params, row, o);
    }
}

proof fn lemma_filled_branches(
    subject: Option<ValueModel>,
    branches: Seq<(ExprModel, ExprModel)>,
    inner: Seq<ColumnModel>,
    params: Seq<ValueModel>,
    row: Seq<ValueModel>,
    o: OuterRow,
)
    requires
        forall|i: int|
            0 <= i < branches.len() ==> names_through(
                (#[trigger] branches[i]).0,
                inner,
                o.cols,
            ) && names_through(branches[i].1, inner, o.cols),
        rows_have_values(inner, row, o),
    ensures
        evaluator::first_branch(
            subject,
            subquery::filled_pairs(branches, Some(inner), o),
            inner,
            params,
            row,
        ) == evaluator::first_branch(subject, branches, inner + o.cols, params, row + o.row),
    decreases branches,
{
    if branches.len() > 0 {
        let rest = branches.drop_first();
        let bound = subquery::filled_pairs(branches, Some(inner), o);
        assert(bound.drop_first() =~= subquery::filled_pairs(rest, Some(inner), o));
        assert(bound[0] == (
            subquery::filled(branches[0].0, Some(inner), o),
            subquery::filled(branches[0].1, Some(inner), o),
        ));
        assert forall|i: int| 0 <= i < rest.len() implies names_through(
            (#[trigger] rest[i]).0,
            inner,
            o.cols,
        ) && names_through(rest[i].1, inner, o.cols) by {
            assert(rest[i] == branches[i + 1]);
        }
        assert(names_through(branches[0].0, inner, o.cols));
        law_filling_reads_the_outer_row(branches[0].0, inner, params, row, o);
        law_filling_reads_the_outer_row(branches[0].1, inner, params, row, o);
        lemma_filled_branches(subject, rest, inner, params, row, o);
    }
}

} // verus!
