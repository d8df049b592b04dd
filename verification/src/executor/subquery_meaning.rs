//! What the subqueries of an expression stand for: `EXISTS` asks whether a row is
//! found, `IN` whether one of the rows begins with an equal value, and a scalar
//! subquery is the first value of the first row.

use crate::evaluator;
use crate::executor::filter;
use crate::executor::operator;
use crate::executor::semantics;
use crate::executor::semantics::{Built, Ctes};
use crate::executor::sources::Env;
use crate::executor::subquery;
use crate::executor::subquery::OuterRow;
use crate::expression_meaning;
use crate::logical_plan::{BinaryOperator, ExprModel, PlanModel};
use crate::schema::{ColumnModel, ErrorModel, TupleModel};
use crate::value::ValueModel;
use vstd::prelude::*;

verus! {

/// What running a subquery gives for one outer row.
pub open spec fn given_for(p: PlanModel, o: OuterRow, env: Env, ctes: Ctes) -> Result<
    Seq<TupleModel>,
    ErrorModel,
> {
    semantics::rows_given(
        semantics::run(subquery::filled_plan(p, o), semantics::inner_env(env), ctes),
    )
}

/// What running a subquery gives that reads no outer row.
pub open spec fn given_once(p: PlanModel, env: Env) -> Result<Seq<TupleModel>, ErrorModel> {
    semantics::rows_given(semantics::run(p, semantics::inner_env(env), semantics::no_ctes()))
}

/// Whether a row was found; a subquery that fails finds none.
pub open spec fn found_a_row(given: Result<Seq<TupleModel>, ErrorModel>) -> bool {
    exists|row: TupleModel| given is Ok && #[trigger] given->Ok_0.contains(row)
}

/// Whether a subquery is left to the database, and so not answered.
pub open spec fn is_left(given: Result<Seq<TupleModel>, ErrorModel>) -> bool {
    given is Err && given->Err_0 is Unsupported
}

pub open spec fn exists_in(p: PlanModel) -> ExprModel {
    ExprModel::Exists { subquery: Box::new(p), negated: false }
}

pub open spec fn not_exists_in(p: PlanModel) -> ExprModel {
    ExprModel::Exists { subquery: Box::new(p), negated: true }
}

pub open spec fn truth(b: bool) -> Result<ExprModel, ErrorModel> {
    Ok(ExprModel::Literal(ValueModel::Boolean(b)))
}

proof fn lemma_found_a_row(given: Result<Seq<TupleModel>, ErrorModel>)
    ensures
        found_a_row(given) == (given is Ok && given->Ok_0.len() > 0),
{
    if given is Ok && given->Ok_0.len() > 0 {
        assert(given->Ok_0.contains(given->Ok_0[0]));
    }
}

proof fn lemma_answered_rows(p: PlanModel, o: OuterRow, env: Env, ctes: Ctes)
    ensures
        semantics::rows_for(p, o, env, ctes) == semantics::answered_rows(
            given_for(p, o, env, ctes),
        ),
{
}

/// For one outer row, `EXISTS` is true exactly when the subquery filled from that row
/// gives a row, and `NOT EXISTS` is true exactly when it gives none. A subquery that is
/// left to the database answers neither.
pub proof fn law_exists_asks_for_a_row(p: PlanModel, o: OuterRow, env: Env, ctes: Ctes)
    ensures
        ({
            let given = given_for(p, o, env, ctes);
            let asked = semantics::materialized_for(exists_in(p), o, env, ctes);
            let denied = semantics::materialized_for(not_exists_in(p), o, env, ctes);
            if is_left(given) {
                asked is Err && denied is Err
            } else {
                asked == truth(found_a_row(given)) && denied == truth(!found_a_row(given))
            }
        }),
{
    lemma_found_a_row(given_for(p, o, env, ctes));
    lemma_answered_rows(p, o, env, ctes);
}

/// `EXISTS` over a subquery that reads no outer row is true exactly when it gives a row,
/// and `NOT EXISTS` exactly when it gives none.
pub proof fn law_exists_asks_for_a_row_once(p: PlanModel, env: Env)
    ensures
        ({
            let given = given_once(p, env);
            let asked = semantics::materialized(exists_in(p), env);
            let denied = semantics::materialized(not_exists_in(p), env);
            if is_left(given) {
                asked is Err && denied is Err
            } else {
                asked == truth(found_a_row(given)) && denied == truth(!found_a_row(given))
            }
        }),
{
    lemma_found_a_row(given_once(p, env));
}

/// The rows for which a subquery finds a row.
pub open spec fn finding(p: PlanModel, cols: Seq<ColumnModel>, env: Env, ctes: Ctes) -> spec_fn(
    TupleModel,
) -> bool {
    |row: TupleModel| found_a_row(given_for(p, (OuterRow { cols, row: row.values }), env, ctes))
}

/// The rows for which a subquery finds none.
pub open spec fn missing(p: PlanModel, cols: Seq<ColumnModel>, env: Env, ctes: Ctes) -> spec_fn(
    TupleModel,
) -> bool {
    |row: TupleModel| !found_a_row(given_for(p, (OuterRow { cols, row: row.values }), env, ctes))
}

/// Whether a subquery is answered here for each of some rows.
pub open spec fn answered_for_all(
    p: PlanModel,
    cols: Seq<ColumnModel>,
    rows: Seq<TupleModel>,
    env: Env,
    ctes: Ctes,
) -> bool {
    forall|i: int|
        0 <= i < rows.len() ==> !is_left(
            given_for(p, (OuterRow { cols, row: (#[trigger] rows[i]).values }), env, ctes),
        )
}

proof fn lemma_kept_by_existence(
    p: PlanModel,
    cols: Seq<ColumnModel>,
    rows: Seq<TupleModel>,
    n: nat,
    env: Env,
    ctes: Ctes,
)
    requires
        n <= rows.len(),
        answered_for_all(p, cols, rows, env, ctes),
    ensures
        semantics::correlated_rows(exists_in(p), cols, rows, n, env, ctes) == Ok::<
            Seq<TupleModel>,
            ErrorModel,
        >(rows.take(n as int).filter(finding(p, cols, env, ctes))),
        semantics::correlated_rows(not_exists_in(p), cols, rows, n, env, ctes) == Ok::<
            Seq<TupleModel>,
            ErrorModel,
        >(rows.take(n as int).filter(missing(p, cols, env, ctes))),
    decreases n,
{
    reveal(Seq::filter);
    if n > 0 {
        let m = (n - 1) as nat;
        lemma_kept_by_existence(p, cols, rows, m, env, ctes);
        let row = rows[n - 1];
        law_exists_asks_for_a_row(p, (OuterRow { cols, row: row.values }), env, ctes);
        assert(rows.take(n as int).drop_last() =~= rows.take(m as int));
        assert(rows.take(n as int).last() == row);
        assert(!is_left(given_for(p, (OuterRow { cols, row: row.values }), env, ctes)));
    } else {
        assert(rows.take(0) =~= Seq::<TupleModel>::empty());
    }
}

/// A filter by `EXISTS` keeps exactly the rows for which the subquery filled from the
/// row gives a row, in order; the same filter by `NOT EXISTS` keeps exactly the others.
pub proof fn law_exists_and_not_exists_split_the_rows(b: Built, p: PlanModel, env: Env)
    requires
        subquery::correlated(exists_in(p), b.rel.columns),
        b.rel.rows.end is None,
        answered_for_all(p, b.rel.columns, b.rel.rows.rows, env, b.ctes),
    ensures
        ({
            let kept = semantics::filter_above(b, exists_in(p), env);
            let dropped = semantics::filter_above(b, not_exists_in(p), env);
            &&& kept is Ok
            &&& kept->Ok_0.columns == b.rel.columns
            &&& kept->Ok_0.rows.end is None
            &&& kept->Ok_0.rows.rows == b.rel.rows.rows.filter(
                finding(p, b.rel.columns, env, b.ctes),
            )
            &&& dropped is Ok
            &&& dropped->Ok_0.columns == b.rel.columns
            &&& dropped->Ok_0.rows.end is None
            &&& dropped->Ok_0.rows.rows == b.rel.rows.rows.filter(
                missing(p, b.rel.columns, env, b.ctes),
            )
        }),
{
    let rows = b.rel.rows.rows;
    lemma_kept_by_existence(p, b.rel.columns, rows, rows.len(), env, b.ctes);
    assert(rows.take(rows.len() as int) =~= rows);
    assert(subquery::correlated(not_exists_in(p), b.rel.columns));
}

/// A filter by `EXISTS` over a subquery that reads no outer row keeps every row or none,
/// and `NOT EXISTS` keeps none or every row.
pub proof fn law_existence_once_keeps_all_or_none(b: Built, p: PlanModel, env: Env)
    requires
        !subquery::correlated(exists_in(p), b.rel.columns),
        !is_left(given_once(p, env)),
    ensures
        ({
            let kept = semantics::filter_above(b, exists_in(p), env);
            let dropped = semantics::filter_above(b, not_exists_in(p), env);
            let none = operator::RowStream { rows: Seq::empty(), end: b.rel.rows.end };
            &&& kept is Ok
            &&& kept->Ok_0.rows == if found_a_row(given_once(p, env)) {
                b.rel.rows
            } else {
                none
            }
            &&& dropped is Ok
            &&& dropped->Ok_0.rows == if found_a_row(given_once(p, env)) {
                none
            } else {
                b.rel.rows
            }
        }),
{
    law_exists_asks_for_a_row_once(p, env);
    assert(!subquery::correlated(not_exists_in(p), b.rel.columns));
    lemma_constant_filter(b.rel.rows, true, b.rel.columns, env.params);
    lemma_constant_filter(b.rel.rows, false, b.rel.columns, env.params);
}

proof fn lemma_constant_filter(
    s: operator::RowStream,
    keep: bool,
    cols: Seq<ColumnModel>,
    params: Seq<ValueModel>,
)
    ensures
        filter::filtered(s, ExprModel::Literal(ValueModel::Boolean(keep)), cols, params) == (
        if keep {
            s
        } else {
            operator::RowStream { rows: Seq::empty(), end: s.end }
        }),
    decreases s.rows.len(),
{
    if s.rows.len() > 0 {
        lemma_constant_filter(s.rest(), keep, cols, params);
        if keep {
            assert(s.rest().after(s.rows[0]).rows =~= s.rows);
        }
    } else {
        assert(s.rows =~= Seq::<TupleModel>::empty());
    }
}

/// A scalar subquery is the first value of its first row, and NULL where it gives no row
/// or fails.
pub proof fn law_a_scalar_subquery_is_its_first_value(
    p: PlanModel,
    o: OuterRow,
    env: Env,
    ctes: Ctes,
)
    ensures
        ({
            let e = ExprModel::ScalarSubquery { subquery: Box::new(p) };
            let given = given_for(p, o, env, ctes);
            let once = given_once(p, env);
            &&& !found_a_row(given) && !is_left(given) ==> semantics::materialized_for(
                e,
                o,
                env,
                ctes,
            ) == Ok::<ExprModel, ErrorModel>(ExprModel::Literal(ValueModel::Null))
            &&& found_a_row(given) && given->Ok_0[0].values.len() > 0
                ==> semantics::materialized_for(e, o, env, ctes) == Ok::<ExprModel, ErrorModel>(
                ExprModel::Literal(given->Ok_0[0].values[0]),
            )
            &&& !found_a_row(once) && !is_left(once) ==> semantics::materialized(e, env) == Ok::<
                ExprModel,
                ErrorModel,
            >(ExprModel::Literal(ValueModel::Null))
            &&& found_a_row(once) && once->Ok_0[0].values.len() > 0 ==> semantics::materialized(
                e,
                env,
            ) == Ok::<ExprModel, ErrorModel>(ExprModel::Literal(once->Ok_0[0].values[0]))
        }),
{
    lemma_found_a_row(given_for(p, o, env, ctes));
    lemma_answered_rows(p, o, env, ctes);
    lemma_found_a_row(given_once(p, env));
}

/// Whether a value equals another one, as `=` says it.
pub open spec fn equals(x: ValueModel, y: ValueModel) -> bool {
    evaluator::binary_value(x, BinaryOperator::Eq, y) == Ok::<ValueModel, ErrorModel>(
        ValueModel::Boolean(true),
    )
}

/// Whether a value can be compared with the first value of each of some rows.
pub open spec fn comparable_with(x: ValueModel, rows: Seq<TupleModel>) -> bool {
    forall|i: int|
        0 <= i < rows.len() && (#[trigger] rows[i]).values.len() > 0 ==> evaluator::binary_value(
            x,
            BinaryOperator::Eq,
            rows[i].values[0],
        ) is Ok
}

/// Whether comparing a value with the first value of some row leaves it open whether they
/// are equal: one of them is NULL.
pub open spec fn is_left_open(x: ValueModel, rows: Seq<TupleModel>) -> bool {
    exists|i: int|
        0 <= i < rows.len() && (#[trigger] rows[i]).values.len() > 0 && (x is Null
            || rows[i].values[0] is Null)
}

/// What `IN` gives of a value and some rows: true where one of them begins with an equal
/// value, else NULL where a comparison is left open, else false; `NOT IN` the opposite, and
/// NULL where `IN` is NULL.
pub open spec fn is_in_rows(x: ValueModel, rows: Seq<TupleModel>, negated: bool) -> ValueModel {
    if begins_a_row(x, rows) {
        ValueModel::Boolean(!negated)
    } else if is_left_open(x, rows) {
        ValueModel::Null
    } else {
        ValueModel::Boolean(negated)
    }
}

/// Whether some row begins with a value that equals the given one.
pub open spec fn begins_a_row(x: ValueModel, rows: Seq<TupleModel>) -> bool {
    exists|i: int|
        0 <= i < rows.len() && (#[trigger] rows[i]).values.len() > 0 && equals(
            x,
            rows[i].values[0],
        )
}

proof fn lemma_first_values_cover(rows: Seq<TupleModel>, n: nat)
    requires
        n <= rows.len(),
    ensures
        forall|i: int|
            0 <= i < n && (#[trigger] rows[i]).values.len() > 0 ==> semantics::first_values(
                rows,
                n,
            ).contains(rows[i].values[0]),
        forall|k: int|
            0 <= k < semantics::first_values(rows, n).len() ==> exists|i: int|
                0 <= i < n && (#[trigger] rows[i]).values.len() > 0 && rows[i].values[0]
                    == #[trigger] semantics::first_values(rows, n)[k],
    decreases n,
{
    let all = semantics::first_values(rows, n);
    if n > 0 {
        let m = (n - 1) as nat;
        let before = semantics::first_values(rows, m);
        lemma_first_values_cover(rows, m);
        assert forall|i: int| 0 <= i < n && (#[trigger] rows[i]).values.len() > 0 implies
            all.contains(rows[i].values[0]) by {
            if i < m {
                let k = choose|k: int| 0 <= k < before.len() && before[k] == rows[i].values[0];
                assert(all[k] == before[k]);
            } else {
                assert(all[all.len() - 1] == rows[i].values[0]);
            }
        }
        assert forall|k: int| 0 <= k < all.len() implies exists|i: int|
            0 <= i < n && (#[trigger] rows[i]).values.len() > 0 && rows[i].values[0]
                == #[trigger] all[k] by {
            if k < before.len() {
                assert(all[k] == before[k]);
                let i = choose|i: int|
                    0 <= i < m && (#[trigger] rows[i]).values.len() > 0 && rows[i].values[0]
                        == before[k];
                assert(rows[i].values[0] == all[k]);
            } else {
                assert(rows[m as int].values[0] == all[k]);
            }
        }
    }
}

proof fn lemma_in_rows(
    expr: ExprModel,
    rows: Seq<TupleModel>,
    negated: bool,
    as_set: bool,
    cols: Seq<ColumnModel>,
    params: Seq<ValueModel>,
    row: Seq<ValueModel>,
)
    requires
        evaluator::eval(expr, cols, params, row) is Ok,
        comparable_with(evaluator::eval(expr, cols, params, row)->Ok_0, rows),
    ensures
        evaluator::eval(semantics::membership(expr, rows, negated, as_set), cols, params, row)
            == Ok::<ValueModel, ErrorModel>(
            is_in_rows(evaluator::eval(expr, cols, params, row)->Ok_0, rows, negated),
        ),
{
    let x = evaluator::eval(expr, cols, params, row)->Ok_0;
    let values = semantics::first_values(rows, rows.len());
    semantics::law_a_set_means_its_list(expr, values, negated, cols, params, row);
    lemma_first_values_cover(rows, rows.len());
    assert forall|k: int| 0 <= k < values.len() implies expression_meaning::compared(
        x,
        BinaryOperator::Eq,
        #[trigger] values[k],
    ) is Ok by {
        let i = choose|i: int|
            0 <= i < rows.len() && (#[trigger] rows[i]).values.len() > 0 && rows[i].values[0]
                == values[k];
        assert(rows[i].values[0] == values[k]);
    }
    expression_meaning::lemma_membership_answers(x, values, 0, false);
    lemma_open_rows(x, rows, values);
    let set = ExprModel::InSet { expr: Box::new(expr), values, negated };
    assert(evaluator::eval(set, cols, params, row) == Ok::<ValueModel, ErrorModel>(
        is_in_rows(x, rows, negated),
    ));
}

/// Asking the first values of rows is asking the rows.
proof fn lemma_open_rows(x: ValueModel, rows: Seq<TupleModel>, values: Seq<ValueModel>)
    requires
        values == semantics::first_values(rows, rows.len()),
        comparable_with(x, rows),
    ensures
        begins_a_row(x, rows) == exists|k: int|
            0 <= k < values.len() && expression_meaning::compared(
                x,
                BinaryOperator::Eq,
                #[trigger] values[k],
            ) == expression_meaning::yes(true),
        is_left_open(x, rows) == exists|k: int|
            0 <= k < values.len() && expression_meaning::compared(
                x,
                BinaryOperator::Eq,
                #[trigger] values[k],
            ) == Ok::<ValueModel, ErrorModel>(ValueModel::Null),
{
    lemma_first_values_cover(rows, rows.len());
    let yes = expression_meaning::yes(true);
    let null = Ok::<ValueModel, ErrorModel>(ValueModel::Null);
    if begins_a_row(x, rows) {
        let i = choose|i: int|
            0 <= i < rows.len() && (#[trigger] rows[i]).values.len() > 0 && equals(
                x,
                rows[i].values[0],
            );
        assert(values.contains(rows[i].values[0]));
        let k = choose|k: int| 0 <= k < values.len() && values[k] == rows[i].values[0];
        assert(expression_meaning::compared(x, BinaryOperator::Eq, values[k]) == yes);
    }
    if is_left_open(x, rows) {
        let i = choose|i: int|
            0 <= i < rows.len() && (#[trigger] rows[i]).values.len() > 0 && (x is Null
                || rows[i].values[0] is Null);
        assert(values.contains(rows[i].values[0]));
        let k = choose|k: int| 0 <= k < values.len() && values[k] == rows[i].values[0];
        assert(expression_meaning::compared(x, BinaryOperator::Eq, values[k]) == null);
    }
    if exists|k: int|
        0 <= k < values.len() && expression_meaning::compared(
            x,
            BinaryOperator::Eq,
            #[trigger] values[k],
        ) == yes {
        let k = choose|k: int|
            0 <= k < values.len() && expression_meaning::compared(
                x,
                BinaryOperator::Eq,
                #[trigger] values[k],
            ) == yes;
        let i = choose|i: int|
            0 <= i < rows.len() && (#[trigger] rows[i]).values.len() > 0 && rows[i].values[0]
                == values[k];
        assert(equals(x, rows[i].values[0]));
    }
    if exists|k: int|
        0 <= k < values.len() && expression_meaning::compared(
            x,
            BinaryOperator::Eq,
            #[trigger] values[k],
        ) == null {
        let k = choose|k: int|
            0 <= k < values.len() && expression_meaning::compared(
                x,
                BinaryOperator::Eq,
                #[trigger] values[k],
            ) == null;
        let i = choose|i: int|
            0 <= i < rows.len() && (#[trigger] rows[i]).values.len() > 0 && rows[i].values[0]
                == values[k];
        assert(x is Null || rows[i].values[0] is Null);
    }
}

/// `IN` over a subquery, for one outer row, is true exactly when one of the rows that the
/// subquery filled from that row gives begins with a value equal to the one asked for,
/// however many rows there are; where none does, NULL among them leaves the answer open.
/// `NOT IN` is its negation.
pub proof fn law_in_asks_for_an_equal_value(
    expr: ExprModel,
    p: PlanModel,
    negated: bool,
    o: OuterRow,
    env: Env,
    ctes: Ctes,
)
    requires
        ({
            let m = semantics::materialized_for(expr, o, env, ctes);
            let given = given_for(p, o, env, ctes);
            &&& given is Ok
            &&& m is Ok
            &&& evaluator::eval(m->Ok_0, o.cols, env.params, o.row) matches Ok(x)
                && comparable_with(x, given->Ok_0)
        }),
    ensures
        ({
            let e = ExprModel::InSubquery {
                expr: Box::new(expr),
                subquery: Box::new(p),
                negated,
            };
            let m = semantics::materialized_for(expr, o, env, ctes)->Ok_0;
            let x = evaluator::eval(m, o.cols, env.params, o.row)->Ok_0;
            let asked = semantics::materialized_for(e, o, env, ctes);
            &&& asked is Ok
            &&& evaluator::eval(asked->Ok_0, o.cols, env.params, o.row) == Ok::<
                ValueModel,
                ErrorModel,
            >(is_in_rows(x, given_for(p, o, env, ctes)->Ok_0, negated))
        }),
{
    let m = semantics::materialized_for(expr, o, env, ctes)->Ok_0;
    let rows = given_for(p, o, env, ctes)->Ok_0;
    lemma_answered_rows(p, o, env, ctes);
    let e = ExprModel::InSubquery { expr: Box::new(expr), subquery: Box::new(p), negated };
    assert(semantics::materialized_for(e, o, env, ctes) == Ok::<ExprModel, ErrorModel>(
        semantics::membership(m, rows, negated, false),
    ));
    lemma_in_rows(m, rows, negated, false, o.cols, env.params, o.row);
}

/// `IN` over a subquery that reads no outer row is true on a row exactly when one of the
/// rows of the subquery begins with a value equal to the one asked for, however many rows
/// there are; where none does, NULL among them leaves the answer open. `NOT IN` is its
/// negation.
pub proof fn law_in_asks_for_an_equal_value_once(
    expr: ExprModel,
    p: PlanModel,
    negated: bool,
    env: Env,
    cols: Seq<ColumnModel>,
    row: Seq<ValueModel>,
)
    requires
        ({
            let m = semantics::materialized(expr, env);
            let given = given_once(p, env);
            &&& given is Ok
            &&& m is Ok
            &&& evaluator::eval(m->Ok_0, cols, env.params, row) matches Ok(x) && comparable_with(
                x,
                given->Ok_0,
            )
        }),
    ensures
        ({
            let e = ExprModel::InSubquery {
                expr: Box::new(expr),
                subquery: Box::new(p),
                negated,
            };
            let m = semantics::materialized(expr, env)->Ok_0;
            let x = evaluator::eval(m, cols, env.params, row)->Ok_0;
            let asked = semantics::materialized(e, env);
            &&& asked is Ok
            &&& evaluator::eval(asked->Ok_0, cols, env.params, row) == Ok::<ValueModel, ErrorModel>(
                is_in_rows(x, given_once(p, env)->Ok_0, negated),
            )
        }),
{
    let m = semantics::materialized(expr, env)->Ok_0;
    let rows = given_once(p, env)->Ok_0;
    lemma_in_rows(m, rows, negated, true, cols, env.params, row);
}

/// What an expression with correlated subqueries gives on one row: its subqueries are
/// answered for that row, and the rest is evaluated on it.
pub open spec fn value_for(
    e: ExprModel,
    cols: Seq<ColumnModel>,
    row: TupleModel,
    env: Env,
    ctes: Ctes,
) -> Result<ValueModel, ErrorModel> {
    match semantics::materialized_for(e, (OuterRow { cols, row: row.values }), env, ctes) {
        Err(x) => Err(x),
        Ok(m) => evaluator::eval(m, cols, env.params, row.values),
    }
}

/// The rows on which a predicate with correlated subqueries is true.
pub open spec fn true_for(
    predicate: ExprModel,
    cols: Seq<ColumnModel>,
    env: Env,
    ctes: Ctes,
) -> spec_fn(TupleModel) -> bool {
    |row: TupleModel|
        value_for(predicate, cols, row, env, ctes) == Ok::<ValueModel, ErrorModel>(
            ValueModel::Boolean(true),
        )
}

proof fn lemma_correlated_rows(
    predicate: ExprModel,
    cols: Seq<ColumnModel>,
    rows: Seq<TupleModel>,
    n: nat,
    env: Env,
    ctes: Ctes,
)
    requires
        n <= rows.len(),
        forall|i: int|
            0 <= i < rows.len() ==> value_for(predicate, cols, #[trigger] rows[i], env, ctes) is Ok,
    ensures
        semantics::correlated_rows(predicate, cols, rows, n, env, ctes) == Ok::<
            Seq<TupleModel>,
            ErrorModel,
        >(rows.take(n as int).filter(true_for(predicate, cols, env, ctes))),
    decreases n,
{
    let keep = true_for(predicate, cols, env, ctes);
    if n > 0 {
        let m = (n - 1) as nat;
        let row = rows[n - 1];
        lemma_correlated_rows(predicate, cols, rows, m, env, ctes);
        assert(value_for(predicate, cols, rows[n - 1], env, ctes) is Ok);
        assert(rows.take(n as int) =~= rows.take(m as int) + seq![row]);
        Seq::filter_distributes_over_add(rows.take(m as int), seq![row], keep);
        filter::lemma_filter_one(row, keep);
        let kept = rows.take(m as int).filter(keep);
        assert(kept + seq![row] =~= kept.push(row));
        assert(kept + Seq::<TupleModel>::empty() =~= kept);
    } else {
        assert(rows.take(0) =~= Seq::<TupleModel>::empty());
        filter::lemma_filter_none(keep);
    }
}

/// A filter with correlated subqueries keeps exactly the rows on which its predicate is
/// true when its subqueries are answered for that row, unchanged and in order.
pub proof fn law_a_correlated_filter_keeps_the_true_rows(b: Built, predicate: ExprModel, env: Env)
    requires
        subquery::correlated(predicate, b.rel.columns),
        b.rel.rows.end is None,
        forall|i: int|
            0 <= i < b.rel.rows.rows.len() ==> value_for(
                predicate,
                b.rel.columns,
                #[trigger] b.rel.rows.rows[i],
                env,
                b.ctes,
            ) is Ok,
    ensures
        ({
            let kept = semantics::filter_above(b, predicate, env);
            &&& kept is Ok
            &&& kept->Ok_0.columns == b.rel.columns
            &&& kept->Ok_0.rows == operator::just_rows(
                b.rel.rows.rows.filter(true_for(predicate, b.rel.columns, env, b.ctes)),
            )
        }),
{
    let rows = b.rel.rows.rows;
    lemma_correlated_rows(predicate, b.rel.columns, rows, rows.len(), env, b.ctes);
    assert(rows.take(rows.len() as int) =~= rows);
}

proof fn lemma_item_values(
    exprs: Seq<ExprModel>,
    n: nat,
    cols: Seq<ColumnModel>,
    row: TupleModel,
    env: Env,
    ctes: Ctes,
)
    requires
        n <= exprs.len(),
        semantics::item_values(exprs, n, cols, row, env, ctes) is Ok,
    ensures
        ({
            let vs = semantics::item_values(exprs, n, cols, row, env, ctes)->Ok_0;
            &&& vs.len() == n
            &&& forall|j: int|
                0 <= j < n ==> value_for(#[trigger] exprs[j], cols, row, env, ctes) == Ok::<
                    ValueModel,
                    ErrorModel,
                >(vs[j])
        }),
    decreases n,
{
    if n > 0 {
        lemma_item_values(exprs, (n - 1) as nat, cols, row, env, ctes);
    }
}

proof fn lemma_item_rows(
    exprs: Seq<ExprModel>,
    cols: Seq<ColumnModel>,
    rows: Seq<TupleModel>,
    n: nat,
    env: Env,
    ctes: Ctes,
    i: int,
)
    requires
        n <= rows.len(),
        0 <= i < n,
        semantics::item_rows(exprs, cols, rows, n, env, ctes) is Ok,
    ensures
        ({
            let out = semantics::item_rows(exprs, cols, rows, n, env, ctes)->Ok_0;
            &&& out.len() == n
            &&& out[i].row_id == rows[i].row_id
            &&& semantics::item_values(exprs, exprs.len(), cols, rows[i], env, ctes) == Ok::<
                Seq<ValueModel>,
                ErrorModel,
            >(out[i].values)
        }),
    decreases n,
{
    if n > 1 {
        if i < n - 1 {
            lemma_item_rows(exprs, cols, rows, (n - 1) as nat, env, ctes, i);
        } else {
            lemma_item_rows(exprs, cols, rows, (n - 1) as nat, env, ctes, 0);
        }
    } else {
        assert(semantics::item_rows(exprs, cols, rows, 0, env, ctes) == Ok::<
            Seq<TupleModel>,
            ErrorModel,
        >(Seq::empty()));
    }
}

/// A `SELECT` list with correlated subqueries gives one row for each row, in order, with
/// the value of each item when its subqueries are answered for that row; the stored place
/// of a row is kept.
pub proof fn law_a_correlated_list_gives_a_row_for_each_row(
    b: Built,
    exprs: Seq<ExprModel>,
    aliases: Seq<Seq<char>>,
    env: Env,
    i: int,
    j: int,
)
    requires
        subquery::any_correlated(exprs, exprs.len(), b.rel.columns),
        b.rel.rows.end is None,
        semantics::project_above(b, exprs, aliases, false, None, env) is Ok,
        0 <= i < b.rel.rows.rows.len(),
        0 <= j < exprs.len(),
    ensures
        ({
            let out = semantics::project_above(b, exprs, aliases, false, None, env)->Ok_0.rows;
            &&& out.end is None
            &&& out.rows.len() == b.rel.rows.rows.len()
            &&& out.rows[i].row_id == b.rel.rows.rows[i].row_id
            &&& out.rows[i].values.len() == exprs.len()
            &&& value_for(exprs[j], b.rel.columns, b.rel.rows.rows[i], env, b.ctes) == Ok::<
                ValueModel,
                ErrorModel,
            >(out.rows[i].values[j])
        }),
{
    let rows = b.rel.rows.rows;
    lemma_item_rows(exprs, b.rel.columns, rows, rows.len(), env, b.ctes, i);
    lemma_item_values(exprs, exprs.len(), b.rel.columns, rows[i], env, b.ctes);
    assert(value_for(exprs[j], b.rel.columns, rows[i], env, b.ctes) is Ok);
}

/// Whether an expression holds no subquery in a place where one is looked for.
pub open spec fn is_plain(e: ExprModel) -> bool
    decreases e,
{
    match e {
        ExprModel::InSubquery { .. } => false,
        ExprModel::ScalarSubquery { .. } => false,
        ExprModel::Exists { .. } => false,
        ExprModel::BinaryExpr { left, op, right } => is_plain(*left) && is_plain(*right),
        ExprModel::UnaryExpr { op, expr } => is_plain(*expr),
        ExprModel::IsNull { expr, is_null } => is_plain(*expr),
        ExprModel::Between { expr, low, high, negated } => is_plain(*expr) && is_plain(*low)
            && is_plain(*high),
        ExprModel::InList { expr, list, negated } => is_plain(*expr) && (forall|i: int|
            0 <= i < list.len() ==> is_plain(#[trigger] list[i])),
        ExprModel::Case { expr, when_then, else_result } => {
            &&& expr matches Some(b) ==> is_plain(*b)
            &&& forall|i: int|
                0 <= i < when_then.len() ==> is_plain((#[trigger] when_then[i]).0) && is_plain(
                    when_then[i].1,
                )
            &&& else_result matches Some(b) ==> is_plain(*b)
        },
        _ => true,
    }
}

/// Answering the subqueries of an expression that holds none leaves it as it is, with an
/// outer row and without one.
pub proof fn law_without_subqueries_nothing_changes(
    e: ExprModel,
    o: OuterRow,
    env: Env,
    ctes: Ctes,
)
    requires
        is_plain(e),
    ensures
        semantics::materialized(e, env) == Ok::<ExprModel, ErrorModel>(e),
        semantics::materialized_for(e, o, env, ctes) == Ok::<ExprModel, ErrorModel>(e),
    decreases e,
{
    match e {
        ExprModel::BinaryExpr { left, op, right } => {
            law_without_subqueries_nothing_changes(*left, o, env, ctes);
            law_without_subqueries_nothing_changes(*right, o, env, ctes);
        },
        ExprModel::UnaryExpr { op, expr } => {
            law_without_subqueries_nothing_changes(*expr, o, env, ctes);
        },
        ExprModel::IsNull { expr, is_null } => {
            law_without_subqueries_nothing_changes(*expr, o, env, ctes);
        },
        ExprModel::Between { expr, low, high, negated } => {
            law_without_subqueries_nothing_changes(*expr, o, env, ctes);
            law_without_subqueries_nothing_changes(*low, o, env, ctes);
            law_without_subqueries_nothing_changes(*high, o, env, ctes);
        },
        ExprModel::InList { expr, list, negated } => {
            law_without_subqueries_nothing_changes(*expr, o, env, ctes);
            lemma_plain_list(list, list.len(), o, env, ctes);
            assert(list.take(list.len() as int) =~= list);
        },
        ExprModel::Case { expr, when_then, else_result } => {
            if let Some(b) = expr {
                law_without_subqueries_nothing_changes(*b, o, env, ctes);
            }
            if let Some(b) = else_result {
                law_without_subqueries_nothing_changes(*b, o, env, ctes);
            }
            lemma_plain_pairs(when_then, when_then.len(), o, env, ctes);
            assert(when_then.take(when_then.len() as int) =~= when_then);
            assert(semantics::materialized_opt(expr, env) == Ok::<
                Option<Box<ExprModel>>,
                ErrorModel,
            >(expr));
            assert(semantics::materialized_opt(else_result, env) == Ok::<
                Option<Box<ExprModel>>,
                ErrorModel,
            >(else_result));
            assert(semantics::opt_for(expr, o, env, ctes) == Ok::<
                Option<Box<ExprModel>>,
                ErrorModel,
            >(expr));
            assert(semantics::opt_for(else_result, o, env, ctes) == Ok::<
                Option<Box<ExprModel>>,
                ErrorModel,
            >(else_result));
        },
        _ => {},
    }
}

proof fn lemma_plain_list(s: Seq<ExprModel>, n: nat, o: OuterRow, env: Env, ctes: Ctes)
    requires
        n <= s.len(),
        forall|i: int| 0 <= i < s.len() ==> is_plain(#[trigger] s[i]),
    ensures
        semantics::materialized_list(s, n, env) == Ok::<Seq<ExprModel>, ErrorModel>(
            s.take(n as int),
        ),
        semantics::list_for(s, n, o, env, ctes) == Ok::<Seq<ExprModel>, ErrorModel>(
            s.take(n as int),
        ),
    decreases s, n,
{
    if n > 0 {
        let m = (n - 1) as nat;
        lemma_plain_list(s, m, o, env, ctes);
        law_without_subqueries_nothing_changes(s[n - 1], o, env, ctes);
        assert(s.take(n as int) =~= s.take(m as int).push(s[n - 1]));
    } else {
        assert(s.take(0) =~= Seq::<ExprModel>::empty());
    }
}

proof fn lemma_plain_pairs(
    s: Seq<(ExprModel, ExprModel)>,
    n: nat,
    o: OuterRow,
    env: Env,
    ctes: Ctes,
)
    requires
        n <= s.len(),
        forall|i: int| 0 <= i < s.len() ==> is_plain((#[trigger] s[i]).0) && is_plain(s[i].1),
    ensures
        semantics::materialized_pairs(s, n, env) == Ok::<Seq<(ExprModel, ExprModel)>, ErrorModel>(
            s.take(n as int),
        ),
        semantics::pairs_for(s, n, o, env, ctes) == Ok::<Seq<(ExprModel, ExprModel)>, ErrorModel>(
            s.take(n as int),
        ),
    decreases s, n,
{
    if n > 0 {
        let m = (n - 1) as nat;
        lemma_plain_pairs(s, m, o, env, ctes);
        assert(is_plain(s[n - 1].0));
        law_without_subqueries_nothing_changes(s[n - 1].0, o, env, ctes);
        law_without_subqueries_nothing_changes(s[n - 1].1, o, env, ctes);
        assert(s.take(n as int) =~= s.take(m as int).push((s[n - 1].0, s[n - 1].1)));
    } else {
        assert(s.take(0) =~= Seq::<(ExprModel, ExprModel)>::empty());
    }
}

} // verus!
