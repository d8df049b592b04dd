//! What a join means: for every type of join, and whichever way it is computed, the rows
//! are those that testing the whole condition on every pair of rows gives.

use crate::evaluator;
use crate::executor::filter;
use crate::executor::hash_join;
use crate::executor::hash_join::{HashJoin, HashJoinBuildSide, KeyRule};
use crate::executor::hash_rows;
use crate::executor::join_agreement;
use crate::executor::join_build;
use crate::executor::join_build::JoinTerms;
use crate::executor::join_keys;
use crate::executor::join_keys::{DirectJoinKeySide, DirectJoinNameCase, DirectJoinQualifierTier};
use crate::executor::join_pair;
use crate::executor::join_table;
use crate::executor::nested_loop;
use crate::executor::nested_loop::LoopJoin;
use crate::executor::operator;
use crate::executor::operator::Relation;
use crate::logical_plan::{BinaryOperator, ExprModel, JoinType};
use crate::schema;
use crate::schema::{ColumnModel, ErrorModel, TupleModel};
use crate::text;
use crate::value::ValueModel;
use vstd::prelude::*;

verus! {

/// Whether an evaluation gave a truth value or NULL.
spec fn is_truth(v: Result<ValueModel, ErrorModel>) -> bool {
    v matches Ok(x) && (x is Boolean || x is Null)
}

proof fn lemma_and_evaluates(
    a: ExprModel,
    b: ExprModel,
    cols: Seq<ColumnModel>,
    params: Seq<ValueModel>,
    row: Seq<ValueModel>,
)
    ensures
        ({
            let e = ExprModel::BinaryExpr {
                left: Box::new(a),
                op: BinaryOperator::And,
                right: Box::new(b),
            };
            evaluator::eval(e, cols, params, row) == match evaluator::eval(a, cols, params, row) {
                Err(x) => Err(x),
                Ok(v) => evaluator::and_value(v, evaluator::eval(b, cols, params, row)),
            }
        }),
{
}

/// Terms held together with `AND`, in two parts: a first part that is false decides, and
/// else both count.
proof fn lemma_combined_in_parts(
    s: Seq<ExprModel>,
    t: Seq<ExprModel>,
    cols: Seq<ColumnModel>,
    params: Seq<ValueModel>,
    row: Seq<ValueModel>,
)
    requires
        s.len() > 0,
        t.len() > 0,
        is_truth(evaluator::eval(join_keys::combined(s)->Some_0, cols, params, row)),
    ensures
        ({
            let a = evaluator::eval(join_keys::combined(s)->Some_0, cols, params, row);
            let b = evaluator::eval(join_keys::combined(t)->Some_0, cols, params, row);
            let all = evaluator::eval(join_keys::combined(s + t)->Some_0, cols, params, row);
            &&& a == Ok::<ValueModel, ErrorModel>(ValueModel::Boolean(false)) ==> all == a
            &&& is_truth(b) ==> all == evaluator::and_value(a->Ok_0, b)
        }),
    decreases t.len(),
{
    let all = s + t;
    let rest = t.drop_last();
    let x = t.last();
    assert(all.drop_last() =~= s + rest);
    assert(all.last() == x);
    if t.len() == 1 {
        assert(all.drop_last() =~= s);
        lemma_and_evaluates(join_keys::combined(s)->Some_0, x, cols, params, row);
    } else {
        lemma_combined_in_parts(s, rest, cols, params, row);
        lemma_and_evaluates(join_keys::combined(s + rest)->Some_0, x, cols, params, row);
        lemma_and_evaluates(join_keys::combined(rest)->Some_0, x, cols, params, row);
    }
}

/// Whether each of some terms is true on a row, where it can be evaluated.
spec fn true_or_failing(
    s: Seq<ExprModel>,
    cols: Seq<ColumnModel>,
    params: Seq<ValueModel>,
    row: Seq<ValueModel>,
) -> bool {
    forall|i: int|
        0 <= i < s.len() ==> (evaluator::eval(#[trigger] s[i], cols, params, row) matches Ok(v)
            ==> v == ValueModel::Boolean(true))
}

proof fn lemma_true_or_failing_parts(
    s: Seq<ExprModel>,
    t: Seq<ExprModel>,
    cols: Seq<ColumnModel>,
    params: Seq<ValueModel>,
    row: Seq<ValueModel>,
)
    requires
        true_or_failing(s + t, cols, params, row),
    ensures
        true_or_failing(s, cols, params, row),
        true_or_failing(t, cols, params, row),
{
    assert forall|i: int| 0 <= i < s.len() implies (evaluator::eval(
        #[trigger] s[i],
        cols,
        params,
        row,
    ) matches Ok(v) ==> v == ValueModel::Boolean(true)) by {
        assert((s + t)[i] == s[i]);
    }
    assert forall|i: int| 0 <= i < t.len() implies (evaluator::eval(
        #[trigger] t[i],
        cols,
        params,
        row,
    ) matches Ok(v) ==> v == ValueModel::Boolean(true)) by {
        assert((s + t)[s.len() + i] == t[i]);
    }
}

/// Where every keyed term is true, a condition that can be evaluated gives what its
/// residual terms give.
proof fn lemma_residual_decides(
    e: ExprModel,
    left: Seq<ColumnModel>,
    right: Seq<ColumnModel>,
    cols: Seq<ColumnModel>,
    params: Seq<ValueModel>,
    row: Seq<ValueModel>,
)
    requires
        true_or_failing(join_keys::keyed_terms(e, left, right), cols, params, row),
        is_truth(evaluator::eval(e, cols, params, row)),
    ensures
        ({
            let rest = join_keys::residual_terms(e, left, right);
            let v = evaluator::eval(e, cols, params, row);
            if rest.len() == 0 {
                v == Ok::<ValueModel, ErrorModel>(ValueModel::Boolean(true))
            } else {
                evaluator::eval(join_keys::combined(rest)->Some_0, cols, params, row) == v
            }
        }),
    decreases e,
{
    match e {
        ExprModel::BinaryExpr { left: a, op: BinaryOperator::And, right: b } => {
            let ka = join_keys::keyed_terms(*a, left, right);
            let kb = join_keys::keyed_terms(*b, left, right);
            let ra = join_keys::residual_terms(*a, left, right);
            let rb = join_keys::residual_terms(*b, left, right);
            lemma_true_or_failing_parts(ka, kb, cols, params, row);
            let va = evaluator::eval(*a, cols, params, row);
            let vb = evaluator::eval(*b, cols, params, row);
            assert(is_truth(va));
            lemma_residual_decides(*a, left, right, cols, params, row);
            if va == Ok::<ValueModel, ErrorModel>(ValueModel::Boolean(false)) {
                if rb.len() == 0 {
                    assert(ra + rb =~= ra);
                } else {
                    lemma_combined_in_parts(ra, rb, cols, params, row);
                }
            } else {
                assert(is_truth(vb));
                lemma_residual_decides(*b, left, right, cols, params, row);
                if ra.len() == 0 {
                    assert(ra + rb =~= rb);
                } else if rb.len() == 0 {
                    assert(ra + rb =~= ra);
                } else {
                    lemma_combined_in_parts(ra, rb, cols, params, row);
                }
            }
        },
        _ => {
            if join_keys::term_pair(e, left, right) is Some {
                assert(join_keys::keyed_terms(e, left, right)[0] == e);
            } else {
                assert(join_keys::combined(seq![e]) == Some(e));
            }
        },
    }
}

/// The same where all terms of a condition are keyed.
proof fn lemma_all_terms_true(
    e: ExprModel,
    cols: Seq<ColumnModel>,
    params: Seq<ValueModel>,
    row: Seq<ValueModel>,
)
    requires
        true_or_failing(join_keys::terms(e), cols, params, row),
        is_truth(evaluator::eval(e, cols, params, row)),
    ensures
        evaluator::eval(e, cols, params, row) == Ok::<ValueModel, ErrorModel>(
            ValueModel::Boolean(true),
        ),
    decreases e,
{
    match e {
        ExprModel::BinaryExpr { left: a, op: BinaryOperator::And, right: b } => {
            lemma_true_or_failing_parts(
                join_keys::terms(*a),
                join_keys::terms(*b),
                cols,
                params,
                row,
            );
            assert(is_truth(evaluator::eval(*a, cols, params, row)));
            lemma_all_terms_true(*a, cols, params, row);
            lemma_all_terms_true(*b, cols, params, row);
        },
        _ => {
            assert(join_keys::terms(e)[0] == e);
        },
    }
}

/// The two sides of an equality.
pub open spec fn sides(e: ExprModel) -> (ExprModel, ExprModel) {
    match e {
        ExprModel::BinaryExpr { left, op, right } => (*left, *right),
        _ => (e, e),
    }
}

/// Whether some terms are equalities, with the given sides.
pub open spec fn are_equalities(s: Seq<ExprModel>, ops: Seq<(ExprModel, ExprModel)>) -> bool {
    &&& s.len() == ops.len()
    &&& forall|i: int|
        0 <= i < s.len() ==> is_equality(#[trigger] s[i]) && sides(s[i]) == ops[i]
}

pub open spec fn is_equality(e: ExprModel) -> bool {
    e matches ExprModel::BinaryExpr { left, op, right } && op == BinaryOperator::Eq
}

proof fn lemma_equalities_add(
    s: Seq<ExprModel>,
    a: Seq<(ExprModel, ExprModel)>,
    t: Seq<ExprModel>,
    b: Seq<(ExprModel, ExprModel)>,
)
    requires
        are_equalities(s, a),
        are_equalities(t, b),
    ensures
        are_equalities(s + t, a + b),
{
    let all = s + t;
    let ops = a + b;
    assert forall|i: int| 0 <= i < all.len() implies is_equality(#[trigger] all[i]) && sides(all[i])
        == ops[i] by {
        if i < s.len() {
            assert(all[i] == s[i]);
        } else {
            assert(all[i] == t[i - s.len()]);
        }
    }
}

proof fn lemma_only_equalities(e: ExprModel)
    requires
        join_keys::equality_operands(e) is Some,
    ensures
        are_equalities(join_keys::terms(e), join_keys::equality_operands(e)->Some_0),
    decreases e,
{
    match e {
        ExprModel::BinaryExpr { left: a, op: BinaryOperator::And, right: b } => {
            lemma_only_equalities(*a);
            lemma_only_equalities(*b);
            lemma_equalities_add(
                join_keys::terms(*a),
                join_keys::equality_operands(*a)->Some_0,
                join_keys::terms(*b),
                join_keys::equality_operands(*b)->Some_0,
            );
        },
        _ => {},
    }
}

proof fn lemma_combined_equalities(s: Seq<ExprModel>, ops: Seq<(ExprModel, ExprModel)>)
    requires
        s.len() > 0,
        are_equalities(s, ops),
    ensures
        join_keys::equality_operands(join_keys::combined(s)->Some_0) == Some(ops),
    decreases s.len(),
{
    assert(is_equality(s[s.len() - 1]) && sides(s[s.len() - 1]) == ops[ops.len() - 1]);
    let last = seq![ops.last()];
    assert(join_keys::equality_operands(s.last()) == Some(seq![sides(s.last())]));
    if s.len() == 1 {
        assert(seq![ops[0]] =~= ops);
    } else {
        let rest = s.drop_last();
        assert forall|i: int| 0 <= i < rest.len() implies is_equality(#[trigger] rest[i]) && sides(
            rest[i],
        ) == ops.drop_last()[i] by {
            assert(rest[i] == s[i]);
        }
        lemma_combined_equalities(rest, ops.drop_last());
        assert(ops.drop_last() + last =~= ops);
    }
}

/// The sides of the keyed terms of a condition, in order.
pub open spec fn keyed_sides(e: ExprModel, left: Seq<ColumnModel>, right: Seq<ColumnModel>) -> Seq<
    (ExprModel, ExprModel),
> {
    let s = join_keys::keyed_terms(e, left, right);
    Seq::new(s.len(), |i: int| sides(s[i]))
}

proof fn lemma_keyed_terms(e: ExprModel, left: Seq<ColumnModel>, right: Seq<ColumnModel>)
    ensures
        are_equalities(join_keys::keyed_terms(e, left, right), keyed_sides(e, left, right)),
        join_keys::bound_pairs(e, left, right).len() == join_keys::keyed_terms(
            e,
            left,
            right,
        ).len(),
        forall|i: int|
            0 <= i < join_keys::keyed_terms(e, left, right).len() ==> join_keys::term_pair(
                #[trigger] join_keys::keyed_terms(e, left, right)[i],
                left,
                right,
            ) == Some(join_keys::bound_pairs(e, left, right)[i]),
    decreases e,
{
    let s = join_keys::keyed_terms(e, left, right);
    let pairs = join_keys::bound_pairs(e, left, right);
    match e {
        ExprModel::BinaryExpr { left: a, op: BinaryOperator::And, right: b } => {
            lemma_keyed_terms(*a, left, right);
            lemma_keyed_terms(*b, left, right);
            let sa = join_keys::keyed_terms(*a, left, right);
            let sb = join_keys::keyed_terms(*b, left, right);
            lemma_equalities_add(
                sa,
                keyed_sides(*a, left, right),
                sb,
                keyed_sides(*b, left, right),
            );
            assert(keyed_sides(e, left, right) =~= keyed_sides(*a, left, right) + keyed_sides(
                *b,
                left,
                right,
            ));
            assert forall|i: int| 0 <= i < s.len() implies join_keys::term_pair(
                #[trigger] s[i],
                left,
                right,
            ) == Some(pairs[i]) by {
                if i < sa.len() {
                    assert(s[i] == sa[i]);
                } else {
                    assert(s[i] == sb[i - sa.len()]);
                }
            }
        },
        _ => {},
    }
}

/// The sides of the equalities that the keys of a planned join stand for.
pub open spec fn key_sides(
    condition: ExprModel,
    left: Seq<ColumnModel>,
    right: Seq<ColumnModel>,
) -> Seq<(ExprModel, ExprModel)> {
    match join_keys::planned(condition, left, right).equi {
        Some(e) => match join_keys::equality_operands(e) {
            Some(ops) => ops,
            None => Seq::empty(),
        },
        None => Seq::empty(),
    }
}

proof fn lemma_plan(condition: ExprModel, left: Seq<ColumnModel>, right: Seq<ColumnModel>)
    requires
        join_keys::planned(condition, left, right).equi is Some,
    ensures
        ({
            let plan = join_keys::planned(condition, left, right);
            let ops = key_sides(condition, left, right);
            &&& join_keys::equality_operands(plan.equi->Some_0) == Some(ops)
            &&& ops.len() > 0
            &&& plan.direct is None ==> plan.pairs.len() == ops.len() && forall|i: int|
                0 <= i < ops.len() ==> join_keys::key_pair(
                    (#[trigger] ops[i]).0,
                    ops[i].1,
                    left,
                    right,
                ) == Some(plan.pairs[i])
            &&& plan.direct matches Some(d) ==> d.0.len() == ops.len() && d.1.len() == ops.len()
                && forall|i: int|
                0 <= i < ops.len() ==> join_keys::direct_pair(#[trigger] ops[i], left, right)
                    == Some((d.0[i], d.1[i]))
        }),
{
    let plan = join_keys::planned(condition, left, right);
    let ops = key_sides(condition, left, right);
    if join_keys::direct_keys(condition, left, right) is None {
        let s = join_keys::keyed_terms(condition, left, right);
        lemma_keyed_terms(condition, left, right);
        assert(s.len() > 0);
        lemma_combined_equalities(s, keyed_sides(condition, left, right));
        if plan.direct is None {
            assert forall|i: int| 0 <= i < ops.len() implies join_keys::key_pair(
                (#[trigger] ops[i]).0,
                ops[i].1,
                left,
                right,
            ) == Some(plan.pairs[i]) by {
                assert(is_equality(s[i]) && sides(s[i]) == ops[i]);
                assert(join_keys::term_pair(s[i], left, right) == Some(plan.pairs[i]));
            }
        }
    }
}

/// The value that a key rule takes from a row for key `i`.
pub open spec fn key_value(rule: KeyRule, row: Seq<ValueModel>, i: int) -> Result<
    ValueModel,
    ErrorModel,
> {
    match rule.positions {
        Some(ps) => if ps[i] < row.len() {
            Ok(row[ps[i] as int])
        } else {
            Err(hash_join::key_out_of_bounds())
        },
        None => evaluator::eval(rule.exprs[i], rule.cols, rule.params, row),
    }
}

/// How many keys a key rule takes.
pub open spec fn key_count(rule: KeyRule) -> nat {
    match rule.positions {
        Some(ps) => ps.len(),
        None => rule.exprs.len(),
    }
}

/// Whether values are those that a key rule takes from a row, none of them NULL.
spec fn taken(rule: KeyRule, row: Seq<ValueModel>, vs: Seq<ValueModel>) -> bool {
    &&& vs.len() == key_count(rule)
    &&& forall|i: int|
        0 <= i < vs.len() ==> #[trigger] key_value(rule, row, i) == Ok::<ValueModel, ErrorModel>(
            vs[i],
        ) && !(vs[i] is Null)
}

proof fn lemma_values_at(row: Seq<ValueModel>, ps: Seq<usize>)
    ensures
        match hash_join::values_at(row, ps) {
            Ok(Some(vs)) => vs.len() == ps.len() && forall|i: int|
                0 <= i < ps.len() ==> (#[trigger] ps[i]) < row.len() && vs[i] == row[ps[i] as int]
                    && !(vs[i] is Null),
            Ok(None) => exists|i: int|
                0 <= i < ps.len() && (#[trigger] ps[i]) < row.len() && row[ps[i] as int] is Null,
            Err(_) => true,
        },
    decreases ps.len(),
{
    if ps.len() > 0 {
        let rest = ps.drop_last();
        lemma_values_at(row, rest);
        match hash_join::values_at(row, rest) {
            Ok(None) => {
                let i = choose|i: int|
                    0 <= i < rest.len() && (#[trigger] rest[i]) < row.len()
                        && row[rest[i] as int] is Null;
                assert(ps[i] == rest[i]);
            },
            Ok(Some(vs)) => {
                let at = ps[ps.len() - 1];
                if let Ok(Some(all)) = hash_join::values_at(row, ps) {
                    assert forall|i: int| 0 <= i < ps.len() implies (#[trigger] ps[i]) < row.len()
                        && all[i] == row[ps[i] as int] && !(all[i] is Null) by {
                        if i < rest.len() {
                            assert(rest[i] == ps[i]);
                        }
                    }
                } else if at < row.len() {
                    assert(ps[ps.len() - 1] < row.len() && row[ps[ps.len() - 1] as int] is Null);
                }
            },
            Err(_) => {},
        }
    }
}

/// A row has a key exactly where none of its key values is NULL.
proof fn lemma_key_taken(rule: KeyRule, row: TupleModel)
    requires
        hash_join::row_key(rule, row.values) is Ok,
        !rule.keyless,
    ensures
        match join_agreement::own_key(rule, row) {
            Some(k) => exists|vs: Seq<ValueModel>|
                #[trigger] taken(rule, row.values, vs) && k == join_table::key_of_values(vs),
            None => exists|i: int|
                0 <= i < key_count(rule) && #[trigger] key_value(rule, row.values, i) == Ok::<
                    ValueModel,
                    ErrorModel,
                >(ValueModel::Null),
        },
{
    let key = hash_join::row_key(rule, row.values)->Ok_0;
    match rule.positions {
        Some(ps) => {
            lemma_values_at(row.values, ps);
            match hash_join::values_at(row.values, ps) {
                Ok(Some(vs)) => {
                    assert(taken(rule, row.values, vs)) by {
                        assert forall|i: int| 0 <= i < vs.len() implies #[trigger] key_value(
                            rule,
                            row.values,
                            i,
                        ) == Ok::<ValueModel, ErrorModel>(vs[i]) && !(vs[i] is Null) by {
                            assert(ps[i] < row.values.len());
                        }
                    }
                },
                Ok(None) => {
                    let i = choose|i: int|
                        0 <= i < ps.len() && (#[trigger] ps[i]) < row.values.len()
                            && row.values[ps[i] as int] is Null;
                    assert(key_value(rule, row.values, i) == Ok::<ValueModel, ErrorModel>(
                        ValueModel::Null,
                    ));
                },
                Err(_) => {},
            }
        },
        None => {
            let vs = evaluator::eval_all(rule.exprs, rule.cols, rule.params, row.values)->Ok_0;
            evaluator::lemma_list_values(rule.exprs, rule.cols, rule.params, row.values);
            if vs.contains(ValueModel::Null) {
                let i = choose|i: int| 0 <= i < vs.len() && vs[i] == ValueModel::Null;
                assert(evaluator::eval(rule.exprs[i], rule.cols, rule.params, row.values) is Ok);
                assert(key_value(rule, row.values, i) == Ok::<ValueModel, ErrorModel>(
                    ValueModel::Null,
                ));
            } else {
                assert(taken(rule, row.values, vs)) by {
                    assert forall|i: int| 0 <= i < vs.len() implies #[trigger] key_value(
                        rule,
                        row.values,
                        i,
                    ) == Ok::<ValueModel, ErrorModel>(vs[i]) && !(vs[i] is Null) by {
                        assert(evaluator::eval(rule.exprs[i], rule.cols, rule.params, row.values)
                            is Ok);
                        assert(vs.contains(vs[i]));
                    }
                }
            }
        },
    }
}

/// Keys meet exactly where their values meet, one by one.
proof fn lemma_keys_of_values_meet(a: Seq<ValueModel>, b: Seq<ValueModel>)
    requires
        a.len() == b.len(),
    ensures
        join_table::keys_meet(join_table::key_of_values(a), join_table::key_of_values(b)) == (
        forall|i: int| 0 <= i < a.len() ==> join_table::values_meet(#[trigger] a[i], b[i])),
{
    let ka = join_table::key_of_values(a);
    let kb = join_table::key_of_values(b);
    if a.len() == 1 {
        lemma_single_values_meet(a[0], b[0]);
        if join_table::keys_meet(ka, kb) {
            assert(join_table::values_meet(ka[0], kb[0]));
        }
        if forall|i: int| 0 <= i < a.len() ==> join_table::values_meet(#[trigger] a[i], b[i]) {
            assert(join_table::values_meet(a[0], b[0]));
            assert(join_table::values_meet(ka[0], kb[0]));
        }
    }
}

proof fn lemma_single_values_meet(a: ValueModel, b: ValueModel)
    ensures
        join_table::values_meet(join_table::single_key(a)[0], join_table::single_key(b)[0])
            == join_table::values_meet(a, b),
        join_agreement::kind(join_table::single_key(a)[0]) == join_agreement::kind(a),
{
}

/// Values of one kind, neither of them NULL, are equal exactly where they meet, unless
/// they cannot be compared at all.
proof fn lemma_meeting_is_equality(a: ValueModel, b: ValueModel)
    requires
        !(a is Null),
        !(b is Null),
        join_agreement::kind(a) == join_agreement::kind(b),
    ensures
        evaluator::binary_value(a, BinaryOperator::Eq, b) matches Ok(v) ==> v
            == ValueModel::Boolean(join_table::values_meet(a, b)),
{
    match (a, b) {
        (ValueModel::String(x), ValueModel::String(y)) => {
            text::lemma_lex_equal(text::codes(x), text::codes(y));
            text::lemma_codes_injective(x, y);
        },
        _ => {},
    }
}

/// The key rule of one side of a planned join.
pub open spec fn planned_rule(
    condition: ExprModel,
    left: Seq<ColumnModel>,
    right: Seq<ColumnModel>,
    params: Seq<ValueModel>,
    on_right: bool,
) -> KeyRule {
    let plan = join_keys::planned(condition, left, right);
    hash_join::side_rule(
        plan.direct,
        plan.pairs,
        plan.equi is None,
        if on_right {
            right
        } else {
            left
        },
        params,
        on_right,
    )
}

/// Whether the two sides of each keyed equality, evaluated on a pair of rows, give the
/// values that the keys take from the two rows.
spec fn reads_alike(
    condition: ExprModel,
    left: Seq<ColumnModel>,
    right: Seq<ColumnModel>,
    params: Seq<ValueModel>,
    l: Seq<ValueModel>,
    r: Seq<ValueModel>,
) -> bool {
    forall|i: int|
        0 <= i < key_sides(condition, left, right).len() ==> side_reads_alike(
            #[trigger] key_sides(condition, left, right)[i],
            left + right,
            params,
            l + r,
            key_value(planned_rule(condition, left, right, params, false), l, i),
            key_value(planned_rule(condition, left, right, params, true), r, i),
        )
}

spec fn side_reads_alike(
    p: (ExprModel, ExprModel),
    both: Seq<ColumnModel>,
    params: Seq<ValueModel>,
    row: Seq<ValueModel>,
    x: Result<ValueModel, ErrorModel>,
    y: Result<ValueModel, ErrorModel>,
) -> bool {
    let a = evaluator::eval(p.0, both, params, row);
    let b = evaluator::eval(p.1, both, params, row);
    (a == x && b == y) || (a == y && b == x)
}

/// Whether the keys of a pair of rows meet.
pub open spec fn keys_join(l: TupleModel, r: TupleModel, lr: KeyRule, rr: KeyRule) -> bool {
    join_agreement::own_key(lr, l) is Some && join_agreement::row_meets(
        r,
        rr,
        join_agreement::own_key(lr, l)->Some_0,
    )
}

proof fn lemma_equality_evaluates(
    e: ExprModel,
    cols: Seq<ColumnModel>,
    params: Seq<ValueModel>,
    row: Seq<ValueModel>,
)
    requires
        is_equality(e),
    ensures
        ({
            let a = evaluator::eval(sides(e).0, cols, params, row);
            let b = evaluator::eval(sides(e).1, cols, params, row);
            evaluator::eval(e, cols, params, row) == match a {
                Err(x) => Err(x),
                Ok(v) => match b {
                    Err(x) => Err(x),
                    Ok(w) => evaluator::binary_value(v, BinaryOperator::Eq, w),
                },
            }
        }),
{
}

proof fn lemma_planned_counts(
    condition: ExprModel,
    left: Seq<ColumnModel>,
    right: Seq<ColumnModel>,
    params: Seq<ValueModel>,
)
    requires
        join_keys::planned(condition, left, right).equi is Some,
    ensures
        ({
            let n = key_sides(condition, left, right).len();
            let lr = planned_rule(condition, left, right, params, false);
            let rr = planned_rule(condition, left, right, params, true);
            &&& !lr.keyless
            &&& !rr.keyless
            &&& key_count(lr) == n
            &&& key_count(rr) == n
        }),
{
    lemma_plan(condition, left, right);
}

proof fn lemma_same_kind(
    a: Seq<ValueModel>,
    b: Seq<ValueModel>,
    kinds: Seq<int>,
    i: int,
)
    requires
        a.len() == b.len(),
        0 <= i < a.len(),
        join_agreement::of_kinds(join_table::key_of_values(a), kinds),
        join_agreement::of_kinds(join_table::key_of_values(b), kinds),
    ensures
        join_agreement::kind(a[i]) == join_agreement::kind(b[i]),
{
    let ka = join_table::key_of_values(a);
    let kb = join_table::key_of_values(b);
    lemma_single_values_meet(a[0], a[0]);
    lemma_single_values_meet(b[0], b[0]);
    assert(join_agreement::kind(ka[i]) == kinds[i]);
    assert(join_agreement::kind(kb[i]) == kinds[i]);
}

/// Keyed equalities of rows whose keys meet are true, where they can be evaluated.
proof fn lemma_met_terms(
    condition: ExprModel,
    left: Seq<ColumnModel>,
    right: Seq<ColumnModel>,
    params: Seq<ValueModel>,
    l: TupleModel,
    r: TupleModel,
    kinds: Seq<int>,
    terms: Seq<ExprModel>,
)
    requires
        join_keys::planned(condition, left, right).equi is Some,
        reads_alike(condition, left, right, params, l.values, r.values),
        ({
            let lr = planned_rule(condition, left, right, params, false);
            let rr = planned_rule(condition, left, right, params, true);
            &&& join_agreement::key_fits(hash_join::row_key(lr, l.values), kinds)
            &&& join_agreement::key_fits(hash_join::row_key(rr, r.values), kinds)
            &&& keys_join(l, r, lr, rr)
        }),
        are_equalities(terms, key_sides(condition, left, right)),
    ensures
        true_or_failing(terms, left + right, params, l.values + r.values),
{
    let lr = planned_rule(condition, left, right, params, false);
    let rr = planned_rule(condition, left, right, params, true);
    let ops = key_sides(condition, left, right);
    let both = left + right;
    let row = l.values + r.values;
    lemma_planned_counts(condition, left, right, params);
    lemma_key_taken(lr, l);
    lemma_key_taken(rr, r);
    let kl = join_agreement::own_key(lr, l)->Some_0;
    let kr = join_agreement::own_key(rr, r)->Some_0;
    let vl = choose|vs: Seq<ValueModel>|
        #[trigger] taken(lr, l.values, vs) && kl == join_table::key_of_values(vs);
    let vr = choose|vs: Seq<ValueModel>|
        #[trigger] taken(rr, r.values, vs) && kr == join_table::key_of_values(vs);
    lemma_keys_of_values_meet(vr, vl);
    assert forall|i: int| 0 <= i < terms.len() implies (evaluator::eval(
        #[trigger] terms[i],
        both,
        params,
        row,
    ) matches Ok(v) ==> v == ValueModel::Boolean(true)) by {
        assert(is_equality(terms[i]) && sides(terms[i]) == ops[i]);
        lemma_equality_evaluates(terms[i], both, params, row);
        assert(key_value(lr, l.values, i) == Ok::<ValueModel, ErrorModel>(vl[i]));
        assert(key_value(rr, r.values, i) == Ok::<ValueModel, ErrorModel>(vr[i]));
        assert(side_reads_alike(
            ops[i],
            both,
            params,
            row,
            key_value(lr, l.values, i),
            key_value(rr, r.values, i),
        ));
        assert(join_table::values_meet(vr[i], vl[i]));
        lemma_values_meet_back(vr[i], vl[i]);
        lemma_same_kind(vl, vr, kinds, i);
        lemma_meeting_is_equality(vl[i], vr[i]);
        lemma_meeting_is_equality(vr[i], vl[i]);
    }
}

proof fn lemma_values_meet_back(a: ValueModel, b: ValueModel)
    ensures
        join_table::values_meet(a, b) == join_table::values_meet(b, a),
{
    join_table::law_meeting_is_symmetric(seq![a], seq![b]);
    if join_table::values_meet(a, b) {
        assert(join_table::keys_meet(seq![a], seq![b]));
        assert(join_table::values_meet(seq![b][0], seq![a][0]));
    }
    if join_table::values_meet(b, a) {
        assert(join_table::keys_meet(seq![b], seq![a]));
        assert(join_table::values_meet(seq![a][0], seq![b][0]));
    }
}

/// Rows on which all keyed equalities are true have keys that meet.
proof fn lemma_true_terms_meet(
    condition: ExprModel,
    left: Seq<ColumnModel>,
    right: Seq<ColumnModel>,
    params: Seq<ValueModel>,
    l: TupleModel,
    r: TupleModel,
    kinds: Seq<int>,
)
    requires
        join_keys::planned(condition, left, right).equi is Some,
        reads_alike(condition, left, right, params, l.values, r.values),
        ({
            let lr = planned_rule(condition, left, right, params, false);
            let rr = planned_rule(condition, left, right, params, true);
            &&& join_agreement::key_fits(hash_join::row_key(lr, l.values), kinds)
            &&& join_agreement::key_fits(hash_join::row_key(rr, r.values), kinds)
        }),
        join_keys::holds(condition, left + right, params, l.values + r.values),
    ensures
        keys_join(
            l,
            r,
            planned_rule(condition, left, right, params, false),
            planned_rule(condition, left, right, params, true),
        ),
{
    let lr = planned_rule(condition, left, right, params, false);
    let rr = planned_rule(condition, left, right, params, true);
    let ops = key_sides(condition, left, right);
    let both = left + right;
    let row = l.values + r.values;
    let equi = join_keys::planned(condition, left, right).equi->Some_0;
    lemma_plan(condition, left, right);
    join_keys::law_planning_drops_no_term(condition, left, right, both, params, row);
    join_keys::law_condition_is_its_terms(equi, both, params, row);
    lemma_only_equalities(equi);
    let terms = join_keys::terms(equi);
    lemma_planned_counts(condition, left, right, params);
    lemma_key_taken(lr, l);
    lemma_key_taken(rr, r);
    assert forall|i: int| 0 <= i < ops.len() implies key_pair_equal(
        #[trigger] key_value(lr, l.values, i),
        key_value(rr, r.values, i),
    ) by {
        assert(join_keys::holds(terms[i], both, params, row));
        assert(is_equality(terms[i]) && sides(terms[i]) == ops[i]);
        lemma_equality_evaluates(terms[i], both, params, row);
        assert(side_reads_alike(
            ops[i],
            both,
            params,
            row,
            key_value(lr, l.values, i),
            key_value(rr, r.values, i),
        ));
    }
    if join_agreement::own_key(lr, l) is None {
        let i = choose|i: int|
            0 <= i < key_count(lr) && #[trigger] key_value(lr, l.values, i) == Ok::<
                ValueModel,
                ErrorModel,
            >(ValueModel::Null);
        assert(key_pair_equal(key_value(lr, l.values, i), key_value(rr, r.values, i)));
    }
    if join_agreement::own_key(rr, r) is None {
        let i = choose|i: int|
            0 <= i < key_count(rr) && #[trigger] key_value(rr, r.values, i) == Ok::<
                ValueModel,
                ErrorModel,
            >(ValueModel::Null);
        assert(key_pair_equal(key_value(lr, l.values, i), key_value(rr, r.values, i)));
    }
    let kl = join_agreement::own_key(lr, l)->Some_0;
    let kr = join_agreement::own_key(rr, r)->Some_0;
    let vl = choose|vs: Seq<ValueModel>|
        #[trigger] taken(lr, l.values, vs) && kl == join_table::key_of_values(vs);
    let vr = choose|vs: Seq<ValueModel>|
        #[trigger] taken(rr, r.values, vs) && kr == join_table::key_of_values(vs);
    assert forall|i: int| 0 <= i < vr.len() implies join_table::values_meet(
        #[trigger] vr[i],
        vl[i],
    ) by {
        assert(key_value(lr, l.values, i) == Ok::<ValueModel, ErrorModel>(vl[i]));
        assert(key_value(rr, r.values, i) == Ok::<ValueModel, ErrorModel>(vr[i]));
        assert(key_pair_equal(key_value(lr, l.values, i), key_value(rr, r.values, i)));
        lemma_values_meet_back(vr[i], vl[i]);
        lemma_same_kind(vl, vr, kinds, i);
        lemma_meeting_is_equality(vl[i], vr[i]);
        lemma_meeting_is_equality(vr[i], vl[i]);
    }
    lemma_keys_of_values_meet(vr, vl);
}

/// Whether two values are equal, in one order or the other.
spec fn key_pair_equal(
    x: Result<ValueModel, ErrorModel>,
    y: Result<ValueModel, ErrorModel>,
) -> bool {
    let yes = Ok::<ValueModel, ErrorModel>(ValueModel::Boolean(true));
    &&& x is Ok
    &&& y is Ok
    &&& evaluator::binary_value(x->Ok_0, BinaryOperator::Eq, y->Ok_0) == yes
        || evaluator::binary_value(y->Ok_0, BinaryOperator::Eq, x->Ok_0) == yes
}

proof fn lemma_planned_gives_truth(
    condition: ExprModel,
    left: Seq<ColumnModel>,
    right: Seq<ColumnModel>,
    cols: Seq<ColumnModel>,
    params: Seq<ValueModel>,
    row: Seq<ValueModel>,
)
    requires
        join_keys::planned(condition, left, right).equi is Some,
        evaluator::eval(condition, cols, params, row) is Ok,
    ensures
        is_truth(evaluator::eval(condition, cols, params, row)),
{
    match condition {
        ExprModel::BinaryExpr { left: a, op: BinaryOperator::And, right: b } => {
            lemma_and_evaluates(*a, *b, cols, params, row);
        },
        ExprModel::BinaryExpr { left: a, op: BinaryOperator::Eq, right: b } => {
            lemma_equality_evaluates(condition, cols, params, row);
        },
        _ => {
            assert(join_keys::keyed_terms(condition, left, right).len() == 0);
            assert(join_keys::equality_operands(condition) is None);
        },
    }
}

/// A condition is true on a pair of rows exactly where the keys meet and what is left of
/// the condition is true; what is left can be evaluated where the keys meet.
proof fn lemma_pair_means(
    condition: ExprModel,
    left: Seq<ColumnModel>,
    right: Seq<ColumnModel>,
    params: Seq<ValueModel>,
    l: TupleModel,
    r: TupleModel,
    kinds: Seq<int>,
)
    requires
        join_keys::planned(condition, left, right).equi is Some,
        reads_alike(condition, left, right, params, l.values, r.values),
        ({
            let lr = planned_rule(condition, left, right, params, false);
            let rr = planned_rule(condition, left, right, params, true);
            &&& join_agreement::key_fits(hash_join::row_key(lr, l.values), kinds)
            &&& join_agreement::key_fits(hash_join::row_key(rr, r.values), kinds)
        }),
        evaluator::eval(condition, left + right, params, l.values + r.values) is Ok,
    ensures
        ({
            let both = left + right;
            let row = l.values + r.values;
            let residual = join_keys::planned(condition, left, right).residual;
            let joined = keys_join(
                l,
                r,
                planned_rule(condition, left, right, params, false),
                planned_rule(condition, left, right, params, true),
            );
            &&& joined && residual is Some ==> is_truth(
                evaluator::eval(residual->Some_0, both, params, row),
            )
            &&& join_keys::holds(condition, both, params, row) == (joined && join_keys::opt_holds(
                residual,
                both,
                params,
                row,
            ))
        }),
{
    let both = left + right;
    let row = l.values + r.values;
    let plan = join_keys::planned(condition, left, right);
    let lr = planned_rule(condition, left, right, params, false);
    let rr = planned_rule(condition, left, right, params, true);
    lemma_planned_gives_truth(condition, left, right, both, params, row);
    if keys_join(l, r, lr, rr) {
        if join_keys::direct_keys(condition, left, right) is Some {
            let terms = join_keys::terms(condition);
            lemma_only_equalities(condition);
            lemma_met_terms(condition, left, right, params, l, r, kinds, terms);
            lemma_all_terms_true(condition, both, params, row);
        } else {
            let terms = join_keys::keyed_terms(condition, left, right);
            lemma_keyed_terms(condition, left, right);
            lemma_combined_equalities(terms, keyed_sides(condition, left, right));
            lemma_met_terms(condition, left, right, params, l, r, kinds, terms);
            lemma_residual_decides(condition, left, right, both, params, row);
        }
    } else if join_keys::holds(condition, both, params, row) {
        lemma_true_terms_meet(condition, left, right, params, l, r, kinds);
    }
}

/// Whether a join keeps no row without a partner.
pub open spec fn keeps_none(t: JoinType) -> bool {
    !join_pair::keeps_left(t) && !join_pair::keeps_right(t)
}

proof fn lemma_line_is_contribution(
    l: TupleModel,
    right: Seq<TupleModel>,
    i: int,
    had: bool,
    whole: LoopJoin,
    p: join_agreement::Pairing,
)
    requires
        0 <= i <= right.len(),
        keeps_none(whole.join_type),
        forall|j: int|
            0 <= j < right.len() ==> (p.joined)(l, #[trigger] right[j]) == ((whole.test)(
                l,
                right[j],
            ) == Ok::<bool, ErrorModel>(true)) && (p.given)(l, right[j]) == join_pair::combined_row(
                l,
                right[j],
            ),
    ensures
        nested_loop::contribution(l, right, i, had, whole) == join_agreement::line(
            l,
            right.skip(i),
            p,
        ),
    decreases right.len() - i,
{
    if i < right.len() {
        assert(right.skip(i)[0] == right[i]);
        assert(right.skip(i).drop_first() =~= right.skip(i + 1));
        lemma_line_is_contribution(l, right, i + 1, true, whole, p);
        lemma_line_is_contribution(l, right, i + 1, had, whole, p);
    } else {
        assert(right.skip(i) =~= Seq::<TupleModel>::empty());
    }
}

proof fn lemma_lines_are_contributions(
    left: Seq<TupleModel>,
    right: Seq<TupleModel>,
    whole: LoopJoin,
    p: join_agreement::Pairing,
)
    requires
        keeps_none(whole.join_type),
        forall|i: int, j: int|
            0 <= i < left.len() && 0 <= j < right.len() ==> (p.joined)(
                #[trigger] left[i],
                #[trigger] right[j],
            ) == ((whole.test)(left[i], right[j]) == Ok::<bool, ErrorModel>(true)) && (p.given)(
                left[i],
                right[j],
            ) == join_pair::combined_row(left[i], right[j]),
    ensures
        nested_loop::contributions(left, right, whole) == join_agreement::by_lines(left, right, p),
    decreases left.len(),
{
    if left.len() > 0 {
        let rest = left.drop_first();
        assert forall|i: int, j: int| 0 <= i < rest.len() && 0 <= j < right.len() implies (
        p.joined)(#[trigger] rest[i], #[trigger] right[j]) == ((whole.test)(rest[i], right[j])
            == Ok::<bool, ErrorModel>(true)) && (p.given)(rest[i], right[j])
            == join_pair::combined_row(rest[i], right[j]) by {
            assert(rest[i] == left[i + 1]);
        }
        lemma_lines_are_contributions(rest, right, whole, p);
        assert forall|j: int| 0 <= j < right.len() implies (p.joined)(left[0], #[trigger] right[j])
            == ((whole.test)(left[0], right[j]) == Ok::<bool, ErrorModel>(true)) && (p.given)(
            left[0],
            right[j],
        ) == join_pair::combined_row(left[0], right[j]) by {}
        lemma_line_is_contribution(left[0], right, 0, false, whole, p);
        assert(right.skip(0) =~= right);
    }
}

/// The same join by keys, with the right rows held in memory.
pub open spec fn other_way(join: HashJoin, lr: KeyRule) -> HashJoin {
    HashJoin { build_side: HashJoinBuildSide::Right, probe: lr, ..join }
}

/// An inner join by keys, with the left rows held in memory, gives the rows that testing
/// every pair gives, each as often.
proof fn lemma_inner_rows_on_left(
    left: Seq<TupleModel>,
    right: Seq<TupleModel>,
    limit: usize,
    whole: LoopJoin,
    join: HashJoin,
    lr: KeyRule,
    kinds: Seq<int>,
)
    requires
        join_agreement::keyed(left, lr, kinds),
        join_agreement::keyed(right, join.probe, kinds),
        left.len() < usize::MAX,
        hash_join::built(
            operator::just_rows(left),
            hash_join::empty_table(),
            0,
            limit,
            lr,
            false,
        ) is Ok,
        hash_rows::speak_alike(left, right, whole, other_way(join, lr), join.probe),
        join.build_side == HashJoinBuildSide::Left,
        join.projection is None,
        join.join_type == JoinType::Inner,
        whole.join_type == JoinType::Inner,
    ensures
        ({
            let t = hash_join::built(
                operator::just_rows(left),
                hash_join::empty_table(),
                0,
                limit,
                lr,
                false,
            )->Ok_0;
            let out = hash_join::hash_from_probe(
                operator::just_rows(right),
                t.entries,
                Seq::empty(),
                join,
            );
            &&& out.end is None
            &&& out.rows.to_multiset() == nested_loop::contributions(
                left,
                right,
                whole,
            ).to_multiset()
        }),
{
    let rr = join.probe;
    let other = other_way(join, lr);
    join_agreement::lemma_built_holds(left, limit, lr, kinds);
    let t = hash_join::built(
        operator::just_rows(left),
        hash_join::empty_table(),
        0,
        limit,
        lr,
        false,
    )->Ok_0.entries;
    assert forall|j: int| 0 <= j < right.len() implies hash_rows::probes_well(
        #[trigger] right[j],
        t,
        join,
    ) by {
        let r = right[j];
        assert(join_agreement::key_fits(hash_join::row_key(rr, right[j].values), kinds));
        if let Some(k) = join_agreement::own_key(rr, r) {
            let bucket = join_agreement::found(t, k);
            assert(bucket == join_agreement::matching(left, lr, k));
            hash_rows::lemma_matching_rows(left, lr, k);
            assert forall|x: int| 0 <= x < bucket.len() implies hash_join::probe_test(
                r,
                #[trigger] bucket[x],
                join,
            ) is Ok by {
                assert(left.contains(join_agreement::matching(left, lr, k)[x]));
                let i = choose|i: int| 0 <= i < left.len() && left[i] == bucket[x];
                assert(hash_rows::pair_alike(left[i], right[j], whole, other, rr));
                let kl = join_agreement::own_key(lr, left[i])->Some_0;
                join_table::law_meeting_is_symmetric(kl, k);
            }
        }
    }
    hash_rows::lemma_hash_rows(right, t, Seq::empty(), join);
    let probed = hash_join::all_probe_rows(right, t, join);
    assert(probed + Seq::<TupleModel>::empty() =~= probed);
    join_agreement::lemma_rows_by_columns(left, right, t, join, lr, kinds);
    let p = join_agreement::pairing(join, lr, rr);
    join_agreement::lemma_lines_are_columns(left, right, p);
    assert forall|i: int, j: int| 0 <= i < left.len() && 0 <= j < right.len() implies (p.joined)(
        #[trigger] left[i],
        #[trigger] right[j],
    ) == ((whole.test)(left[i], right[j]) == Ok::<bool, ErrorModel>(true)) && (p.given)(
        left[i],
        right[j],
    ) == join_pair::combined_row(left[i], right[j]) by {
        assert(hash_rows::pair_alike(left[i], right[j], whole, other, rr));
    }
    lemma_lines_are_contributions(left, right, whole, p);
}

pub proof fn lemma_filter_counts(s: Seq<TupleModel>, keep: spec_fn(TupleModel) -> bool, x: TupleModel)
    ensures
        s.filter(keep).to_multiset().count(x) == if keep(x) {
            s.to_multiset().count(x)
        } else {
            0
        },
    decreases s.len(),
{
    broadcast use vstd::seq_lib::group_to_multiset_ensures;

    if s.len() == 0 {
        assert(s =~= Seq::<TupleModel>::empty());
        filter::lemma_filter_none(keep);
    } else {
        let rest = s.drop_last();
        lemma_filter_counts(rest, keep, x);
        assert(s =~= rest + seq![s.last()]);
        Seq::filter_distributes_over_add(rest, seq![s.last()], keep);
        filter::lemma_filter_one(s.last(), keep);
        assert(s =~= rest.push(s.last()));
        if keep(s.last()) {
            assert(s.filter(keep) =~= rest.filter(keep).push(s.last()));
        } else {
            assert(s.filter(keep) =~= rest.filter(keep));
        }
    }
}

proof fn lemma_filter_same(
    a: Seq<TupleModel>,
    b: Seq<TupleModel>,
    keep: spec_fn(TupleModel) -> bool,
)
    requires
        a.to_multiset() == b.to_multiset(),
    ensures
        a.filter(keep).to_multiset() == b.filter(keep).to_multiset(),
{
    assert forall|x: TupleModel| a.filter(keep).to_multiset().count(x) == b.filter(
        keep,
    ).to_multiset().count(x) by {
        lemma_filter_counts(a, keep, x);
        lemma_filter_counts(b, keep, x);
    }
    assert(a.filter(keep).to_multiset() =~= b.filter(keep).to_multiset());
}

/// Whether one join tests a pair as another does and asks for more behind it.
spec fn asks_for_more(
    l: TupleModel,
    r: TupleModel,
    some: LoopJoin,
    all: LoopJoin,
    keep: spec_fn(TupleModel) -> bool,
) -> bool {
    ((all.test)(l, r) == Ok::<bool, ErrorModel>(true)) == ((some.test)(l, r) == Ok::<
        bool,
        ErrorModel,
    >(true) && keep(join_pair::combined_row(l, r)))
}

proof fn lemma_contribution_filtered(
    l: TupleModel,
    right: Seq<TupleModel>,
    i: int,
    had: bool,
    had_all: bool,
    some: LoopJoin,
    all: LoopJoin,
    keep: spec_fn(TupleModel) -> bool,
)
    requires
        0 <= i <= right.len(),
        keeps_none(some.join_type),
        keeps_none(all.join_type),
        forall|j: int| 0 <= j < right.len() ==> asks_for_more(l, #[trigger] right[j], some, all, keep),
    ensures
        nested_loop::contribution(l, right, i, had, some).filter(keep) == nested_loop::contribution(
            l,
            right,
            i,
            had_all,
            all,
        ),
    decreases right.len() - i,
{
    filter::lemma_filter_none(keep);
    if i < right.len() {
        assert(asks_for_more(l, right[i], some, all, keep));
        let row = join_pair::combined_row(l, right[i]);
        lemma_contribution_filtered(l, right, i + 1, had, had_all, some, all, keep);
        lemma_contribution_filtered(l, right, i + 1, true, had_all, some, all, keep);
        lemma_contribution_filtered(l, right, i + 1, true, true, some, all, keep);
        let rest = nested_loop::contribution(l, right, i + 1, true, some);
        Seq::filter_distributes_over_add(seq![row], rest, keep);
        filter::lemma_filter_one(row, keep);
        assert(Seq::<TupleModel>::empty() + rest.filter(keep) =~= rest.filter(keep));
    }
}

proof fn lemma_contributions_filtered(
    left: Seq<TupleModel>,
    right: Seq<TupleModel>,
    some: LoopJoin,
    all: LoopJoin,
    keep: spec_fn(TupleModel) -> bool,
)
    requires
        keeps_none(some.join_type),
        keeps_none(all.join_type),
        forall|i: int, j: int|
            0 <= i < left.len() && 0 <= j < right.len() ==> asks_for_more(
                #[trigger] left[i],
                #[trigger] right[j],
                some,
                all,
                keep,
            ),
    ensures
        nested_loop::contributions(left, right, some).filter(keep) == nested_loop::contributions(
            left,
            right,
            all,
        ),
    decreases left.len(),
{
    filter::lemma_filter_none(keep);
    if left.len() > 0 {
        let rest = left.drop_first();
        assert forall|i: int, j: int|
            0 <= i < rest.len() && 0 <= j < right.len() implies asks_for_more(
            #[trigger] rest[i],
            #[trigger] right[j],
            some,
            all,
            keep,
        ) by {
            assert(rest[i] == left[i + 1]);
        }
        lemma_contributions_filtered(rest, right, some, all, keep);
        assert forall|j: int| 0 <= j < right.len() implies asks_for_more(
            left[0],
            #[trigger] right[j],
            some,
            all,
            keep,
        ) by {}
        lemma_contribution_filtered(left[0], right, 0, false, false, some, all, keep);
        Seq::filter_distributes_over_add(
            nested_loop::contribution(left[0], right, 0, false, some),
            nested_loop::contributions(rest, right, some),
            keep,
        );
    }
}

/// Whether a row is a pair of rows that were joined.
spec fn is_joined_pair(
    row: TupleModel,
    left: Seq<TupleModel>,
    right: Seq<TupleModel>,
    whole: LoopJoin,
) -> bool {
    exists|i: int, j: int|
        0 <= i < left.len() && 0 <= j < right.len() && row == join_pair::combined_row(
            #[trigger] left[i],
            #[trigger] right[j],
        ) && (whole.test)(left[i], right[j]) == Ok::<bool, ErrorModel>(true)
}

proof fn lemma_contribution_rows(
    left: Seq<TupleModel>,
    n: int,
    right: Seq<TupleModel>,
    i: int,
    had: bool,
    whole: LoopJoin,
)
    requires
        0 <= n < left.len(),
        0 <= i <= right.len(),
        keeps_none(whole.join_type),
    ensures
        forall|x: int|
            0 <= x < nested_loop::contribution(left[n], right, i, had, whole).len()
                ==> is_joined_pair(
                #[trigger] nested_loop::contribution(left[n], right, i, had, whole)[x],
                left,
                right,
                whole,
            ),
    decreases right.len() - i,
{
    if i < right.len() {
        let here = nested_loop::contribution(left[n], right, i, had, whole);
        let joined = (whole.test)(left[n], right[i]) == Ok::<bool, ErrorModel>(true);
        let rest = nested_loop::contribution(left[n], right, i + 1, had || joined, whole);
        lemma_contribution_rows(left, n, right, i + 1, had || joined, whole);
        assert forall|x: int| 0 <= x < here.len() implies is_joined_pair(
            #[trigger] here[x],
            left,
            right,
            whole,
        ) by {
            if joined {
                if x == 0 {
                    assert(here[x] == join_pair::combined_row(left[n], right[i]));
                } else {
                    assert(here[x] == rest[x - 1]);
                }
            } else {
                assert(here[x] == rest[x]);
            }
        }
    }
}

proof fn lemma_contributions_rows(
    left: Seq<TupleModel>,
    n: int,
    right: Seq<TupleModel>,
    whole: LoopJoin,
)
    requires
        0 <= n <= left.len(),
        keeps_none(whole.join_type),
    ensures
        forall|x: int|
            0 <= x < nested_loop::contributions(left.skip(n), right, whole).len()
                ==> is_joined_pair(
                #[trigger] nested_loop::contributions(left.skip(n), right, whole)[x],
                left,
                right,
                whole,
            ),
    decreases left.len() - n,
{
    if n < left.len() {
        let here = nested_loop::contributions(left.skip(n), right, whole);
        let own = nested_loop::contribution(left[n], right, 0, false, whole);
        let rest = nested_loop::contributions(left.skip(n + 1), right, whole);
        assert(left.skip(n)[0] == left[n]);
        assert(left.skip(n).drop_first() =~= left.skip(n + 1));
        assert(here == own + rest);
        lemma_contribution_rows(left, n, right, 0, false, whole);
        lemma_contributions_rows(left, n + 1, right, whole);
        assert forall|x: int| 0 <= x < here.len() implies is_joined_pair(
            #[trigger] here[x],
            left,
            right,
            whole,
        ) by {
            if x < own.len() {
                assert(here[x] == own[x]);
            } else {
                assert(here[x] == rest[x - own.len()]);
            }
        }
    }
}

/// Whether two inputs can be joined by the keys of a condition: each row has a key whose
/// values are of given kinds, or none, and the keys take what the condition compares.
spec fn keys_serve(
    left: Relation,
    right: Relation,
    condition: ExprModel,
    params: Seq<ValueModel>,
    kinds: Seq<int>,
) -> bool {
    let lc = left.columns;
    let rc = right.columns;
    &&& join_agreement::keyed(left.rows.rows, planned_rule(condition, lc, rc, params, false), kinds)
    &&& join_agreement::keyed(right.rows.rows, planned_rule(condition, lc, rc, params, true), kinds)
    &&& forall|i: int, j: int|
        0 <= i < left.rows.rows.len() && 0 <= j < right.rows.rows.len() ==> reads_alike(
            condition,
            lc,
            rc,
            params,
            (#[trigger] left.rows.rows[i]).values,
            (#[trigger] right.rows.rows[j]).values,
        )
}

/// The test of every pair by the whole condition.
pub open spec fn whole_join(
    left: Relation,
    right: Relation,
    join_type: JoinType,
    condition: ExprModel,
    params: Seq<ValueModel>,
) -> LoopJoin {
    join_agreement::loop_join_of(left.columns, right.columns, join_type, condition, params)
}

/// The test of every pair by the keys alone.
spec fn key_join(left: Relation, right: Relation, join_type: JoinType, lr: KeyRule, rr: KeyRule) -> LoopJoin {
    LoopJoin {
        test: |l: TupleModel, r: TupleModel| Ok::<bool, ErrorModel>(keys_join(l, r, lr, rr)),
        join_type,
        left_width: left.columns.len(),
        right_width: right.columns.len(),
    }
}

spec fn planned_join(
    left: Relation,
    right: Relation,
    join_type: JoinType,
    condition: ExprModel,
    residual: Option<ExprModel>,
    terms: JoinTerms,
    keyless: Seq<TupleModel>,
) -> HashJoin {
    let plan = join_keys::planned(condition, left.columns, right.columns);
    hash_join::hash_join_of(
        left.columns,
        right.columns,
        join_type,
        plan.equi,
        residual,
        terms.params,
        join_build::planned_keys(plan),
        terms.side,
        None,
        keyless,
    )
}

proof fn lemma_whole_alike(
    left: Relation,
    right: Relation,
    join_type: JoinType,
    condition: ExprModel,
    residual: Option<ExprModel>,
    terms: JoinTerms,
    keyless: Seq<TupleModel>,
    kinds: Seq<int>,
)
    requires
        ({
            let plan = join_keys::planned(condition, left.columns, right.columns);
            &&& plan.equi is Some
            &&& residual == plan.residual
            &&& join_pair::keeps_right(join_type) ==> residual is None
        }),
        keys_serve(left, right, condition, terms.params, kinds),
        nested_loop::never_fails(
            left.rows.rows,
            right.rows.rows,
            whole_join(left, right, join_type, condition, terms.params),
        ),
    ensures
        hash_rows::speak_alike(
            left.rows.rows,
            right.rows.rows,
            whole_join(left, right, join_type, condition, terms.params),
            other_way(
                planned_join(left, right, join_type, condition, residual, terms, keyless),
                planned_rule(condition, left.columns, right.columns, terms.params, false),
            ),
            planned_rule(condition, left.columns, right.columns, terms.params, true),
        ),
{
    let ls = left.rows.rows;
    let rs = right.rows.rows;
    let lc = left.columns;
    let rc = right.columns;
    let lr = planned_rule(condition, lc, rc, terms.params, false);
    let rr = planned_rule(condition, lc, rc, terms.params, true);
    let whole = whole_join(left, right, join_type, condition, terms.params);
    let join = other_way(
        planned_join(left, right, join_type, condition, residual, terms, keyless),
        lr,
    );
    lemma_plan(condition, lc, rc);
    assert forall|i: int, j: int| 0 <= i < ls.len() && 0 <= j < rs.len() implies hash_rows::pair_alike(
        #[trigger] ls[i],
        #[trigger] rs[j],
        whole,
        join,
        rr,
    ) by {
        let l = ls[i];
        let r = rs[j];
        assert(join_agreement::key_fits(hash_join::row_key(lr, ls[i].values), kinds));
        assert(join_agreement::key_fits(hash_join::row_key(rr, rs[j].values), kinds));
        assert(reads_alike(condition, lc, rc, terms.params, ls[i].values, rs[j].values));
        assert(nested_loop::row_never_fails(ls[i], rs, whole));
        assert((whole.test)(l, rs[j]) is Ok);
        lemma_pair_means(condition, lc, rc, terms.params, l, r, kinds);
        if residual is None {
            assert((join.test)(l, r) == Ok::<bool, ErrorModel>(true));
        } else {
            assert((join.test)(l, r) == join_pair::condition_holds(
                evaluator::eval(residual->Some_0, lc + rc, terms.params, l.values + r.values),
            ));
        }
    }
}

proof fn lemma_keys_alike(
    left: Relation,
    right: Relation,
    join_type: JoinType,
    condition: ExprModel,
    terms: JoinTerms,
    keyless: Seq<TupleModel>,
)
    requires
        join_keys::planned(condition, left.columns, right.columns).equi is Some,
    ensures
        ({
            let lr = planned_rule(condition, left.columns, right.columns, terms.params, false);
            let rr = planned_rule(condition, left.columns, right.columns, terms.params, true);
            hash_rows::speak_alike(
                left.rows.rows,
                right.rows.rows,
                key_join(left, right, join_type, lr, rr),
                other_way(
                    planned_join(left, right, join_type, condition, None, terms, keyless),
                    lr,
                ),
                rr,
            )
        }),
{
    lemma_plan(condition, left.columns, right.columns);
}

/// What a planned join by keys gives, whichever side it holds in memory, are the rows
/// that testing every pair gives.
proof fn lemma_planned_rows(
    left: Relation,
    right: Relation,
    join_type: JoinType,
    condition: ExprModel,
    residual: Option<ExprModel>,
    terms: JoinTerms,
    kinds: Seq<int>,
    whole: LoopJoin,
    rel: Relation,
)
    requires
        join_type == JoinType::Inner || terms.side == HashJoinBuildSide::Right,
        join_keys::planned(condition, left.columns, right.columns).equi is Some,
        left.rows.end is None,
        right.rows.end is None,
        left.rows.rows.len() < usize::MAX,
        right.rows.rows.len() < usize::MAX,
        keys_serve(left, right, condition, terms.params, kinds),
        whole.join_type == join_type,
        whole.left_width == left.columns.len(),
        whole.right_width == right.columns.len(),
        forall|keyless: Seq<TupleModel>|
            hash_rows::speak_alike(
                left.rows.rows,
                right.rows.rows,
                whole,
                other_way(
                    #[trigger] planned_join(
                        left,
                        right,
                        join_type,
                        condition,
                        residual,
                        terms,
                        keyless,
                    ),
                    planned_rule(condition, left.columns, right.columns, terms.params, false),
                ),
                planned_rule(condition, left.columns, right.columns, terms.params, true),
            ),
        ({
            let plan = join_keys::planned(condition, left.columns, right.columns);
            join_build::hashed(
                left,
                right,
                join_type,
                plan.equi,
                residual,
                join_build::planned_keys(plan),
                None,
                left.columns + right.columns,
                terms,
            ) == Ok::<Relation, ErrorModel>(rel)
        }),
    ensures
        rel.columns == left.columns + right.columns,
        rel.rows.end is None,
        rel.rows.rows.to_multiset() == hash_rows::loop_rows(
            left.rows.rows,
            right.rows.rows,
            whole,
        ).to_multiset(),
{
    let ls = left.rows.rows;
    let rs = right.rows.rows;
    let lr = planned_rule(condition, left.columns, right.columns, terms.params, false);
    let rr = planned_rule(condition, left.columns, right.columns, terms.params, true);
    assert(left.rows =~= operator::just_rows(ls));
    assert(right.rows =~= operator::just_rows(rs));
    if terms.side == HashJoinBuildSide::Right {
        let t = hash_join::built(
            operator::just_rows(rs),
            hash_join::empty_table(),
            0,
            terms.limit,
            rr,
            join_pair::keeps_right(join_type),
        )->Ok_0;
        let join = planned_join(left, right, join_type, condition, residual, terms, t.keyless);
        assert(other_way(join, lr) == join);
        hash_rows::lemma_rows_by_key(ls, rs, terms.limit, whole, join, rr, kinds);
    } else {
        let t = hash_join::built(
            operator::just_rows(ls),
            hash_join::empty_table(),
            0,
            terms.limit,
            lr,
            false,
        )->Ok_0;
        let join = planned_join(left, right, join_type, condition, residual, terms, t.keyless);
        assert(join.probe == rr);
        lemma_inner_rows_on_left(ls, rs, terms.limit, whole, join, lr, kinds);
        let given = nested_loop::contributions(ls, rs, whole);
        assert(given + Seq::<TupleModel>::empty() =~= given);
    }
}

/// A filter by what is left of the condition, over the rows that the keys join, leaves
/// the rows that the whole condition joins.
proof fn lemma_filtered_rows(
    left: Relation,
    right: Relation,
    join_type: JoinType,
    condition: ExprModel,
    terms: JoinTerms,
    kinds: Seq<int>,
    rel: Relation,
)
    requires
        keeps_none(join_type),
        ({
            let plan = join_keys::planned(condition, left.columns, right.columns);
            plan.equi is Some && plan.residual is Some
        }),
        keys_serve(left, right, condition, terms.params, kinds),
        nested_loop::never_fails(
            left.rows.rows,
            right.rows.rows,
            whole_join(left, right, join_type, condition, terms.params),
        ),
        rel.columns == left.columns + right.columns,
        rel.rows.end is None,
        rel.rows.rows.to_multiset() == nested_loop::contributions(
            left.rows.rows,
            right.rows.rows,
            key_join(
                left,
                right,
                join_type,
                planned_rule(condition, left.columns, right.columns, terms.params, false),
                planned_rule(condition, left.columns, right.columns, terms.params, true),
            ),
        ).to_multiset(),
    ensures
        ({
            let residual = join_keys::planned(
                condition,
                left.columns,
                right.columns,
            ).residual->Some_0;
            let out = filter::filtered(rel.rows, residual, rel.columns, terms.params);
            &&& out.end is None
            &&& out.rows.to_multiset() == nested_loop::contributions(
                left.rows.rows,
                right.rows.rows,
                whole_join(left, right, join_type, condition, terms.params),
            ).to_multiset()
        }),
{
    let ls = left.rows.rows;
    let rs = right.rows.rows;
    let lc = left.columns;
    let rc = right.columns;
    let params = terms.params;
    let lr = planned_rule(condition, lc, rc, params, false);
    let rr = planned_rule(condition, lc, rc, params, true);
    let by_key = key_join(left, right, join_type, lr, rr);
    let whole = whole_join(left, right, join_type, condition, params);
    let residual = join_keys::planned(condition, lc, rc).residual->Some_0;
    let keep = filter::true_on(residual, lc + rc, params);
    assert forall|i: int, j: int| 0 <= i < ls.len() && 0 <= j < rs.len() implies asks_for_more(
        #[trigger] ls[i],
        #[trigger] rs[j],
        by_key,
        whole,
        keep,
    ) && (keys_join(ls[i], rs[j], lr, rr) ==> filter::is_answered(
        residual,
        lc + rc,
        params,
        join_pair::combined_row(ls[i], rs[j]),
    )) by {
        assert(join_agreement::key_fits(hash_join::row_key(lr, ls[i].values), kinds));
        assert(join_agreement::key_fits(hash_join::row_key(rr, rs[j].values), kinds));
        assert(reads_alike(condition, lc, rc, params, ls[i].values, rs[j].values));
        assert(nested_loop::row_never_fails(ls[i], rs, whole));
        assert((whole.test)(ls[i], rs[j]) is Ok);
        lemma_pair_means(condition, lc, rc, params, ls[i], rs[j], kinds);
    }
    let all = nested_loop::contributions(ls, rs, by_key);
    lemma_contributions_filtered(ls, rs, by_key, whole, keep);
    assert(ls.skip(0) =~= ls);
    lemma_contributions_rows(ls, 0, rs, by_key);
    assert forall|x: int| 0 <= x < rel.rows.rows.len() implies filter::is_answered(
        residual,
        lc + rc,
        params,
        #[trigger] rel.rows.rows[x],
    ) by {
        lemma_same_members(rel.rows.rows, all, x);
        let y = choose|y: int| 0 <= y < all.len() && all[y] == rel.rows.rows[x];
        assert(is_joined_pair(all[y], ls, rs, by_key));
        let (i, j) = choose|i: int, j: int|
            0 <= i < ls.len() && 0 <= j < rs.len() && all[y] == join_pair::combined_row(
                #[trigger] ls[i],
                #[trigger] rs[j],
            ) && (by_key.test)(ls[i], rs[j]) == Ok::<bool, ErrorModel>(true);
        assert(asks_for_more(ls[i], rs[j], by_key, whole, keep));
    }
    let n = rel.rows.rows.len();
    filter::law_a_filter_keeps_the_true_rows(rel.rows, n, residual, lc + rc, params);
    assert(rel.rows.rows.take(n as int) =~= rel.rows.rows);
    lemma_filter_same(rel.rows.rows, all, keep);
}

pub proof fn lemma_same_members(a: Seq<TupleModel>, b: Seq<TupleModel>, x: int)
    requires
        a.to_multiset() == b.to_multiset(),
        0 <= x < a.len(),
    ensures
        exists|y: int| 0 <= y < b.len() && b[y] == a[x],
{
    broadcast use vstd::seq_lib::group_to_multiset_ensures;

    assert(a.contains(a[x]));
    assert(a.to_multiset().count(a[x]) > 0);
    assert(b.to_multiset().count(a[x]) > 0);
    assert(b.contains(a[x]));
}

/// Whether the rows of a relation are, each as often, those that testing the whole
/// condition on every pair gives.
pub open spec fn joins_the_pairs(
    rel: Relation,
    left: Relation,
    right: Relation,
    join_type: JoinType,
    condition: ExprModel,
    params: Seq<ValueModel>,
) -> bool {
    &&& rel.columns == left.columns + right.columns
    &&& rel.rows.end is None
    &&& rel.rows.rows.to_multiset() == hash_rows::loop_rows(
        left.rows.rows,
        right.rows.rows,
        whole_join(left, right, join_type, condition, params),
    ).to_multiset()
}

proof fn lemma_join_by_keys(
    left: Relation,
    right: Relation,
    join_type: JoinType,
    condition: ExprModel,
    terms: JoinTerms,
    kinds: Seq<int>,
)
    requires
        join_type == JoinType::Inner || terms.side == HashJoinBuildSide::Right,
        left.rows.end is None,
        right.rows.end is None,
        left.rows.rows.len() < usize::MAX,
        right.rows.rows.len() < usize::MAX,
        !join_keys::needs_nested_loop(
            join_keys::planned(condition, left.columns, right.columns),
            join_type,
        ),
        keys_serve(left, right, condition, terms.params, kinds),
        nested_loop::never_fails(
            left.rows.rows,
            right.rows.rows,
            whole_join(left, right, join_type, condition, terms.params),
        ),
        join_build::joined_on(left, right, join_type, condition, terms) is Ok,
    ensures
        joins_the_pairs(
            join_build::joined_on(left, right, join_type, condition, terms)->Ok_0,
            left,
            right,
            join_type,
            condition,
            terms.params,
        ),
{
    let lc = left.columns;
    let rc = right.columns;
    let plan = join_keys::planned(condition, lc, rc);
    let whole = whole_join(left, right, join_type, condition, terms.params);
    let inside = if join_type == JoinType::Left {
        plan.residual
    } else {
        None
    };
    let rel = join_build::hashed(
        left,
        right,
        join_type,
        plan.equi,
        inside,
        join_build::planned_keys(plan),
        None,
        lc + rc,
        terms,
    )->Ok_0;
    if join_type == JoinType::Left || plan.residual is None {
        assert forall|keyless: Seq<TupleModel>| hash_rows::speak_alike(
            left.rows.rows,
            right.rows.rows,
            whole,
            other_way(
                #[trigger] planned_join(left, right, join_type, condition, inside, terms, keyless),
                planned_rule(condition, lc, rc, terms.params, false),
            ),
            planned_rule(condition, lc, rc, terms.params, true),
        ) by {
            lemma_whole_alike(
                left,
                right,
                join_type,
                condition,
                inside,
                terms,
                keyless,
                kinds,
            );
        }
        lemma_planned_rows(left, right, join_type, condition, inside, terms, kinds, whole, rel);
    } else {
        let lr = planned_rule(condition, lc, rc, terms.params, false);
        let rr = planned_rule(condition, lc, rc, terms.params, true);
        let by_key = key_join(left, right, join_type, lr, rr);
        assert forall|keyless: Seq<TupleModel>| hash_rows::speak_alike(
            left.rows.rows,
            right.rows.rows,
            by_key,
            other_way(
                #[trigger] planned_join(left, right, join_type, condition, None, terms, keyless),
                lr,
            ),
            rr,
        ) by {
            lemma_keys_alike(left, right, join_type, condition, terms, keyless);
        }
        lemma_planned_rows(left, right, join_type, condition, None, terms, kinds, by_key, rel);
        let some = nested_loop::contributions(left.rows.rows, right.rows.rows, by_key);
        assert(some + Seq::<TupleModel>::empty() =~= some);
        lemma_filtered_rows(left, right, join_type, condition, terms, kinds, rel);
        let all = nested_loop::contributions(left.rows.rows, right.rows.rows, whole);
        assert(all + Seq::<TupleModel>::empty() =~= all);
    }
}

proof fn lemma_join_by_loop(
    left: Relation,
    right: Relation,
    join_type: JoinType,
    condition: ExprModel,
    terms: JoinTerms,
)
    requires
        left.rows.end is None,
        right.rows.end is None,
        nested_loop::never_fails(
            left.rows.rows,
            right.rows.rows,
            whole_join(left, right, join_type, condition, terms.params),
        ),
        join_build::looped(left, right, join_type, Some(condition), terms) is Ok,
    ensures
        joins_the_pairs(
            join_build::looped(left, right, join_type, Some(condition), terms)->Ok_0,
            left,
            right,
            join_type,
            condition,
            terms.params,
        ),
{
    assert(left.rows =~= operator::just_rows(left.rows.rows));
    join_agreement::lemma_loaded_are_all(right.rows, 0, terms.limit);
    nested_loop::law_nested_loop_rows(
        left.rows.rows,
        right.rows.rows,
        whole_join(left, right, join_type, condition, terms.params),
    );
}

/// Whether an expression reads one input only, and each column that it names is the same
/// one among the columns of that input and among those of both.
pub open spec fn reads_side(
    e: ExprModel,
    left: Seq<ColumnModel>,
    right: Seq<ColumnModel>,
    on_left: bool,
) -> bool
    decreases e,
{
    match e {
        ExprModel::Column { table, name } => match join_keys::on_side(
            join_keys::key_ref(table, name, left, right),
            on_left,
        ) {
            Some(i) => schema::qualified_index(left + right, table, name) == Some(
                if on_left {
                    i
                } else {
                    (left.len() + i) as usize
                },
            ),
            None => false,
        },
        ExprModel::BoundColumn { .. } => false,
        ExprModel::BinaryExpr { left: a, op, right: b } => reads_side(*a, left, right, on_left)
            && reads_side(*b, left, right, on_left),
        ExprModel::UnaryExpr { op, expr } => reads_side(*expr, left, right, on_left),
        ExprModel::IsNull { expr, is_null } => reads_side(*expr, left, right, on_left),
        ExprModel::Between { expr, low, high, negated } => reads_side(*expr, left, right, on_left)
            && reads_side(*low, left, right, on_left) && reads_side(*high, left, right, on_left),
        ExprModel::InList { expr, list, negated } => reads_side(*expr, left, right, on_left) && (
        forall|i: int|
            0 <= i < list.len() ==> reads_side(#[trigger] list[i], left, right, on_left)),
        ExprModel::InSet { expr, values, negated } => reads_side(*expr, left, right, on_left),
        ExprModel::Case { expr, when_then, else_result } => {
            &&& expr matches Some(b) ==> reads_side(*b, left, right, on_left)
            &&& forall|i: int|
                0 <= i < when_then.len() ==> reads_side(
                    (#[trigger] when_then[i]).0,
                    left,
                    right,
                    on_left,
                ) && reads_side(when_then[i].1, left, right, on_left)
            &&& else_result matches Some(b) ==> reads_side(*b, left, right, on_left)
        },
        ExprModel::ArraySubscript { array, index } => reads_side(*array, left, right, on_left)
            && reads_side(*index, left, right, on_left),
        _ => true,
    }
}

/// The columns of one input.
spec fn side_of(left: Seq<ColumnModel>, right: Seq<ColumnModel>, on_left: bool) -> Seq<ColumnModel> {
    if on_left {
        left
    } else {
        right
    }
}

/// The row of one input.
spec fn row_of(l: Seq<ValueModel>, r: Seq<ValueModel>, on_left: bool) -> Seq<ValueModel> {
    if on_left {
        l
    } else {
        r
    }
}

/// Whether a pair of rows has a value for each column.
spec fn pair_fits(
    left: Seq<ColumnModel>,
    right: Seq<ColumnModel>,
    l: Seq<ValueModel>,
    r: Seq<ValueModel>,
) -> bool {
    &&& l.len() == left.len()
    &&& r.len() == right.len()
    &&& left.len() + right.len() <= usize::MAX
}

proof fn lemma_resolved_in_range(
    cols: Seq<ColumnModel>,
    qualifier: Option<Seq<char>>,
    name: Seq<char>,
    tier: DirectJoinQualifierTier,
    case: DirectJoinNameCase,
    from: int,
)
    requires
        0 <= from,
        cols.len() <= usize::MAX,
    ensures
        join_keys::first_meant(cols, qualifier, name, tier, case, from) matches Some(i) ==> i
            < cols.len(),
    decreases cols.len() - from,
{
    if from < cols.len() {
        lemma_resolved_in_range(cols, qualifier, name, tier, case, from + 1);
    }
}

proof fn lemma_resolved_unique(
    cols: Seq<ColumnModel>,
    qualifier: Option<Seq<char>>,
    name: Seq<char>,
    tier: DirectJoinQualifierTier,
    case: DirectJoinNameCase,
)
    requires
        cols.len() <= usize::MAX,
    ensures
        join_keys::unique_position(join_keys::resolved(cols, qualifier, name, tier, case)) matches Some(
            i,
        ) ==> i < cols.len(),
{
    lemma_resolved_in_range(cols, qualifier, name, tier, case, 0);
}

proof fn lemma_ref_in_range(
    table: Option<Seq<char>>,
    name: Seq<char>,
    left: Seq<ColumnModel>,
    right: Seq<ColumnModel>,
    on_left: bool,
)
    requires
        left.len() + right.len() <= usize::MAX,
    ensures
        join_keys::on_side(join_keys::key_ref(table, name, left, right), on_left) matches Some(i)
            ==> i < side_of(left, right, on_left).len(),
{
    match table {
        None => {
            schema::lemma_find_named(left, name, 0);
            schema::lemma_find_named(right, name, 0);
        },
        Some(q) => {
            let a = DirectJoinQualifierTier::Alias;
            let b = DirectJoinQualifierTier::RealName;
            let x = DirectJoinNameCase::Exact;
            let y = DirectJoinNameCase::IgnoreAsciiCase;
            lemma_resolved_unique(left, table, name, a, x);
            lemma_resolved_unique(left, table, name, a, y);
            lemma_resolved_unique(left, table, name, b, x);
            lemma_resolved_unique(left, table, name, b, y);
            lemma_resolved_unique(right, table, name, a, x);
            lemma_resolved_unique(right, table, name, a, y);
            lemma_resolved_unique(right, table, name, b, x);
            lemma_resolved_unique(right, table, name, b, y);
        },
    }
}

proof fn lemma_side_column(
    table: Option<Seq<char>>,
    name: Seq<char>,
    left: Seq<ColumnModel>,
    right: Seq<ColumnModel>,
    on_left: bool,
    params: Seq<ValueModel>,
    l: Seq<ValueModel>,
    r: Seq<ValueModel>,
)
    requires
        reads_side((ExprModel::Column { table, name }), left, right, on_left),
        pair_fits(left, right, l, r),
    ensures
        ({
            let e = ExprModel::Column { table, name };
            evaluator::eval(
                join_keys::bound_to_side(e, left, right, on_left),
                side_of(left, right, on_left),
                params,
                row_of(l, r, on_left),
            ) == evaluator::eval(e, left + right, params, l + r)
        }),
{
    lemma_ref_in_range(table, name, left, right, on_left);
    let i = join_keys::on_side(join_keys::key_ref(table, name, left, right), on_left)->Some_0;
    if on_left {
        assert((l + r)[i as int] == l[i as int]);
    } else {
        assert((l + r)[left.len() + i] == r[i as int]);
    }
}

proof fn lemma_side_case(
    e: ExprModel,
    left: Seq<ColumnModel>,
    right: Seq<ColumnModel>,
    on_left: bool,
    params: Seq<ValueModel>,
    l: Seq<ValueModel>,
    r: Seq<ValueModel>,
)
    requires
        e is Case,
        reads_side(e, left, right, on_left),
        pair_fits(left, right, l, r),
    ensures
        evaluator::eval(
            join_keys::bound_to_side(e, left, right, on_left),
            side_of(left, right, on_left),
            params,
            row_of(l, r, on_left),
        ) == evaluator::eval(e, left + right, params, l + r),
    decreases e, 0int,
{
    let subject = e->Case_expr;
    let branches = e->Case_when_then;
    let last = e->Case_else_result;
    let cols = side_of(left, right, on_left);
    let row = row_of(l, r, on_left);
    let bound = join_keys::bound_to_side(e, left, right, on_left);
    assert(bound is Case);
    assert(bound->Case_when_then == join_keys::branches_bound_to_side(
        branches,
        left,
        right,
        on_left,
    ));
    if let Some(b) = last {
        lemma_side_value(*b, left, right, on_left, params, l, r);
    }
    if let Some(b) = subject {
        lemma_side_value(*b, left, right, on_left, params, l, r);
        if let Ok(v) = evaluator::eval(*b, left + right, params, l + r) {
            lemma_side_branches(Some(v), branches, left, right, on_left, params, l, r);
        }
    } else {
        lemma_side_branches(None, branches, left, right, on_left, params, l, r);
    }
    evaluator::lemma_case_steps(bound, cols, params, row);
    evaluator::lemma_case_steps(e, left + right, params, l + r);
}

/// What an expression that reads one input gives there is what it gives on the pair.
proof fn lemma_side_value(
    e: ExprModel,
    left: Seq<ColumnModel>,
    right: Seq<ColumnModel>,
    on_left: bool,
    params: Seq<ValueModel>,
    l: Seq<ValueModel>,
    r: Seq<ValueModel>,
)
    requires
        reads_side(e, left, right, on_left),
        pair_fits(left, right, l, r),
    ensures
        evaluator::eval(
            join_keys::bound_to_side(e, left, right, on_left),
            side_of(left, right, on_left),
            params,
            row_of(l, r, on_left),
        ) == evaluator::eval(e, left + right, params, l + r),
    decreases e, 1int,
{
    match e {
        ExprModel::Column { table, name } => {
            lemma_side_column(table, name, left, right, on_left, params, l, r);
        },
        ExprModel::BinaryExpr { left: a, op, right: b } => {
            lemma_side_value(*a, left, right, on_left, params, l, r);
            lemma_side_value(*b, left, right, on_left, params, l, r);
        },
        ExprModel::UnaryExpr { op, expr } => {
            lemma_side_value(*expr, left, right, on_left, params, l, r);
        },
        ExprModel::IsNull { expr, is_null } => {
            lemma_side_value(*expr, left, right, on_left, params, l, r);
        },
        ExprModel::Between { expr, low, high, negated } => {
            lemma_side_value(*expr, left, right, on_left, params, l, r);
            lemma_side_value(*low, left, right, on_left, params, l, r);
            lemma_side_value(*high, left, right, on_left, params, l, r);
        },
        ExprModel::InList { expr, list, negated } => {
            lemma_side_value(*expr, left, right, on_left, params, l, r);
            lemma_side_list(list, left, right, on_left, params, l, r);
        },
        ExprModel::InSet { expr, values, negated } => {
            lemma_side_value(*expr, left, right, on_left, params, l, r);
        },
        ExprModel::Case { expr, when_then, else_result } => {
            lemma_side_case(e, left, right, on_left, params, l, r);
        },
        ExprModel::ArraySubscript { array, index } => {
            lemma_side_value(*array, left, right, on_left, params, l, r);
            lemma_side_value(*index, left, right, on_left, params, l, r);
        },
        _ => {},
    }
}

proof fn lemma_side_list(
    list: Seq<ExprModel>,
    left: Seq<ColumnModel>,
    right: Seq<ColumnModel>,
    on_left: bool,
    params: Seq<ValueModel>,
    l: Seq<ValueModel>,
    r: Seq<ValueModel>,
)
    requires
        forall|i: int| 0 <= i < list.len() ==> reads_side(#[trigger] list[i], left, right, on_left),
        pair_fits(left, right, l, r),
    ensures
        evaluator::eval_all(
            join_keys::all_bound_to_side(list, left, right, on_left),
            side_of(left, right, on_left),
            params,
            row_of(l, r, on_left),
        ) == evaluator::eval_all(list, left + right, params, l + r),
    decreases list,
{
    if list.len() > 0 {
        let rest = list.drop_last();
        let bound = join_keys::all_bound_to_side(list, left, right, on_left);
        assert(bound.drop_last() =~= join_keys::all_bound_to_side(rest, left, right, on_left));
        assert(bound.last() == join_keys::bound_to_side(list.last(), left, right, on_left));
        assert forall|i: int| 0 <= i < rest.len() implies reads_side(
            #[trigger] rest[i],
            left,
            right,
            on_left,
        ) by {
            assert(rest[i] == list[i]);
        }
        lemma_side_list(rest, left, right, on_left, params, l, r);
        lemma_side_value(list[list.len() - 1], left, right, on_left, params, l, r);
    }
}

proof fn lemma_side_branches(
    subject: Option<ValueModel>,
    branches: Seq<(ExprModel, ExprModel)>,
    left: Seq<ColumnModel>,
    right: Seq<ColumnModel>,
    on_left: bool,
    params: Seq<ValueModel>,
    l: Seq<ValueModel>,
    r: Seq<ValueModel>,
)
    requires
        forall|i: int|
            0 <= i < branches.len() ==> reads_side(
                (#[trigger] branches[i]).0,
                left,
                right,
                on_left,
            ) && reads_side(branches[i].1, left, right, on_left),
        pair_fits(left, right, l, r),
    ensures
        evaluator::first_branch(
            subject,
            join_keys::branches_bound_to_side(branches, left, right, on_left),
            side_of(left, right, on_left),
            params,
            row_of(l, r, on_left),
        ) == evaluator::first_branch(subject, branches, left + right, params, l + r),
    decreases branches,
{
    if branches.len() > 0 {
        let rest = branches.drop_first();
        let bound = join_keys::branches_bound_to_side(branches, left, right, on_left);
        assert(bound.drop_first() =~= join_keys::branches_bound_to_side(
            rest,
            left,
            right,
            on_left,
        ));
        assert(bound[0] == (
            join_keys::bound_to_side(branches[0].0, left, right, on_left),
            join_keys::bound_to_side(branches[0].1, left, right, on_left),
        ));
        assert forall|i: int| 0 <= i < rest.len() implies reads_side(
            (#[trigger] rest[i]).0,
            left,
            right,
            on_left,
        ) && reads_side(rest[i].1, left, right, on_left) by {
            assert(rest[i] == branches[i + 1]);
        }
        assert(reads_side(branches[0].0, left, right, on_left));
        lemma_side_value(branches[0].0, left, right, on_left, params, l, r);
        lemma_side_value(branches[0].1, left, right, on_left, params, l, r);
        lemma_side_branches(subject, rest, left, right, on_left, params, l, r);
    }
}

/// Whether one side of an equality reads the left input and the other one the right
/// input, each the one that its columns are found in.
pub open spec fn reads_both_sides(
    p: (ExprModel, ExprModel),
    left: Seq<ColumnModel>,
    right: Seq<ColumnModel>,
) -> bool {
    if join_keys::fits_side(p.0, left, right, true) && join_keys::fits_side(
        p.1,
        left,
        right,
        false,
    ) {
        reads_side(p.0, left, right, true) && reads_side(p.1, left, right, false)
    } else {
        reads_side(p.1, left, right, true) && reads_side(p.0, left, right, false)
    }
}

/// Whether the columns of the keyed equalities of a condition are named without doubt.
pub open spec fn names_are_clear(
    condition: ExprModel,
    left: Seq<ColumnModel>,
    right: Seq<ColumnModel>,
) -> bool {
    forall|i: int|
        0 <= i < key_sides(condition, left, right).len() ==> reads_both_sides(
            #[trigger] key_sides(condition, left, right)[i],
            left,
            right,
        )
}

proof fn lemma_named_first(cols: Seq<ColumnModel>, name: Seq<char>, from: int)
    ensures
        join_keys::first_meant(
            cols,
            None,
            name,
            DirectJoinQualifierTier::Alias,
            DirectJoinNameCase::Exact,
            from,
        ) == schema::find_named(cols, name, from),
    decreases cols.len() - from,
{
    if 0 <= from < cols.len() {
        lemma_named_first(cols, name, from + 1);
    }
}

/// A column taken by position is the one that its name stands for.
proof fn lemma_direct_is_named(
    e: ExprModel,
    left: Seq<ColumnModel>,
    right: Seq<ColumnModel>,
)
    ensures
        join_keys::direct_side(e, left, right) matches Some(DirectJoinKeySide::Left(i)) ==> {
            &&& !reads_side(e, left, right, false)
            &&& reads_side(e, left, right, true) ==> join_keys::key_ref(
                e->Column_table,
                e->Column_name,
                left,
                right,
            ).0 == Some(i)
        },
        join_keys::direct_side(e, left, right) matches Some(DirectJoinKeySide::Right(i)) ==> {
            &&& !reads_side(e, left, right, true)
            &&& reads_side(e, left, right, false) ==> join_keys::key_ref(
                e->Column_table,
                e->Column_name,
                left,
                right,
            ).1 == Some(i)
        },
{
    if let ExprModel::Column { table, name } = e {
        if table is None {
            lemma_named_first(left, name, 0);
            lemma_named_first(right, name, 0);
        }
    }
}

/// What a column that reads one input gives on the pair.
proof fn lemma_column_value(
    e: ExprModel,
    left: Seq<ColumnModel>,
    right: Seq<ColumnModel>,
    on_left: bool,
    params: Seq<ValueModel>,
    l: Seq<ValueModel>,
    r: Seq<ValueModel>,
    i: usize,
)
    requires
        reads_side(e, left, right, on_left),
        pair_fits(left, right, l, r),
        e is Column,
        join_keys::on_side(
            join_keys::key_ref(e->Column_table, e->Column_name, left, right),
            on_left,
        ) == Some(i),
    ensures
        i < row_of(l, r, on_left).len(),
        evaluator::eval(e, left + right, params, l + r) == Ok::<ValueModel, ErrorModel>(
            row_of(l, r, on_left)[i as int],
        ),
{
    lemma_ref_in_range(e->Column_table, e->Column_name, left, right, on_left);
    lemma_side_value(e, left, right, on_left, params, l, r);
}

/// Where names are clear, the keys take from two rows what the condition compares on the
/// pair.
proof fn lemma_clear_names_read_alike(
    condition: ExprModel,
    left: Seq<ColumnModel>,
    right: Seq<ColumnModel>,
    params: Seq<ValueModel>,
    l: Seq<ValueModel>,
    r: Seq<ValueModel>,
)
    requires
        join_keys::planned(condition, left, right).equi is Some,
        names_are_clear(condition, left, right),
        pair_fits(left, right, l, r),
    ensures
        reads_alike(condition, left, right, params, l, r),
{
    let plan = join_keys::planned(condition, left, right);
    let ops = key_sides(condition, left, right);
    let lr = planned_rule(condition, left, right, params, false);
    let rr = planned_rule(condition, left, right, params, true);
    lemma_plan(condition, left, right);
    assert forall|i: int| 0 <= i < ops.len() implies side_reads_alike(
        #[trigger] ops[i],
        left + right,
        params,
        l + r,
        key_value(lr, l, i),
        key_value(rr, r, i),
    ) by {
        let p = ops[i];
        assert(reads_both_sides(ops[i], left, right));
        match plan.direct {
            Some(d) => {
                assert(join_keys::direct_pair(ops[i], left, right) == Some((d.0[i], d.1[i])));
                lemma_direct_is_named(p.0, left, right);
                lemma_direct_is_named(p.1, left, right);
                if join_keys::direct_side(p.0, left, right) is Some && join_keys::direct_side(
                    p.0,
                    left,
                    right,
                )->Some_0 is Left {
                    lemma_column_value(p.0, left, right, true, params, l, r, d.0[i]);
                    lemma_column_value(p.1, left, right, false, params, l, r, d.1[i]);
                } else {
                    lemma_column_value(p.1, left, right, true, params, l, r, d.0[i]);
                    lemma_column_value(p.0, left, right, false, params, l, r, d.1[i]);
                }
            },
            None => {
                assert(join_keys::key_pair(ops[i].0, ops[i].1, left, right) == Some(
                    plan.pairs[i],
                ));
                if join_keys::fits_side(p.0, left, right, true) && join_keys::fits_side(
                    p.1,
                    left,
                    right,
                    false,
                ) {
                    lemma_side_value(p.0, left, right, true, params, l, r);
                    lemma_side_value(p.1, left, right, false, params, l, r);
                } else {
                    lemma_side_value(p.1, left, right, true, params, l, r);
                    lemma_side_value(p.0, left, right, false, params, l, r);
                }
            },
        }
    }
}

/// Whether each row of a relation has a value for each of its columns.
pub open spec fn rows_fit(r: Relation) -> bool {
    forall|i: int|
        0 <= i < r.rows.rows.len() ==> (#[trigger] r.rows.rows[i]).values.len() == r.columns.len()
}

/// Whether two inputs can be joined by the keys of a condition: the columns of the keyed
/// equalities are named without doubt, and each row has a key whose values are of given
/// kinds, or none where one of them is NULL.
pub open spec fn can_be_keyed(
    left: Relation,
    right: Relation,
    condition: ExprModel,
    params: Seq<ValueModel>,
    kinds: Seq<int>,
) -> bool {
    let lc = left.columns;
    let rc = right.columns;
    &&& rows_fit(left)
    &&& rows_fit(right)
    &&& lc.len() + rc.len() <= usize::MAX
    &&& names_are_clear(condition, lc, rc)
    &&& join_agreement::keyed(left.rows.rows, planned_rule(condition, lc, rc, params, false), kinds)
    &&& join_agreement::keyed(right.rows.rows, planned_rule(condition, lc, rc, params, true), kinds)
}

/// A join gives what its condition says, for every type of join and every condition: its
/// rows are, each as often, those that testing the whole condition on every pair gives,
/// with the rows without a partner that the join keeps. So it is where the condition fails
/// on no pair and the join fits its memory limit; a join by keys also takes it that the
/// keys can be compared, value by value, as the condition compares them.
pub proof fn law_a_join_gives_what_its_condition_says(
    left: Relation,
    right: Relation,
    join_type: JoinType,
    condition: ExprModel,
    terms: JoinTerms,
    kinds: Seq<int>,
)
    requires
        join_type == JoinType::Inner || terms.side == HashJoinBuildSide::Right,
        left.rows.end is None,
        right.rows.end is None,
        left.rows.rows.len() < usize::MAX,
        right.rows.rows.len() < usize::MAX,
        join_keys::needs_nested_loop(
            join_keys::planned(condition, left.columns, right.columns),
            join_type,
        ) || can_be_keyed(left, right, condition, terms.params, kinds),
        nested_loop::never_fails(
            left.rows.rows,
            right.rows.rows,
            whole_join(left, right, join_type, condition, terms.params),
        ),
        join_build::joined_on(left, right, join_type, condition, terms) is Ok,
    ensures
        joins_the_pairs(
            join_build::joined_on(left, right, join_type, condition, terms)->Ok_0,
            left,
            right,
            join_type,
            condition,
            terms.params,
        ),
{
    let plan = join_keys::planned(condition, left.columns, right.columns);
    if join_keys::needs_nested_loop(plan, join_type) {
        lemma_join_by_loop(left, right, join_type, condition, terms);
    } else {
        assert forall|i: int, j: int|
            0 <= i < left.rows.rows.len() && 0 <= j < right.rows.rows.len() implies reads_alike(
            condition,
            left.columns,
            right.columns,
            terms.params,
            (#[trigger] left.rows.rows[i]).values,
            (#[trigger] right.rows.rows[j]).values,
        ) by {
            lemma_clear_names_read_alike(
                condition,
                left.columns,
                right.columns,
                terms.params,
                left.rows.rows[i].values,
                right.rows.rows[j].values,
            );
        }
        lemma_join_by_keys(left, right, join_type, condition, terms, kinds);
    }
}

/// Where a row of a join comes from: a pair of rows, or one row without a partner.
pub enum Origin {
    Pair(int, int),
    LeftAlone(int),
    RightAlone(int),
}

/// Whether a condition is true on a pair of rows.
pub open spec fn is_true_pair(
    left: Relation,
    right: Relation,
    condition: ExprModel,
    params: Seq<ValueModel>,
    i: int,
    j: int,
) -> bool {
    &&& 0 <= i < left.rows.rows.len()
    &&& 0 <= j < right.rows.rows.len()
    &&& evaluator::eval(
        condition,
        left.columns + right.columns,
        params,
        left.rows.rows[i].values + right.rows.rows[j].values,
    ) == Ok::<ValueModel, ErrorModel>(ValueModel::Boolean(true))
}

/// Whether a row of a join is owed: a pair where the condition is true on it; a left row
/// alone, with a left or full join, where no pair with it is; a right row alone, with a
/// right or full join, where no pair with it is.
pub open spec fn is_owed(
    o: Origin,
    left: Relation,
    right: Relation,
    join_type: JoinType,
    condition: ExprModel,
    params: Seq<ValueModel>,
) -> bool {
    match o {
        Origin::Pair(i, j) => is_true_pair(left, right, condition, params, i, j),
        Origin::LeftAlone(i) => {
            &&& join_type == JoinType::Left || join_type == JoinType::Full
            &&& 0 <= i < left.rows.rows.len()
            &&& forall|j: int| !is_true_pair(left, right, condition, params, i, j)
        },
        Origin::RightAlone(j) => {
            &&& join_type == JoinType::Right || join_type == JoinType::Full
            &&& 0 <= j < right.rows.rows.len()
            &&& forall|i: int| !is_true_pair(left, right, condition, params, i, j)
        },
    }
}

/// The values of a row of a join: those of its two rows, NULL for each column of a row
/// that is missing.
pub open spec fn origin_values(o: Origin, left: Relation, right: Relation) -> Seq<ValueModel> {
    match o {
        Origin::Pair(i, j) => left.rows.rows[i].values + right.rows.rows[j].values,
        Origin::LeftAlone(i) => left.rows.rows[i].values + Seq::new(
            right.columns.len(),
            |k: int| ValueModel::Null,
        ),
        Origin::RightAlone(j) => Seq::new(left.columns.len(), |k: int| ValueModel::Null)
            + right.rows.rows[j].values,
    }
}

/// Whether rows are those that a join owes: each comes from an origin of its own, and
/// every origin that is owed has its row.
pub open spec fn are_owed_rows(
    rows: Seq<TupleModel>,
    origins: Seq<Origin>,
    left: Relation,
    right: Relation,
    join_type: JoinType,
    condition: ExprModel,
    params: Seq<ValueModel>,
) -> bool {
    &&& rows.len() == origins.len()
    &&& origins.no_duplicates()
    &&& forall|o: Origin| #[trigger]
        origins.contains(o) <==> is_owed(o, left, right, join_type, condition, params)
    &&& forall|n: int|
        0 <= n < rows.len() ==> (#[trigger] rows[n]).values == origin_values(
            origins[n],
            left,
            right,
        )
}

spec fn left_origins(
    left: Seq<TupleModel>,
    n: int,
    right: Seq<TupleModel>,
    i: int,
    had: bool,
    whole: LoopJoin,
) -> Seq<Origin>
    decreases right.len() - i,
{
    if i < 0 || i >= right.len() {
        if !had && join_pair::keeps_left(whole.join_type) {
            seq![Origin::LeftAlone(n)]
        } else {
            Seq::empty()
        }
    } else if joins(left, n, right, i, whole) {
        seq![Origin::Pair(n, i)] + left_origins(left, n, right, i + 1, true, whole)
    } else {
        left_origins(left, n, right, i + 1, had, whole)
    }
}

/// Whether a pair of rows is joined.
spec fn joins(
    left: Seq<TupleModel>,
    n: int,
    right: Seq<TupleModel>,
    i: int,
    whole: LoopJoin,
) -> bool {
    (whole.test)(left[n], right[i]) == Ok::<bool, ErrorModel>(true)
}

/// What a row of a join holds.
spec fn origin_row(
    o: Origin,
    left: Seq<TupleModel>,
    right: Seq<TupleModel>,
    whole: LoopJoin,
) -> TupleModel {
    match o {
        Origin::Pair(i, j) => join_pair::combined_row(left[i], right[j]),
        Origin::LeftAlone(i) => join_pair::left_alone(left[i], whole.right_width),
        Origin::RightAlone(j) => join_pair::right_alone(right[j], whole.left_width),
    }
}

/// Whether a left row, from one right row on, owes an origin.
spec fn left_owes(
    o: Origin,
    left: Seq<TupleModel>,
    n: int,
    right: Seq<TupleModel>,
    i: int,
    had: bool,
    whole: LoopJoin,
) -> bool {
    match o {
        Origin::Pair(a, b) => a == n && i <= b < right.len() && joins(left, n, right, b, whole),
        Origin::LeftAlone(a) => {
            &&& a == n
            &&& !had
            &&& join_pair::keeps_left(whole.join_type)
            &&& forall|b: int| i <= b < right.len() ==> !#[trigger] joins(left, n, right, b, whole)
        },
        Origin::RightAlone(_) => false,
    }
}

proof fn lemma_left_origins(
    left: Seq<TupleModel>,
    n: int,
    right: Seq<TupleModel>,
    i: int,
    had: bool,
    whole: LoopJoin,
)
    requires
        0 <= n < left.len(),
        0 <= i <= right.len(),
    ensures
        ({
            let os = left_origins(left, n, right, i, had, whole);
            let rows = nested_loop::contribution(left[n], right, i, had, whole);
            &&& os.len() == rows.len()
            &&& os.no_duplicates()
            &&& forall|o: Origin| #[trigger]
                os.contains(o) <==> left_owes(o, left, n, right, i, had, whole)
            &&& forall|x: int|
                0 <= x < rows.len() ==> #[trigger] rows[x] == origin_row(os[x], left, right, whole)
        }),
    decreases right.len() - i,
{
    let os = left_origins(left, n, right, i, had, whole);
    let rows = nested_loop::contribution(left[n], right, i, had, whole);
    if i == right.len() {
        if !had && join_pair::keeps_left(whole.join_type) {
            assert(os[0] == Origin::LeftAlone(n));
        }
    } else {
        let joined = joins(left, n, right, i, whole);
        lemma_left_origins(left, n, right, i + 1, had || joined, whole);
        let rest = left_origins(left, n, right, i + 1, had || joined, whole);
        let tail = nested_loop::contribution(left[n], right, i + 1, had || joined, whole);
        assert forall|o: Origin| #[trigger] os.contains(o) <==> left_owes(
            o,
            left,
            n,
            right,
            i,
            had,
            whole,
        ) by {
            if joined {
                lemma_contains_in_parts(seq![Origin::Pair(n, i)], rest, o);
                assert(seq![Origin::Pair(n, i)].contains(o) == (o == Origin::Pair(n, i))) by {
                    assert(seq![Origin::Pair(n, i)][0] == Origin::Pair(n, i));
                }
                assert(joins(left, n, right, i, whole));
            }
            assert(rest.contains(o) == left_owes(
                o,
                left,
                n,
                right,
                i + 1,
                had || joined,
                whole,
            ));
            if o is LeftAlone && left_owes(o, left, n, right, i + 1, had || joined, whole) {
                assert forall|b: int| i <= b < right.len() implies !#[trigger] joins(
                    left,
                    n,
                    right,
                    b,
                    whole,
                ) by {}
            }
        }
        if joined {
            assert(!rest.contains(Origin::Pair(n, i)));
            assert(os.no_duplicates()) by {
                assert forall|x: int, y: int|
                    0 <= x < os.len() && 0 <= y < os.len() && x != y implies os[x] != os[y] by {
                    if x > 0 {
                        assert(os[x] == rest[x - 1]);
                        assert(rest.contains(rest[x - 1]));
                    }
                    if y > 0 {
                        assert(os[y] == rest[y - 1]);
                        assert(rest.contains(rest[y - 1]));
                    }
                }
            }
        }
        assert forall|x: int| 0 <= x < rows.len() implies #[trigger] rows[x] == origin_row(
            os[x],
            left,
            right,
            whole,
        ) by {
            if joined {
                if x > 0 {
                    assert(rows[x] == tail[x - 1]);
                    assert(os[x] == rest[x - 1]);
                }
            } else {
                assert(rows[x] == tail[x]);
            }
        }
    }
}

proof fn lemma_contains_in_parts(a: Seq<Origin>, b: Seq<Origin>, o: Origin)
    ensures
        (a + b).contains(o) == (a.contains(o) || b.contains(o)),
{
    let all = a + b;
    if all.contains(o) {
        let x = choose|x: int| 0 <= x < all.len() && all[x] == o;
        if x < a.len() {
            assert(a[x] == o);
        } else {
            assert(b[x - a.len()] == o);
        }
    }
    if a.contains(o) {
        let x = choose|x: int| 0 <= x < a.len() && a[x] == o;
        assert(all[x] == o);
    }
    if b.contains(o) {
        let x = choose|x: int| 0 <= x < b.len() && b[x] == o;
        assert(all[a.len() + x] == o);
    }
}

proof fn lemma_parts_without_duplicates(a: Seq<Origin>, b: Seq<Origin>)
    requires
        a.no_duplicates(),
        b.no_duplicates(),
        forall|o: Origin| a.contains(o) ==> !#[trigger] b.contains(o),
    ensures
        (a + b).no_duplicates(),
{
    let all = a + b;
    assert forall|x: int, y: int|
        0 <= x < all.len() && 0 <= y < all.len() && x != y implies all[x] != all[y] by {
        if x < a.len() {
            assert(all[x] == a[x]);
            assert(a.contains(a[x]));
        } else {
            assert(all[x] == b[x - a.len()]);
            assert(b.contains(b[x - a.len()]));
        }
        if y < a.len() {
            assert(all[y] == a[y]);
            assert(a.contains(a[y]));
        } else {
            assert(all[y] == b[y - a.len()]);
            assert(b.contains(b[y - a.len()]));
        }
    }
}

spec fn all_left_origins(
    left: Seq<TupleModel>,
    n: int,
    right: Seq<TupleModel>,
    whole: LoopJoin,
) -> Seq<Origin>
    decreases left.len() - n,
{
    if n < 0 || n >= left.len() {
        Seq::empty()
    } else {
        left_origins(left, n, right, 0, false, whole) + all_left_origins(left, n + 1, right, whole)
    }
}

/// Whether one of the left rows, from one of them on, owes an origin.
spec fn some_left_owes(
    o: Origin,
    left: Seq<TupleModel>,
    n: int,
    right: Seq<TupleModel>,
    whole: LoopJoin,
) -> bool {
    let a = match o {
        Origin::Pair(a, _) => a,
        Origin::LeftAlone(a) => a,
        Origin::RightAlone(_) => -1,
    };
    n <= a < left.len() && left_owes(o, left, a, right, 0, false, whole)
}

proof fn lemma_all_left_origins(
    left: Seq<TupleModel>,
    n: int,
    right: Seq<TupleModel>,
    whole: LoopJoin,
)
    requires
        0 <= n <= left.len(),
    ensures
        ({
            let os = all_left_origins(left, n, right, whole);
            let rows = nested_loop::contributions(left.skip(n), right, whole);
            &&& os.len() == rows.len()
            &&& os.no_duplicates()
            &&& forall|o: Origin| #[trigger]
                os.contains(o) <==> some_left_owes(o, left, n, right, whole)
            &&& forall|x: int|
                0 <= x < rows.len() ==> #[trigger] rows[x] == origin_row(os[x], left, right, whole)
        }),
    decreases left.len() - n,
{
    let os = all_left_origins(left, n, right, whole);
    let rows = nested_loop::contributions(left.skip(n), right, whole);
    if n < left.len() {
        let own = left_origins(left, n, right, 0, false, whole);
        let rest = all_left_origins(left, n + 1, right, whole);
        let head = nested_loop::contribution(left[n], right, 0, false, whole);
        let tail = nested_loop::contributions(left.skip(n + 1), right, whole);
        assert(left.skip(n)[0] == left[n]);
        assert(left.skip(n).drop_first() =~= left.skip(n + 1));
        lemma_left_origins(left, n, right, 0, false, whole);
        lemma_all_left_origins(left, n + 1, right, whole);
        assert forall|o: Origin| #[trigger] os.contains(o) <==> some_left_owes(
            o,
            left,
            n,
            right,
            whole,
        ) by {
            lemma_contains_in_parts(own, rest, o);
            assert(own.contains(o) == left_owes(o, left, n, right, 0, false, whole));
            assert(rest.contains(o) == some_left_owes(o, left, n + 1, right, whole));
        }
        assert forall|o: Origin| own.contains(o) implies !#[trigger] rest.contains(o) by {
            assert(left_owes(o, left, n, right, 0, false, whole));
        }
        lemma_parts_without_duplicates(own, rest);
        assert forall|x: int| 0 <= x < rows.len() implies #[trigger] rows[x] == origin_row(
            os[x],
            left,
            right,
            whole,
        ) by {
            if x < head.len() {
                assert(rows[x] == head[x]);
                assert(os[x] == own[x]);
            } else {
                assert(rows[x] == tail[x - head.len()]);
                assert(os[x] == rest[x - head.len()]);
            }
        }
    } else {
        assert(left.skip(n) =~= Seq::<TupleModel>::empty());
    }
}

spec fn right_origins(matched: Seq<bool>, i: int) -> Seq<Origin>
    decreases matched.len() - i,
{
    if i < 0 || i >= matched.len() {
        Seq::empty()
    } else if matched[i] {
        right_origins(matched, i + 1)
    } else {
        seq![Origin::RightAlone(i)] + right_origins(matched, i + 1)
    }
}

proof fn lemma_right_origins(
    left: Seq<TupleModel>,
    right: Seq<TupleModel>,
    matched: Seq<bool>,
    i: int,
    whole: LoopJoin,
)
    requires
        matched.len() == right.len(),
        0 <= i <= right.len(),
    ensures
        ({
            let os = right_origins(matched, i);
            let rows = nested_loop::unmatched_right(right, matched, i, whole.left_width);
            &&& os.len() == rows.len()
            &&& os.no_duplicates()
            &&& forall|o: Origin| #[trigger]
                os.contains(o) <==> (o matches Origin::RightAlone(j) && i <= j < right.len()
                    && !matched[j])
            &&& forall|x: int|
                0 <= x < rows.len() ==> #[trigger] rows[x] == origin_row(os[x], left, right, whole)
        }),
    decreases right.len() - i,
{
    let os = right_origins(matched, i);
    let rows = nested_loop::unmatched_right(right, matched, i, whole.left_width);
    if i < right.len() {
        lemma_right_origins(left, right, matched, i + 1, whole);
        if !matched[i] {
            let rest = right_origins(matched, i + 1);
            let tail = nested_loop::unmatched_right(right, matched, i + 1, whole.left_width);
            let own = seq![Origin::RightAlone(i)];
            assert(own[0] == Origin::RightAlone(i));
            assert forall|o: Origin| #[trigger] os.contains(o) <==> (o matches Origin::RightAlone(j)
                && i <= j < right.len() && !matched[j]) by {
                lemma_contains_in_parts(own, rest, o);
                assert(own.contains(o) == (o == Origin::RightAlone(i)));
            }
            lemma_parts_without_duplicates(own, rest);
            assert forall|x: int| 0 <= x < rows.len() implies #[trigger] rows[x] == origin_row(
                os[x],
                left,
                right,
                whole,
            ) by {
                if x > 0 {
                    assert(rows[x] == tail[x - 1]);
                    assert(os[x] == rest[x - 1]);
                }
            }
        }
    }
}

/// Whether a relation has the columns of two others, ended well, and has exactly the rows
/// that their join owes.
#[verifier::opaque]
pub open spec fn gives_what_is_owed(
    rel: Relation,
    left: Relation,
    right: Relation,
    join_type: JoinType,
    condition: ExprModel,
    params: Seq<ValueModel>,
) -> bool {
    &&& rel.columns == left.columns + right.columns
    &&& rel.rows.end is None
    &&& exists|origins: Seq<Origin>| #[trigger]
        are_owed_rows(rel.rows.rows, origins, left, right, join_type, condition, params)
}

/// Testing the whole condition on every pair gives the rows that the join owes.
proof fn lemma_loop_rows_are_owed(
    left: Relation,
    right: Relation,
    join_type: JoinType,
    condition: ExprModel,
    params: Seq<ValueModel>,
) -> (origins: Seq<Origin>)
    ensures
        are_owed_rows(
            hash_rows::loop_rows(
                left.rows.rows,
                right.rows.rows,
                whole_join(left, right, join_type, condition, params),
            ),
            origins,
            left,
            right,
            join_type,
            condition,
            params,
        ),
{
    let ls = left.rows.rows;
    let rs = right.rows.rows;
    let whole = whole_join(left, right, join_type, condition, params);
    let first = all_left_origins(ls, 0, rs, whole);
    let matched = Seq::new(rs.len(), |j: int| nested_loop::has_partner(ls, rs[j], whole));
    let later = if join_pair::keeps_right(join_type) {
        right_origins(matched, 0)
    } else {
        Seq::empty()
    };
    let origins = first + later;
    let rows = hash_rows::loop_rows(ls, rs, whole);
    let given = nested_loop::contributions(ls, rs, whole);
    let lonely = nested_loop::lonely_right(ls, rs, whole);
    assert(ls.skip(0) =~= ls);
    lemma_all_left_origins(ls, 0, rs, whole);
    lemma_right_origins(ls, rs, matched, 0, whole);
    assert forall|i: int, j: int|
        0 <= i < ls.len() && 0 <= j < rs.len() implies #[trigger] is_true_pair(
        left,
        right,
        condition,
        params,
        i,
        j,
    ) == joins(ls, i, rs, j, whole) by {}
    assert forall|o: Origin| #[trigger] origins.contains(o) <==> is_owed(
        o,
        left,
        right,
        join_type,
        condition,
        params,
    ) by {
        lemma_contains_in_parts(first, later, o);
        assert(first.contains(o) == some_left_owes(o, ls, 0, rs, whole));
        match o {
            Origin::Pair(i, j) => {
                assert(is_true_pair(left, right, condition, params, i, j) == (0 <= i < ls.len() && 0
                    <= j < rs.len() && joins(ls, i, rs, j, whole)));
            },
            Origin::LeftAlone(i) => {
                if 0 <= i < ls.len() {
                    if is_owed(o, left, right, join_type, condition, params) {
                        assert forall|b: int| 0 <= b < rs.len() implies !#[trigger] joins(
                            ls,
                            i,
                            rs,
                            b,
                            whole,
                        ) by {
                            assert(!is_true_pair(left, right, condition, params, i, b));
                        }
                    }
                    if some_left_owes(o, ls, 0, rs, whole) {
                        assert forall|j: int| !is_true_pair(
                            left,
                            right,
                            condition,
                            params,
                            i,
                            j,
                        ) by {
                            if 0 <= j < rs.len() {
                                assert(!joins(ls, i, rs, j, whole));
                            }
                        }
                    }
                }
            },
            Origin::RightAlone(j) => {
                if 0 <= j < rs.len() {
                    if nested_loop::has_partner(ls, rs[j], whole) {
                        let i = choose|i: int|
                            0 <= i < ls.len() && (whole.test)(#[trigger] ls[i], rs[j]) == Ok::<
                                bool,
                                ErrorModel,
                            >(true);
                        assert(joins(ls, i, rs, j, whole));
                        assert(is_true_pair(left, right, condition, params, i, j));
                    } else {
                        assert forall|i: int| !is_true_pair(
                            left,
                            right,
                            condition,
                            params,
                            i,
                            j,
                        ) by {
                            if 0 <= i < ls.len() {
                                assert((whole.test)(ls[i], rs[j]) != Ok::<bool, ErrorModel>(true));
                                assert(!joins(ls, i, rs, j, whole));
                            }
                        }
                    }
                    assert(matched[j] == nested_loop::has_partner(ls, rs[j], whole));
                }
            },
        }
    }
    assert forall|o: Origin| first.contains(o) implies !#[trigger] later.contains(o) by {
        assert(some_left_owes(o, ls, 0, rs, whole));
    }
    lemma_parts_without_duplicates(first, later);
    assert forall|n: int| 0 <= n < rows.len() implies (#[trigger] rows[n]).values == origin_values(
        origins[n],
        left,
        right,
    ) by {
        if n < given.len() {
            assert(rows[n] == given[n]);
            assert(origins[n] == first[n]);
        } else {
            assert(rows[n] == lonely[n - given.len()]);
            assert(origins[n] == later[n - given.len()]);
        }
        assert(rows[n] == origin_row(origins[n], ls, rs, whole));
        assert(join_pair::nulls(right.columns.len()) =~= Seq::new(
            right.columns.len(),
            |k: int| ValueModel::Null,
        ));
        assert(join_pair::nulls(left.columns.len()) =~= Seq::new(
            left.columns.len(),
            |k: int| ValueModel::Null,
        ));
    }
    origins
}

/// Whether each row holds what its origin says.
spec fn rows_come_from(rows: Seq<TupleModel>, origins: Seq<Origin>, left: Relation, right: Relation) -> bool {
    &&& rows.len() == origins.len()
    &&& forall|n: int|
        0 <= n < rows.len() ==> (#[trigger] rows[n]).values == origin_values(
            origins[n],
            left,
            right,
        )
}

/// Rows in another order have the same origins, in another order.
proof fn lemma_reordered_origins(
    rows: Seq<TupleModel>,
    other: Seq<TupleModel>,
    origins: Seq<Origin>,
    left: Relation,
    right: Relation,
) -> (moved: Seq<Origin>)
    requires
        rows.to_multiset() == other.to_multiset(),
        rows_come_from(other, origins, left, right),
    ensures
        rows_come_from(rows, moved, left, right),
        moved.to_multiset() == origins.to_multiset(),
    decreases rows.len(),
{
    broadcast use vstd::seq_lib::group_to_multiset_ensures;

    assert(rows.to_multiset().len() == rows.len());
    assert(other.to_multiset().len() == other.len());
    if rows.len() == 0 {
        origins
    } else {
        let x = rows.last();
        let rest = rows.drop_last();
        lemma_same_members(rows, other, rows.len() - 1);
        let n = choose|n: int| 0 <= n < other.len() && other[n] == rows[rows.len() - 1];
        let others = other.remove(n);
        let kept = origins.remove(n);
        assert(rows =~= rest.push(x));
        assert(other =~= others.insert(n, x));
        assert(origins =~= kept.insert(n, origins[n]));
        assert(others.insert(n, x).to_multiset() =~= others.to_multiset().insert(x));
        assert(rest.to_multiset() =~= others.to_multiset());
        assert forall|m: int| 0 <= m < others.len() implies (#[trigger] others[m]).values
            == origin_values(kept[m], left, right) by {
            if m < n {
                assert(others[m] == other[m]);
            } else {
                assert(others[m] == other[m + 1]);
                assert(kept[m] == origins[m + 1]);
            }
        }
        let before = lemma_reordered_origins(rest, others, kept, left, right);
        let moved = before.push(origins[n]);
        assert(kept.insert(n, origins[n]).to_multiset() =~= kept.to_multiset().insert(origins[n]));
        assert(moved.to_multiset() =~= origins.to_multiset());
        assert forall|m: int| 0 <= m < rows.len() implies (#[trigger] rows[m]).values
            == origin_values(moved[m], left, right) by {
            if m < rest.len() {
                assert(rows[m] == rest[m]);
            } else {
                assert(other[n] == rows[m]);
            }
        }
        moved
    }
}

/// A join gives exactly the rows that it owes: one for each pair of rows on which its
/// whole condition is true; with a left or full join one for each left row without such
/// a pair, filled up with NULL; with a right or full join one for each right row without
/// such a pair; and no other row, and none twice.
pub proof fn law_a_join_gives_the_rows_it_owes(
    left: Relation,
    right: Relation,
    join_type: JoinType,
    condition: ExprModel,
    terms: JoinTerms,
    kinds: Seq<int>,
)
    requires
        join_type == JoinType::Inner || terms.side == HashJoinBuildSide::Right,
        left.rows.end is None,
        right.rows.end is None,
        left.rows.rows.len() < usize::MAX,
        right.rows.rows.len() < usize::MAX,
        join_keys::needs_nested_loop(
            join_keys::planned(condition, left.columns, right.columns),
            join_type,
        ) || can_be_keyed(left, right, condition, terms.params, kinds),
        forall|i: int, j: int|
            0 <= i < left.rows.rows.len() && 0 <= j < right.rows.rows.len() ==> evaluator::eval(
                condition,
                left.columns + right.columns,
                terms.params,
                (#[trigger] left.rows.rows[i]).values + (#[trigger] right.rows.rows[j]).values,
            ) is Ok,
        join_build::joined_on(left, right, join_type, condition, terms) is Ok,
    ensures
        gives_what_is_owed(
            join_build::joined_on(left, right, join_type, condition, terms)->Ok_0,
            left,
            right,
            join_type,
            condition,
            terms.params,
        ),
{
    reveal(gives_what_is_owed);
    let ls = left.rows.rows;
    let rs = right.rows.rows;
    let whole = whole_join(left, right, join_type, condition, terms.params);
    assert forall|i: int| 0 <= i < ls.len() implies nested_loop::row_never_fails(
        #[trigger] ls[i],
        rs,
        whole,
    ) by {
        assert forall|j: int| 0 <= j < rs.len() implies (whole.test)(ls[i], #[trigger] rs[j]) is Ok by {
            assert(evaluator::eval(
                condition,
                left.columns + right.columns,
                terms.params,
                ls[i].values + rs[j].values,
            ) is Ok);
        }
    }
    law_a_join_gives_what_its_condition_says(left, right, join_type, condition, terms, kinds);
    let rel = join_build::joined_on(left, right, join_type, condition, terms)->Ok_0;
    let owed = hash_rows::loop_rows(ls, rs, whole);
    let origins = lemma_loop_rows_are_owed(left, right, join_type, condition, terms.params);
    let moved = lemma_reordered_origins(rel.rows.rows, owed, origins, left, right);
    lemma_same_origins(origins, moved);
    assert(are_owed_rows(
        rel.rows.rows,
        moved,
        left,
        right,
        join_type,
        condition,
        terms.params,
    ));
}

proof fn lemma_same_origins(a: Seq<Origin>, b: Seq<Origin>)
    requires
        a.to_multiset() == b.to_multiset(),
        a.no_duplicates(),
    ensures
        b.no_duplicates(),
        forall|o: Origin| #[trigger] b.contains(o) == a.contains(o),
{
    broadcast use vstd::seq_lib::group_to_multiset_ensures;

    a.lemma_multiset_has_no_duplicates();
    b.lemma_multiset_has_no_duplicates_conv();
    assert forall|o: Origin| #[trigger] b.contains(o) == a.contains(o) by {
        assert(a.contains(o) == (a.to_multiset().count(o) > 0));
        assert(b.contains(o) == (b.to_multiset().count(o) > 0));
    }
}

/// The condition that is true on every pair.
pub open spec fn always() -> ExprModel {
    ExprModel::Literal(ValueModel::Boolean(true))
}

pub proof fn lemma_owed_whatever_the_order(
    rows: Seq<TupleModel>,
    left: Relation,
    right: Relation,
    join_type: JoinType,
    condition: ExprModel,
    params: Seq<ValueModel>,
)
    requires
        rows.to_multiset() == hash_rows::loop_rows(
            left.rows.rows,
            right.rows.rows,
            whole_join(left, right, join_type, condition, params),
        ).to_multiset(),
    ensures
        exists|origins: Seq<Origin>| #[trigger]
            are_owed_rows(rows, origins, left, right, join_type, condition, params),
{
    let owed = hash_rows::loop_rows(
        left.rows.rows,
        right.rows.rows,
        whole_join(left, right, join_type, condition, params),
    );
    let origins = lemma_loop_rows_are_owed(left, right, join_type, condition, params);
    let moved = lemma_reordered_origins(rows, owed, origins, left, right);
    lemma_same_origins(origins, moved);
    assert(are_owed_rows(rows, moved, left, right, join_type, condition, params));
}

/// A join without a condition gives every pair of rows once; where one input has no rows,
/// it gives the rows of the other one alone as far as the join keeps them.
pub proof fn law_a_join_without_a_condition_gives_every_pair(
    left: Relation,
    right: Relation,
    join_type: JoinType,
    terms: JoinTerms,
)
    requires
        terms.side == HashJoinBuildSide::Right,
        left.rows.end is None,
        right.rows.end is None,
        right.rows.rows.len() < usize::MAX,
        join_build::joined_all(left, right, join_type, terms) is Ok,
    ensures
        gives_what_is_owed(
            join_build::joined_all(left, right, join_type, terms)->Ok_0,
            left,
            right,
            join_type,
            always(),
            terms.params,
        ),
{
    reveal(gives_what_is_owed);
    let ls = left.rows.rows;
    let rs = right.rows.rows;
    let none = Seq::<(ExprModel, ExprModel)>::empty();
    let keys = hash_join::KeyChoice { direct: None, pairs: none, covered: true };
    let rule = hash_join::side_rule(None, none, true, right.columns, terms.params, true);
    let whole = whole_join(left, right, join_type, always(), terms.params);
    let t = hash_join::built(
        right.rows,
        hash_join::empty_table(),
        0,
        terms.limit,
        rule,
        join_pair::keeps_right(join_type),
    )->Ok_0;
    let join = hash_join::hash_join_of(
        left.columns,
        right.columns,
        join_type,
        None,
        None,
        terms.params,
        keys,
        terms.side,
        None,
        t.keyless,
    );
    assert(left.rows =~= operator::just_rows(ls));
    assert(right.rows =~= operator::just_rows(rs));
    assert(hash_rows::speak_alike(ls, rs, whole, join, rule));
    hash_rows::lemma_rows_by_key(ls, rs, terms.limit, whole, join, rule, Seq::empty());
    let rel = join_build::joined_all(left, right, join_type, terms)->Ok_0;
    lemma_owed_whatever_the_order(rel.rows.rows, left, right, join_type, always(), terms.params);
}

/// The condition that every pair is tested with.
pub open spec fn tested(on: Option<ExprModel>) -> ExprModel {
    match on {
        Some(c) => c,
        None => always(),
    }
}

/// A join that tests every pair gives the rows that it owes; without a condition every
/// pair passes.
pub proof fn law_a_join_that_tests_every_pair_gives_the_rows_it_owes(
    left: Relation,
    right: Relation,
    join_type: JoinType,
    on: Option<ExprModel>,
    terms: JoinTerms,
)
    requires
        left.rows.end is None,
        right.rows.end is None,
        on matches Some(c) ==> nested_loop::never_fails(
            left.rows.rows,
            right.rows.rows,
            whole_join(left, right, join_type, c, terms.params),
        ),
        join_build::looped(left, right, join_type, on, terms) is Ok,
    ensures
        gives_what_is_owed(
            join_build::looped(left, right, join_type, on, terms)->Ok_0,
            left,
            right,
            join_type,
            tested(on),
            terms.params,
        ),
{
    reveal(gives_what_is_owed);
    let ls = left.rows.rows;
    let rs = right.rows.rows;
    let c = tested(on);
    let whole = whole_join(left, right, join_type, c, terms.params);
    if on is None {
        assert forall|i: int| 0 <= i < ls.len() implies nested_loop::row_never_fails(
            #[trigger] ls[i],
            rs,
            whole,
        ) by {}
        let every = nested_loop::pair_tester(None, left.columns + right.columns, terms.params);
        assert(whole.test =~= every);
    }
    assert(left.rows =~= operator::just_rows(ls));
    join_agreement::lemma_loaded_are_all(right.rows, 0, terms.limit);
    nested_loop::law_nested_loop_rows(ls, rs, whole);
    let rel = join_build::looped(left, right, join_type, on, terms)->Ok_0;
    lemma_owed_whatever_the_order(rel.rows.rows, left, right, join_type, c, terms.params);
}

} // verus!
