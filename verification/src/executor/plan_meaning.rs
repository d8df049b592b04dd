//! What a plan gives, related to what its inputs give.

use crate::evaluator;
use crate::executor::filter;
use crate::executor::first_rows;
use crate::executor::hash_join::HashJoinBuildSide;
use crate::executor::join_build;
use crate::executor::join_keys;
use crate::executor::join_meaning;
use crate::executor::nested_loop;
use crate::executor::operator;
use crate::executor::project;
use crate::executor::scan;
use crate::executor::semantics;
use crate::executor::semantics::{Built, Ctes, JoinNode};
use crate::executor::set_ops;
use crate::executor::set_ops::SetOperation;
use crate::executor::sort;
use crate::executor::sources;
use crate::executor::sources::{CteModel, Env};
use crate::executor::storage_view;
use crate::executor::subquery;
use crate::executor::table_function;
use crate::logical_plan::{AsOfModel, ExprModel, JoinType, PlanModel};
use crate::schema::{ColumnModel, ErrorModel, TupleModel};
use crate::value::ValueModel;
use vstd::prelude::*;

verus! {

/// Whether a plan gave all its rows.
pub open spec fn ended_well(r: Result<Built, ErrorModel>) -> bool {
    r is Ok && r->Ok_0.rel.rows.end is None
}

/// The rows that a plan gave.
pub open spec fn rows_of(r: Result<Built, ErrorModel>) -> Seq<TupleModel> {
    r->Ok_0.rel.rows.rows
}

/// A sort gives the rows of its input, each as often, with the same columns; of any two
/// of them the first sort expression whose values differ says which comes first. It fails
/// where its input fails.
pub proof fn law_a_sort_orders_what_its_input_gives(
    input: PlanModel,
    exprs: Seq<ExprModel>,
    asc: Seq<bool>,
    env: Env,
    ctes: Ctes,
)
    ensures
        ({
            let below = semantics::run(input, env, ctes);
            let p = PlanModel::Sort { input: Box::new(input), exprs, asc };
            let sorted = semantics::run(p, env, ctes);
            &&& !ended_well(below) ==> sorted is Err
            &&& sorted is Ok ==> {
                let out = rows_of(sorted);
                let cols = below->Ok_0.rel.columns;
                &&& ended_well(sorted)
                &&& sorted->Ok_0.rel.columns == cols
                &&& sorted->Ok_0.ctes == below->Ok_0.ctes
                &&& sort::keys_without_nan(rows_of(below), exprs, cols, env.params) ==> {
                    &&& out.to_multiset() == rows_of(below).to_multiset()
                    &&& forall|x: int, y: int, i: int|
                        0 <= x < out.len() && 0 <= y < out.len() && #[trigger] sort::row_smaller_at(
                            out[x],
                            out[y],
                            exprs,
                            cols,
                            env.params,
                            i,
                        ) ==> (if sort::ascends(asc, i) {
                            x < y
                        } else {
                            y < x
                        })
                }
            }
        }),
{
    let below = semantics::run(input, env, ctes);
    let p = PlanModel::Sort { input: Box::new(input), exprs, asc };
    let sorted = semantics::run(p, env, ctes);
    if sorted is Ok {
        let cols = below->Ok_0.rel.columns;
        if sort::keys_without_nan(rows_of(below), exprs, cols, env.params) {
            sort::law_sorted_rows_follow_their_expressions(
                rows_of(below),
                exprs,
                asc,
                cols,
                env.params,
            );
        }
    }
}

/// A filter over rows that no index serves gives exactly the rows of its input on which
/// the predicate is true, unchanged and in order, where the predicate has an answer on
/// each of them.
pub proof fn law_a_filter_gives_the_rows_that_pass(
    input: PlanModel,
    predicate: ExprModel,
    m: ExprModel,
    env: Env,
    ctes: Ctes,
)
    requires
        semantics::scan_node(input) matches Some(n) ==> semantics::indexed(n, predicate, env, ctes)
            == Ok::<Option<operator::Relation>, ErrorModel>(None),
        ended_well(semantics::run(input, env, ctes)),
        !subquery::correlated(predicate, semantics::run(input, env, ctes)->Ok_0.rel.columns),
        semantics::materialized(predicate, env) == Ok::<ExprModel, ErrorModel>(m),
        forall|i: int|
            0 <= i < rows_of(semantics::run(input, env, ctes)).len() ==> filter::is_answered(
                m,
                semantics::run(input, env, ctes)->Ok_0.rel.columns,
                env.params,
                #[trigger] rows_of(semantics::run(input, env, ctes))[i],
            ),
    ensures
        ({
            let below = semantics::run(input, env, ctes);
            let p = PlanModel::Filter { input: Box::new(input), predicate };
            let kept = semantics::run(p, env, ctes);
            let cols = below->Ok_0.rel.columns;
            &&& ended_well(kept)
            &&& kept->Ok_0.rel.columns == cols
            &&& kept->Ok_0.ctes == below->Ok_0.ctes
            &&& rows_of(kept) == rows_of(below).filter(filter::true_on(m, cols, env.params))
        }),
{
    let below = semantics::run(input, env, ctes);
    let cols = below->Ok_0.rel.columns;
    let rows = rows_of(below);
    filter::law_a_filter_keeps_the_true_rows(
        below->Ok_0.rel.rows,
        rows.len(),
        m,
        cols,
        env.params,
    );
    assert(rows.take(rows.len() as int) =~= rows);
    assert(semantics::run_filter(input, predicate, env, ctes) == semantics::built(
        semantics::filter_above(below->Ok_0, predicate, env),
        below->Ok_0.ctes,
    ));
}

/// `UNION ALL` gives the rows of its left input, then those of its right input, under the
/// columns of the left one; `UNION` gives each row of values once that either of them
/// gives.
pub proof fn law_a_union_gives_the_rows_of_both(
    left: PlanModel,
    right: PlanModel,
    values: Seq<ValueModel>,
    env: Env,
    ctes: Ctes,
)
    requires
        ended_well(semantics::run(left, env, ctes)),
        ended_well(semantics::run(right, env, semantics::run(left, env, ctes)->Ok_0.ctes)),
    ensures
        ({
            let l = semantics::run(left, env, ctes);
            let r = semantics::run(right, env, l->Ok_0.ctes);
            let all = semantics::run(
                (PlanModel::Union { left: Box::new(left), right: Box::new(right), all: true }),
                env,
                ctes,
            );
            let once = semantics::run(
                (PlanModel::Union { left: Box::new(left), right: Box::new(right), all: false }),
                env,
                ctes,
            );
            let (n, m) = (rows_of(l).len(), rows_of(r).len());
            &&& ended_well(all)
            &&& all->Ok_0.rel.columns == l->Ok_0.rel.columns
            &&& rows_of(all).len() == n + m
            &&& rows_of(all).take(n as int) == rows_of(l)
            &&& rows_of(all).skip(n as int) == rows_of(r)
            &&& ended_well(once)
            &&& once->Ok_0.rel.columns == l->Ok_0.rel.columns
            &&& set_ops::times(rows_of(once), rows_of(once).len(), values) == if set_ops::times(
                rows_of(l),
                n,
                values,
            ) > 0 || set_ops::times(rows_of(r), m, values) > 0 {
                1nat
            } else {
                0nat
            }
        }),
{
    let l = semantics::run(left, env, ctes);
    let r = semantics::run(right, env, l->Ok_0.ctes);
    assert(semantics::run_both(left, right, env, ctes) == Ok::<_, ErrorModel>(
        (l->Ok_0.rel, r->Ok_0.rel, r->Ok_0.ctes),
    ));
    let both = rows_of(l) + rows_of(r);
    assert(both.take(rows_of(l).len() as int) =~= rows_of(l));
    assert(both.skip(rows_of(l).len() as int) =~= rows_of(r));
    set_ops::law_a_union_gives_each_kind_once(rows_of(l), rows_of(r), values);
    assert(semantics::run_union(left, right, true, env, ctes) is Ok);
    assert(semantics::run_union(left, right, false, env, ctes) is Ok);
}

/// How often a row of values is in what a set operation gives, by how often it is in its
/// two inputs: `INTERSECT ALL` takes the smaller number and `EXCEPT ALL` the difference;
/// without `ALL` a row is there once or not at all.
pub proof fn law_set_operations_count_rows(
    left: PlanModel,
    right: PlanModel,
    all: bool,
    values: Seq<ValueModel>,
    env: Env,
    ctes: Ctes,
)
    requires
        ended_well(semantics::run(left, env, ctes)),
        ended_well(semantics::run(right, env, semantics::run(left, env, ctes)->Ok_0.ctes)),
    ensures
        ({
            let l = semantics::run(left, env, ctes);
            let r = semantics::run(right, env, l->Ok_0.ctes);
            let x = set_ops::times(rows_of(l), rows_of(l).len(), values) as int;
            let y = set_ops::times(rows_of(r), rows_of(r).len(), values) as int;
            let shared = semantics::run(
                (PlanModel::Intersect { left: Box::new(left), right: Box::new(right), all }),
                env,
                ctes,
            );
            let rest = semantics::run(
                (PlanModel::Except { left: Box::new(left), right: Box::new(right), all }),
                env,
                ctes,
            );
            &&& ended_well(shared)
            &&& ended_well(rest)
            &&& shared->Ok_0.rel.columns == l->Ok_0.rel.columns
            &&& rest->Ok_0.rel.columns == l->Ok_0.rel.columns
            &&& set_ops::times(rows_of(shared), rows_of(shared).len(), values) as int == if all {
                if x < y {
                    x
                } else {
                    y
                }
            } else if x > 0 && y > 0 {
                1
            } else {
                0
            }
            &&& set_ops::times(rows_of(rest), rows_of(rest).len(), values) as int == if all {
                if x > y {
                    x - y
                } else {
                    0
                }
            } else if x > 0 && y == 0 {
                1
            } else {
                0
            }
        }),
{
    let l = semantics::run(left, env, ctes);
    let r = semantics::run(right, env, l->Ok_0.ctes);
    assert(semantics::run_both(left, right, env, ctes) == Ok::<_, ErrorModel>(
        (l->Ok_0.rel, r->Ok_0.rel, r->Ok_0.ctes),
    ));
    set_ops::law_set_operations_count(
        SetOperation::Intersect,
        all,
        rows_of(l),
        rows_of(r),
        values,
    );
    set_ops::law_set_operations_count(SetOperation::Except, all, rows_of(l), rows_of(r), values);
    assert(semantics::run_set_operation(left, right, SetOperation::Intersect, all, env, ctes)
        is Ok);
    assert(semantics::run_set_operation(left, right, SetOperation::Except, all, env, ctes) is Ok);
}

/// A common table expression hides everything else of its name: a scan of that name gives
/// its rows, and a scan of another name is as it was.
pub proof fn law_a_common_table_is_read_by_its_name(
    cte: CteModel,
    table: Seq<char>,
    alias: Option<Seq<char>>,
    schema: Seq<ColumnModel>,
    as_of: Option<AsOfModel>,
    env: Env,
    ctes: Ctes,
)
    ensures
        ({
            let p = PlanModel::Scan { table_name: table, alias, schema, projection: None, as_of };
            let seen = semantics::with_cte(ctes, cte);
            let given = semantics::run(p, env, seen);
            &&& table == cte.name ==> ended_well(given) && rows_of(given) == cte.rows
            &&& table != cte.name ==> (semantics::run(p, env, ctes) matches Ok(b) ==> given is Ok
                && given->Ok_0.rel == b.rel)
            &&& table != cte.name ==> (semantics::run(p, env, ctes) is Err ==> given is Err)
        }),
{
    let p = PlanModel::Scan { table_name: table, alias, schema, projection: None, as_of };
    let seen = semantics::with_cte(ctes, cte);
    let n = semantics::ScanNode { table, alias, cols: schema, projection: None, as_of };
    assert(scan::scanned(None, cte.rows) =~= cte.rows);
    if table == cte.name {
        assert(seen(table) == Some(cte));
    } else {
        assert(seen(table) == ctes(table));
    }
    assert(semantics::run(p, env, seen) == semantics::built(
        semantics::scan_rows(n, env, seen),
        seen,
    ));
    assert(semantics::run(p, env, ctes) == semantics::built(
        semantics::scan_rows(n, env, ctes),
        ctes,
    ));
}

/// A query under a common table expression that is not recursive reads, under the name of
/// that expression, the rows that the expression gives; whatever else had the name is
/// hidden.
pub proof fn law_with_reads_what_it_names(
    name: Seq<char>,
    p: PlanModel,
    names: Option<Seq<Seq<char>>>,
    alias: Option<Seq<char>>,
    schema: Seq<ColumnModel>,
    env: Env,
    ctes: Ctes,
)
    requires
        ended_well(semantics::run(p, env, ctes)),
    ensures
        ({
            let query = PlanModel::Scan {
                table_name: name,
                alias,
                schema,
                projection: None,
                as_of: None,
            };
            let with = PlanModel::With {
                ctes: seq![(name, Box::new(p), names)],
                query: Box::new(query),
                recursive: false,
            };
            let given = semantics::run(with, env, ctes);
            &&& ended_well(given)
            &&& rows_of(given) == rows_of(semantics::run(p, env, ctes))
        }),
{
    let list = seq![(name, Box::new(p), names)];
    let query = PlanModel::Scan {
        table_name: name,
        alias,
        schema,
        projection: None,
        as_of: None,
    };
    let b = semantics::run(p, env, ctes)->Ok_0;
    let cte = CteModel { name, rows: b.rel.rows.rows, columns: sources::cte_columns(p, names) };
    assert(semantics::run_cte(name, p, names, false, env, ctes) == Ok::<Ctes, ErrorModel>(
        semantics::with_cte(b.ctes, cte),
    ));
    assert(semantics::run_ctes(list, 0, false, env, ctes) == Ok::<Ctes, ErrorModel>(ctes));
    assert(semantics::run_ctes(list, 1, false, env, ctes) == Ok::<Ctes, ErrorModel>(
        semantics::with_cte(b.ctes, cte),
    ));
    law_a_common_table_is_read_by_its_name(cte, name, alias, schema, None, env, b.ctes);
}

/// A join of two plans.
pub open spec fn join_of(
    left: PlanModel,
    right: PlanModel,
    join_type: JoinType,
    on: Option<ExprModel>,
    lateral: bool,
) -> PlanModel {
    PlanModel::Join { left: Box::new(left), right: Box::new(right), join_type, on, lateral }
}

/// Whether two plans, one run after the other, give two relations.
pub open spec fn both_give(
    left: PlanModel,
    right: PlanModel,
    env: Env,
    ctes: Ctes,
    l: Built,
    r: Built,
) -> bool {
    &&& semantics::run(left, env, ctes) == Ok::<Built, ErrorModel>(l)
    &&& semantics::run(right, env, l.ctes) == Ok::<Built, ErrorModel>(r)
    &&& l.rel.rows.end is None
    &&& r.rel.rows.end is None
    &&& l.rel.rows.rows.len() < usize::MAX
    &&& r.rel.rows.rows.len() < usize::MAX
}

/// Whether a plan gave exactly the rows that a join of two relations owes.
pub open spec fn gives_owed_rows(
    given: Result<Built, ErrorModel>,
    l: operator::Relation,
    r: operator::Relation,
    join_type: JoinType,
    condition: ExprModel,
    params: Seq<ValueModel>,
) -> bool {
    given is Ok && join_meaning::gives_what_is_owed(
        given->Ok_0.rel,
        l,
        r,
        join_type,
        condition,
        params,
    )
}

proof fn lemma_both_run(
    left: PlanModel,
    right: PlanModel,
    env: Env,
    ctes: Ctes,
    l: Built,
    r: Built,
)
    requires
        both_give(left, right, env, ctes, l, r),
    ensures
        semantics::run_both(left, right, env, ctes) == Ok::<
            (operator::Relation, operator::Relation, Ctes),
            ErrorModel,
        >((l.rel, r.rel, r.ctes)),
{
}

proof fn lemma_keyed_join_runs(
    left: PlanModel,
    right: PlanModel,
    join_type: JoinType,
    condition: ExprModel,
    m: ExprModel,
    env: Env,
    ctes: Ctes,
    l: Built,
    r: Built,
)
    requires
        both_give(left, right, env, ctes, l, r),
        semantics::join_lookups((JoinNode { left, right, join_type, condition }), env) is None,
        semantics::join_condition(condition, l.rel.columns + r.rel.columns, env) == Ok::<
            ExprModel,
            ErrorModel,
        >(m),
    ensures
        semantics::run(join_of(left, right, join_type, Some(condition), false), env, ctes)
            == semantics::built(
            join_build::joined_on(
                l.rel,
                r.rel,
                join_type,
                m,
                semantics::terms(
                    semantics::build_side(left, right, join_type == JoinType::Inner, env),
                    env,
                ),
            ),
            r.ctes,
        ),
{
    let j = JoinNode { left, right, join_type, condition };
    lemma_both_run(left, right, env, ctes, l, r);
    assert(semantics::run_lookup_join(j, env, ctes) == semantics::Attempt::Declined(ctes));
    let keyed = semantics::run_keyed_join(j, env, ctes);
    assert(semantics::run_join(left, right, join_type, Some(condition), false, env, ctes)
        == keyed);
}

/// A join with a condition runs its left input, then its right input, and gives the rows
/// that it owes over what these give: one for each pair on which the whole condition is
/// true, and those without a partner that the join keeps. So it is where the right rows are
/// not looked up in an index, the condition fails on no pair, and the join fits its memory
/// limit.
pub proof fn law_a_join_gives_what_its_inputs_owe(
    left: PlanModel,
    right: PlanModel,
    join_type: JoinType,
    condition: ExprModel,
    m: ExprModel,
    kinds: Seq<int>,
    env: Env,
    ctes: Ctes,
    l: Built,
    r: Built,
)
    requires
        both_give(left, right, env, ctes, l, r),
        semantics::join_lookups((JoinNode { left, right, join_type, condition }), env) is None,
        semantics::join_condition(condition, l.rel.columns + r.rel.columns, env) == Ok::<
            ExprModel,
            ErrorModel,
        >(m),
        join_keys::needs_nested_loop(
            join_keys::planned(m, l.rel.columns, r.rel.columns),
            join_type,
        ) || join_meaning::can_be_keyed(l.rel, r.rel, m, env.params, kinds),
        forall|i: int, j: int|
            0 <= i < l.rel.rows.rows.len() && 0 <= j < r.rel.rows.rows.len() ==> evaluator::eval(
                m,
                l.rel.columns + r.rel.columns,
                env.params,
                (#[trigger] l.rel.rows.rows[i]).values + (#[trigger] r.rel.rows.rows[j]).values,
            ) is Ok,
        semantics::run(join_of(left, right, join_type, Some(condition), false), env, ctes) is Ok,
    ensures
        gives_owed_rows(
            semantics::run(join_of(left, right, join_type, Some(condition), false), env, ctes),
            l.rel,
            r.rel,
            join_type,
            m,
            env.params,
        ),
{
    lemma_keyed_join_runs(left, right, join_type, condition, m, env, ctes, l, r);
    let t = semantics::terms(
        semantics::build_side(left, right, join_type == JoinType::Inner, env),
        env,
    );
    join_meaning::law_a_join_gives_the_rows_it_owes(l.rel, r.rel, join_type, m, t, kinds);
}

/// A join without a condition gives every pair of a row of its left and one of its right
/// input, and where one input is empty the rows of the other one that the join keeps.
pub proof fn law_a_cross_join_gives_every_pair(
    left: PlanModel,
    right: PlanModel,
    join_type: JoinType,
    env: Env,
    ctes: Ctes,
    l: Built,
    r: Built,
)
    requires
        both_give(left, right, env, ctes, l, r),
        semantics::run(join_of(left, right, join_type, None, false), env, ctes) is Ok,
    ensures
        gives_owed_rows(
            semantics::run(join_of(left, right, join_type, None, false), env, ctes),
            l.rel,
            r.rel,
            join_type,
            join_meaning::always(),
            env.params,
        ),
{
    lemma_both_run(left, right, env, ctes, l, r);
    let t = semantics::terms(HashJoinBuildSide::Right, env);
    assert(semantics::run_join(left, right, join_type, None, false, env, ctes)
        == semantics::built(join_build::joined_all(l.rel, r.rel, join_type, t), r.ctes));
    join_meaning::law_a_join_without_a_condition_gives_every_pair(l.rel, r.rel, join_type, t);
}

/// A lateral join tests every pair with its condition, whatever the condition is, and
/// gives the rows that it owes.
pub proof fn law_a_lateral_join_gives_what_its_inputs_owe(
    left: PlanModel,
    right: PlanModel,
    join_type: JoinType,
    on: Option<ExprModel>,
    env: Env,
    ctes: Ctes,
    l: Built,
    r: Built,
)
    requires
        both_give(left, right, env, ctes, l, r),
        on matches Some(c) ==> nested_loop::never_fails(
            l.rel.rows.rows,
            r.rel.rows.rows,
            join_meaning::whole_join(l.rel, r.rel, join_type, c, env.params),
        ),
        semantics::run(join_of(left, right, join_type, on, true), env, ctes) is Ok,
    ensures
        gives_owed_rows(
            semantics::run(join_of(left, right, join_type, on, true), env, ctes),
            l.rel,
            r.rel,
            join_type,
            join_meaning::tested(on),
            env.params,
        ),
{
    lemma_both_run(left, right, env, ctes, l, r);
    let t = semantics::terms(HashJoinBuildSide::Right, env);
    assert(semantics::run_join(left, right, join_type, on, true, env, ctes) == semantics::built(
        join_build::looped(l.rel, r.rel, join_type, on, t),
        r.ctes,
    ));
    join_meaning::law_a_join_that_tests_every_pair_gives_the_rows_it_owes(
        l.rel,
        r.rel,
        join_type,
        on,
        t,
    );
}

proof fn lemma_filter_that_ends_well(
    s: operator::RowStream,
    predicate: ExprModel,
    cols: Seq<ColumnModel>,
    params: Seq<ValueModel>,
)
    requires
        filter::filtered(s, predicate, cols, params).end is None,
    ensures
        s.end is None,
        forall|i: int|
            0 <= i < s.rows.len() ==> filter::is_answered(
                predicate,
                cols,
                params,
                #[trigger] s.rows[i],
            ),
    decreases s.rows.len(),
{
    if s.rows.len() > 0 {
        let rest = s.rest();
        lemma_filter_that_ends_well(rest, predicate, cols, params);
        assert forall|i: int| 0 <= i < s.rows.len() implies filter::is_answered(
            predicate,
            cols,
            params,
            #[trigger] s.rows[i],
        ) by {
            if i > 0 {
                assert(s.rows[i] == rest.rows[i - 1]);
            }
        }
    }
}

proof fn lemma_true_rows_are_counted(
    rows: Seq<TupleModel>,
    n: nat,
    predicate: ExprModel,
    cols: Seq<ColumnModel>,
    params: Seq<ValueModel>,
)
    requires
        n <= rows.len(),
        forall|i: int|
            0 <= i < rows.len() ==> filter::is_answered(
                predicate,
                cols,
                params,
                #[trigger] rows[i],
            ),
    ensures
        semantics::true_rows(rows, n, predicate, cols, params) == Ok::<nat, ErrorModel>(
            rows.take(n as int).filter(filter::true_on(predicate, cols, params)).len(),
        ),
    decreases n,
{
    let keep = filter::true_on(predicate, cols, params);
    if n > 0 {
        let m = (n - 1) as nat;
        let last = rows[n - 1];
        lemma_true_rows_are_counted(rows, m, predicate, cols, params);
        assert(filter::is_answered(predicate, cols, params, rows[n - 1]));
        assert(rows.take(n as int) =~= rows.take(m as int) + seq![last]);
        Seq::filter_distributes_over_add(rows.take(m as int), seq![last], keep);
        filter::lemma_filter_one(last, keep);
    } else {
        assert(rows.take(0) =~= Seq::<TupleModel>::empty());
        filter::lemma_filter_none(keep);
    }
}

/// Whether a result is one row that holds a number.
pub open spec fn is_the_number(r: Result<Built, ErrorModel>, n: nat) -> bool {
    &&& ended_well(r)
    &&& rows_of(r).len() == 1
    &&& rows_of(r)[0].values.len() == 1
    &&& rows_of(r)[0].values[0] is Int8
    &&& rows_of(r)[0].values[0]->Int8_0 == n
}

proof fn lemma_counted(n: nat, ctes: Ctes)
    requires
        n <= i64::MAX,
    ensures
        is_the_number(
            Ok::<Built, ErrorModel>(Built { rel: semantics::counted(n), ctes }),
            n,
        ),
{
}

proof fn lemma_stored_count(p: PlanModel, env: Env, ctes: Ctes)
    requires
        semantics::counts_as_stored(p, env, ctes),
        ended_well(semantics::run(p, env, ctes)),
    ensures
        semantics::stored_count(semantics::scan_below(p)->Some_0.table, env.storage->Some_0) == Ok::<
            nat,
            ErrorModel,
        >(rows_of(semantics::run(p, env, ctes)).len()),
{
    let n = semantics::scan_below(p)->Some_0;
    let s = env.storage->Some_0;
    let rows = sources::rows_of_table(s.tables, n.table);
    let given = semantics::scan_rows(n, env, ctes);
    assert(given is Ok);
    assert(given->Ok_0.rows.rows.len() == rows.len());
    if semantics::scan_node(p) is None {
        let input = *(p->Project_input);
        let exprs = p->Project_exprs;
        let aliases = p->Project_aliases;
        assert(semantics::run(input, env, ctes) == semantics::built(given, ctes));
        assert(semantics::run_projected_join(input, exprs, aliases, env, ctes)
            == semantics::Attempt::Declined(ctes));
        lemma_list_keeps_the_number(
            (Built { rel: given->Ok_0, ctes }),
            exprs,
            aliases,
            env,
        );
        assert(semantics::run_project(input, exprs, aliases, false, None, env, ctes)
            == semantics::built(
            semantics::project_above(
                (Built { rel: given->Ok_0, ctes }),
                exprs,
                aliases,
                false,
                None,
                env,
            ),
            ctes,
        ));
    } else {
        assert(semantics::run(p, env, ctes) == semantics::built(given, ctes));
    }
}

proof fn lemma_items_keep_the_number(
    exprs: Seq<ExprModel>,
    cols: Seq<ColumnModel>,
    rows: Seq<TupleModel>,
    n: nat,
    env: Env,
    ctes: Ctes,
)
    requires
        n <= rows.len(),
        semantics::item_rows(exprs, cols, rows, n, env, ctes) is Ok,
    ensures
        semantics::item_rows(exprs, cols, rows, n, env, ctes)->Ok_0.len() == n,
    decreases n,
{
    if n > 0 {
        lemma_items_keep_the_number(exprs, cols, rows, (n - 1) as nat, env, ctes);
    }
}

proof fn lemma_list_keeps_the_number(
    b: Built,
    exprs: Seq<ExprModel>,
    aliases: Seq<Seq<char>>,
    env: Env,
)
    requires
        b.rel.rows.end is None,
    ensures
        semantics::project_above(b, exprs, aliases, false, None, env) matches Ok(rel) ==> (
        rel.rows.end is None ==> rel.rows.rows.len() == b.rel.rows.rows.len()),
{
    let rows = b.rel.rows.rows;
    assert(b.rel.rows =~= operator::just_rows(rows));
    if subquery::any_correlated(exprs, exprs.len(), b.rel.columns) {
        if semantics::item_rows(exprs, b.rel.columns, rows, rows.len(), env, b.ctes) is Ok {
            lemma_items_keep_the_number(exprs, b.rel.columns, rows, rows.len(), env, b.ctes);
        }
    } else if let Ok(m) = semantics::materialized_list(exprs, exprs.len(), env) {
        let out = project::projected(
            operator::just_rows(rows),
            m,
            b.rel.columns,
            env.params,
            project::Distinct::Keep,
            Seq::empty(),
        );
        if out.end is None {
            first_rows::lemma_list_that_ends_well(rows, m, b.rel.columns, env.params);
            first_rows::lemma_list_item_by_item(rows, m, b.rel.columns, env.params);
        }
    }
}

/// `COUNT(*)` over a plan.
pub open spec fn count_over(input: PlanModel, star: Seq<ExprModel>) -> PlanModel {
    PlanModel::Aggregate {
        input: Box::new(input),
        group_by: Seq::empty(),
        aggr_exprs: star,
        having: None,
    }
}

/// Whether a predicate on a scan is answered by one lookup in an index, or by none.
pub open spec fn looked_up_or_read(
    n: semantics::ScanNode,
    predicate: ExprModel,
    env: Env,
    ctes: Ctes,
) -> bool {
    ||| semantics::pointed(n, predicate, env, ctes) matches Ok(Some(_))
    ||| semantics::indexed(n, predicate, env, ctes) == Ok::<
        Option<operator::Relation>,
        ErrorModel,
    >(None) && semantics::keyed(n, predicate, env, ctes) == Ok::<Option<nat>, ErrorModel>(None)
}

/// Whether a plan is counted by reading rows, or by one lookup in an index.
pub open spec fn is_counted_by_rows(p: PlanModel, env: Env, ctes: Ctes) -> bool {
    match p {
        PlanModel::Filter { input, predicate } => semantics::scan_node(*input) matches Some(n)
            ==> looked_up_or_read(n, predicate, env, ctes),
        PlanModel::FilteredScan { table_name, alias, schema, projection, predicate, as_of } => {
            predicate matches Some(e) ==> looked_up_or_read(
                (semantics::ScanNode {
                    table: table_name,
                    alias,
                    cols: schema,
                    projection,
                    as_of,
                }),
                e,
                env,
                ctes,
            )
        },
        _ => true,
    }
}

proof fn lemma_count_of_filter(input: PlanModel, predicate: ExprModel, env: Env, ctes: Ctes)
    requires
        semantics::scan_node(input) matches Some(n) ==> looked_up_or_read(n, predicate, env, ctes)
            && !(semantics::pointed(n, predicate, env, ctes) matches Ok(Some(_))),
        ended_well(
            semantics::run((PlanModel::Filter { input: Box::new(input), predicate }), env, ctes),
        ),
    ensures
        semantics::count_tested(input, predicate, env, ctes) == semantics::count_of(
            semantics::run((PlanModel::Filter { input: Box::new(input), predicate }), env, ctes),
        ),
{
    let below = semantics::run(input, env, ctes);
    let given = semantics::run_filter(input, predicate, env, ctes);
    assert(semantics::run((PlanModel::Filter { input: Box::new(input), predicate }), env, ctes)
        == given);
    assert(below is Ok);
    let b = below->Ok_0;
    assert(given == semantics::built(semantics::filter_above(b, predicate, env), b.ctes));
    if !subquery::correlated(predicate, b.rel.columns) {
        let m = semantics::materialized(predicate, env)->Ok_0;
        let s = b.rel.rows;
        lemma_filter_that_ends_well(s, m, b.rel.columns, env.params);
        filter::law_a_filter_keeps_the_true_rows(
            s,
            s.rows.len(),
            m,
            b.rel.columns,
            env.params,
        );
        lemma_true_rows_are_counted(s.rows, s.rows.len(), m, b.rel.columns, env.params);
        assert(s.rows.take(s.rows.len() as int) =~= s.rows);
    }
}

/// `COUNT(*)` gives one row with the number of rows that its input gives, whether they are
/// read, counted in an index, or known to the storage.
pub proof fn law_count_is_the_number_of_rows(
    input: PlanModel,
    star: Seq<ExprModel>,
    env: Env,
    ctes: Ctes,
)
    requires
        semantics::is_count_star(Seq::empty(), star, None),
        ended_well(semantics::run(input, env, ctes)),
        is_counted_by_rows(input, env, ctes),
        rows_of(semantics::run(input, env, ctes)).len() <= i64::MAX,
    ensures
        is_the_number(
            semantics::run(count_over(input, star), env, ctes),
            rows_of(semantics::run(input, env, ctes)).len(),
        ),
{
    let below = semantics::run(input, env, ctes);
    let n = rows_of(below).len();
    let counted = semantics::run_count(input, env, ctes);
    assert(semantics::run(count_over(input, star), env, ctes) == counted);
    lemma_counted(n, ctes);
    lemma_counted(n, below->Ok_0.ctes);
    if semantics::counts_as_stored(input, env, ctes) {
        lemma_stored_count(input, env, ctes);
    } else {
        lemma_count_runs(input, env, ctes);
    }
}

proof fn lemma_count_runs(input: PlanModel, env: Env, ctes: Ctes)
    requires
        !semantics::counts_as_stored(input, env, ctes),
        ended_well(semantics::run(input, env, ctes)),
        is_counted_by_rows(input, env, ctes),
    ensures
        ({
            let n = rows_of(semantics::run(input, env, ctes)).len();
            let counted = semantics::run_count(input, env, ctes);
            counted is Ok && counted->Ok_0.rel == semantics::counted(n)
        }),
{
    let below = semantics::run(input, env, ctes);
    match input {
        PlanModel::Filter { input: inner, predicate } => {
            assert(below == semantics::run_filter(*inner, predicate, env, ctes));
            if let Some(n) = semantics::scan_node(*inner) {
                if semantics::pointed(n, predicate, env, ctes) matches Ok(Some(_)) {
                } else {
                    lemma_count_of_filter(*inner, predicate, env, ctes);
                }
            } else {
                lemma_count_of_filter(*inner, predicate, env, ctes);
            }
        },
        PlanModel::FilteredScan { table_name, alias, schema, projection, predicate, as_of } => {
            if let Some(e) = predicate {
                let n = semantics::ScanNode {
                    table: table_name,
                    alias,
                    cols: schema,
                    projection,
                    as_of,
                };
                assert(below == semantics::built(
                    semantics::run_filtered_scan(n, e, env, ctes),
                    ctes,
                ));
            }
        },
        _ => {},
    }
}

/// A scan of a stored table that nothing of its name hides gives the rows of the table as
/// they are, under columns that are told which table they come from.
pub proof fn law_a_scan_reads_the_stored_rows(
    table: Seq<char>,
    alias: Option<Seq<char>>,
    schema: Seq<ColumnModel>,
    env: Env,
    ctes: Ctes,
)
    requires
        ctes(table) is None,
        env.storage is Some,
        env.transaction is None,
        storage_view::table_named(env.storage->Some_0.system_views, table, 0) is None,
        storage_view::view_named(env.storage->Some_0.materialized_views, table, 0) is None,
        storage_view::table_named(env.storage->Some_0.tables, table, 0) is Some,
    ensures
        ({
            let p = PlanModel::Scan {
                table_name: table,
                alias,
                schema,
                projection: None,
                as_of: None,
            };
            let stored = storage_view::table_named(env.storage->Some_0.tables, table, 0)->Some_0;
            let given = semantics::run(p, env, ctes);
            let cols = given->Ok_0.rel.columns;
            let source = match alias {
                Some(a) => a,
                None => table,
            };
            &&& ended_well(given)
            &&& rows_of(given) == stored.rows
            &&& cols.len() == stored.columns.len()
            &&& forall|i: int|
                0 <= i < cols.len() ==> (#[trigger] cols[i]).name == stored.columns[i].name
                    && cols[i].data_type == stored.columns[i].data_type && cols[i].source_table
                    == Some(source) && cols[i].source_table_name == Some(table)
        }),
{
    let p = PlanModel::Scan { table_name: table, alias, schema, projection: None, as_of: None };
    let n = semantics::ScanNode { table, alias, cols: schema, projection: None, as_of: None };
    let stored = storage_view::table_named(env.storage->Some_0.tables, table, 0)->Some_0;
    assert(scan::scanned(None, stored.rows) =~= stored.rows);
    assert(semantics::run(p, env, ctes) == semantics::built(
        semantics::scan_rows(n, env, ctes),
        ctes,
    ));
}

/// A scan with a projection gives, of each row, the values at the given positions, in the
/// order of the positions, under the columns at these positions.
pub proof fn law_a_projection_picks_by_position(
    positions: Seq<usize>,
    cols: Seq<ColumnModel>,
    row: TupleModel,
)
    requires
        row.values.len() == cols.len(),
        forall|i: int| 0 <= i < positions.len() ==> (#[trigger] positions[i]) < cols.len(),
    ensures
        ({
            let shown = scan::scanned_columns(Some(positions), cols);
            let given = scan::scanned_row(Some(positions), row);
            &&& given.row_id == row.row_id
            &&& given.values.len() == positions.len()
            &&& shown.len() == positions.len()
            &&& forall|i: int|
                0 <= i < positions.len() ==> given.values[i] == row.values[(
                #[trigger] positions[i]) as int] && shown[i] == cols[positions[i] as int]
        }),
{
    lemma_kept_by_position(positions, cols, row.values);
}

proof fn lemma_kept_by_position(
    positions: Seq<usize>,
    cols: Seq<ColumnModel>,
    row: Seq<ValueModel>,
)
    requires
        row.len() == cols.len(),
        forall|i: int| 0 <= i < positions.len() ==> (#[trigger] positions[i]) < cols.len(),
    ensures
        scan::kept(positions, row).len() == positions.len(),
        scan::kept_columns(positions, cols).len() == positions.len(),
        forall|i: int|
            0 <= i < positions.len() ==> scan::kept(positions, row)[i] == row[(
            #[trigger] positions[i]) as int] && scan::kept_columns(positions, cols)[i]
                == cols[positions[i] as int],
    decreases positions.len(),
{
    if positions.len() > 0 {
        let rest = positions.drop_last();
        assert forall|i: int| 0 <= i < rest.len() implies (#[trigger] rest[i]) < cols.len() by {
            assert(rest[i] == positions[i]);
        }
        lemma_kept_by_position(rest, cols, row);
        assert(positions[positions.len() - 1] < cols.len());
        assert forall|i: int| 0 <= i < positions.len() implies scan::kept(positions, row)[i]
            == row[(#[trigger] positions[i]) as int] && scan::kept_columns(positions, cols)[i]
            == cols[positions[i] as int] by {
            if i < rest.len() {
                assert(rest[i] == positions[i]);
            }
        }
    }
}

/// `LIMIT` and `OFFSET` by parameters mean the numbers that the parameters hold, counted
/// from one: none where the number is negative, and what stands in the query where the
/// parameter is NULL.
pub proof fn law_bound_limits_mean_their_parameters(
    input: PlanModel,
    limit: usize,
    offset: usize,
    i: usize,
    j: usize,
    env: Env,
    ctes: Ctes,
)
    requires
        0 < i <= env.params.len(),
        0 < j <= env.params.len(),
        env.params[i - 1] is Int8,
        env.params[i - 1]->Int8_0 <= usize::MAX,
        env.params[j - 1] is Null,
    ensures
        ({
            let n = env.params[i - 1]->Int8_0;
            let bound = PlanModel::Limit {
                input: Box::new(input),
                limit,
                offset,
                limit_param: Some(i),
                offset_param: Some(j),
            };
            let turned = PlanModel::Limit {
                input: Box::new(input),
                limit,
                offset,
                limit_param: Some(j),
                offset_param: Some(i),
            };
            let number = if n < 0 {
                0usize
            } else {
                n as usize
            };
            &&& semantics::run(bound, env, ctes) == semantics::run(
                first_rows::limit_over(input, number, offset),
                env,
                ctes,
            )
            &&& semantics::run(turned, env, ctes) == semantics::run(
                first_rows::limit_over(input, limit, number),
                env,
                ctes,
            )
        }),
{
}

/// What is named in a `WITH`.
pub type Named = (Seq<char>, Box<PlanModel>, Option<Seq<Seq<char>>>);

proof fn lemma_first_ctes(
    a: Seq<Named>,
    b: Seq<Named>,
    n: nat,
    recursive: bool,
    env: Env,
    ctes: Ctes,
)
    requires
        n <= a.len(),
    ensures
        semantics::run_ctes(a + b, n, recursive, env, ctes) == semantics::run_ctes(
            a,
            n,
            recursive,
            env,
            ctes,
        ),
    decreases n,
{
    if n > 0 {
        lemma_first_ctes(a, b, (n - 1) as nat, recursive, env, ctes);
        assert((a + b)[n - 1] == a[n - 1]);
    }
}

proof fn lemma_ctes_in_parts(
    a: Seq<Named>,
    b: Seq<Named>,
    n: nat,
    recursive: bool,
    env: Env,
    ctes: Ctes,
)
    requires
        n <= b.len(),
    ensures
        semantics::run_ctes(a + b, a.len() + n, recursive, env, ctes) == (
        match semantics::run_ctes(a, a.len(), recursive, env, ctes) {
            Err(e) => Err(e),
            Ok(c) => semantics::run_ctes(b, n, recursive, env, c),
        }),
    decreases n,
{
    if n > 0 {
        lemma_ctes_in_parts(a, b, (n - 1) as nat, recursive, env, ctes);
        assert((a + b)[a.len() + n - 1] == b[n - 1]);
    } else {
        lemma_first_ctes(a, b, a.len(), recursive, env, ctes);
    }
}

/// The common table expressions of a `WITH` are evaluated one after the other, each in
/// sight of those before it: a `WITH` of several is a `WITH` of the first ones around a
/// `WITH` of the others.
pub proof fn law_with_can_be_nested(
    a: Seq<Named>,
    b: Seq<Named>,
    query: PlanModel,
    recursive: bool,
    env: Env,
    ctes: Ctes,
)
    ensures
        ({
            let at_once = PlanModel::With { ctes: a + b, query: Box::new(query), recursive };
            let inner = PlanModel::With { ctes: b, query: Box::new(query), recursive };
            let nested = PlanModel::With { ctes: a, query: Box::new(inner), recursive };
            semantics::run(at_once, env, ctes) == semantics::run(nested, env, ctes)
        }),
{
    lemma_ctes_in_parts(a, b, b.len(), recursive, env, ctes);
    let inner = PlanModel::With { ctes: b, query: Box::new(query), recursive };
    if let Ok(c) = semantics::run_ctes(a, a.len(), recursive, env, ctes) {
        assert(semantics::run(inner, env, c) == match semantics::run_ctes(
            b,
            b.len(),
            recursive,
            env,
            c,
        ) {
            Err(e) => Err(e),
            Ok(d) => semantics::run(query, env, d),
        });
    }
}

/// `generate_series` over two numbers gives every number from the first to the second one
/// upwards, and none where the first one is larger.
pub proof fn law_a_series_counts_upwards(
    a: i64,
    b: i64,
    alias: Option<Seq<char>>,
    env: Env,
    ctes: Ctes,
)
    ensures
        ({
            let p = PlanModel::TableFunction {
                function_name: "generate_series"@,
                args: seq![
                    ExprModel::Literal(ValueModel::Int8(a)),
                    ExprModel::Literal(ValueModel::Int8(b)),
                ],
                alias,
            };
            let given = semantics::run(p, env, ctes);
            let out = rows_of(given);
            &&& ended_well(given)
            &&& out.len() == if a <= b {
                b - a + 1
            } else {
                0
            }
            &&& forall|i: int|
                0 <= i < out.len() ==> (#[trigger] out[i]).values == seq![
                    ValueModel::Int8((a + i) as i64),
                ]
        }),
{
    let args = seq![
        ExprModel::Literal(ValueModel::Int8(a)),
        ExprModel::Literal(ValueModel::Int8(b)),
    ];
    let s = scan::series(a as int, b as int, 1);
    scan::law_series_steps_within_bounds(a as int, b as int, 1);
    if a <= b {
        assert(s.len() * 1 == s.len());
        if s.len() > 0 {
            assert(s[s.len() - 1] == a + (s.len() - 1) * 1);
        }
    } else {
        assert(s.len() == 0);
    }
    assert(table_function::series_bounds(args, env.params) == Ok::<(i64, i64, i64), ErrorModel>(
        (a, b, 1i64),
    ));
    let rows = s.map_values(|n: int| scan::number_row(n));
    assert forall|i: int| 0 <= i < rows.len() implies (#[trigger] rows[i]).values == seq![
        ValueModel::Int8((a + i) as i64),
    ] by {
        assert(s[i] == a + i * 1);
    }
}

proof fn lemma_unnested(args: Seq<ExprModel>, items: Seq<Seq<ValueModel>>, n: nat)
    requires
        n <= args.len(),
        items.len() == args.len(),
        forall|i: int|
            0 <= i < args.len() ==> #[trigger] args[i] == ExprModel::Literal(
                ValueModel::Array(items[i]),
            ),
    ensures
        table_function::unnested(args, n) == Ok::<Seq<ValueModel>, ErrorModel>(
            items.take(n as int).flatten(),
        ),
    decreases n,
{
    if n > 0 {
        let m = (n - 1) as nat;
        lemma_unnested(args, items, m);
        assert(args[n - 1] == ExprModel::Literal(ValueModel::Array(items[n - 1])));
        assert(items.take(n as int) =~= items.take(m as int).push(items[n - 1]));
        items.take(m as int).lemma_flatten_push(items[n - 1]);
    } else {
        assert(items.take(0) =~= Seq::<Seq<ValueModel>>::empty());
        assert(items.take(0).flatten() =~= Seq::<ValueModel>::empty());
    }
}

/// `unnest` gives the items of its arrays, one row each, in order, one array after the
/// other.
pub proof fn law_unnest_gives_the_items(
    items: Seq<Seq<ValueModel>>,
    alias: Option<Seq<char>>,
    env: Env,
    ctes: Ctes,
)
    requires
        items.len() > 0,
    ensures
        ({
            let p = PlanModel::TableFunction {
                function_name: "unnest"@,
                args: items.map_values(
                    |s: Seq<ValueModel>| ExprModel::Literal(ValueModel::Array(s)),
                ),
                alias,
            };
            let given = semantics::run(p, env, ctes);
            let out = rows_of(given);
            let all = items.flatten();
            &&& ended_well(given)
            &&& out.len() == all.len()
            &&& forall|i: int|
                0 <= i < out.len() ==> (#[trigger] out[i]).values == seq![all[i]]
        }),
{
    let args = items.map_values(|s: Seq<ValueModel>| ExprModel::Literal(ValueModel::Array(s)));
    reveal_strlit("generate_series");
    reveal_strlit("unnest");
    assert("generate_series"@.len() != "unnest"@.len());
    lemma_unnested(args, items, args.len());
    assert(items.take(items.len() as int) =~= items);
}

/// A scan with a predicate that no index serves gives exactly the rows of its table on
/// which the predicate is true, in order, and of them the columns that are asked for; the
/// predicate is tested on the whole row.
pub proof fn law_a_filtered_scan_gives_the_rows_that_pass(
    n: semantics::ScanNode,
    predicate: ExprModel,
    m: ExprModel,
    env: Env,
    ctes: Ctes,
)
    requires
        semantics::indexed(n, predicate, env, ctes) == Ok::<
            Option<operator::Relation>,
            ErrorModel,
        >(None),
        semantics::materialized(predicate, env) == Ok::<ExprModel, ErrorModel>(m),
        semantics::source_of(n, env, ctes) is Ok,
        forall|i: int|
            0 <= i < semantics::source_of(n, env, ctes)->Ok_0.1.len() ==> filter::is_answered(
                m,
                semantics::source_of(n, env, ctes)->Ok_0.0,
                env.params,
                #[trigger] semantics::source_of(n, env, ctes)->Ok_0.1[i],
            ),
    ensures
        ({
            let p = PlanModel::FilteredScan {
                table_name: n.table,
                alias: n.alias,
                schema: n.cols,
                projection: n.projection,
                predicate: Some(predicate),
                as_of: n.as_of,
            };
            let source = semantics::source_of(n, env, ctes)->Ok_0;
            let kept = source.1.filter(filter::true_on(m, source.0, env.params));
            let given = semantics::run(p, env, ctes);
            &&& ended_well(given)
            &&& rows_of(given).len() == kept.len()
            &&& forall|i: int|
                0 <= i < kept.len() ==> #[trigger] rows_of(given)[i] == scan::scanned_row(
                    n.projection,
                    kept[i],
                )
        }),
{
    let p = PlanModel::FilteredScan {
        table_name: n.table,
        alias: n.alias,
        schema: n.cols,
        projection: n.projection,
        predicate: Some(predicate),
        as_of: n.as_of,
    };
    let source = semantics::source_of(n, env, ctes)->Ok_0;
    let s = operator::just_rows(source.1);
    filter::law_a_filter_keeps_the_true_rows(s, source.1.len(), m, source.0, env.params);
    assert(source.1.take(source.1.len() as int) =~= source.1);
    assert(semantics::run_filtered_scan(n, predicate, env, ctes)
        == semantics::filtered_scan_rows(n, m, env, ctes));
    assert(semantics::run(p, env, ctes) == semantics::built(
        semantics::run_filtered_scan(n, predicate, env, ctes),
        ctes,
    ));
}

/// The columns of a common table expression have the names that are given for it, where
/// there is one for each, and the types of its plan; the columns of a `SELECT` list are
/// called as the list says.
pub proof fn law_columns_are_called_as_given(
    p: PlanModel,
    names: Seq<Seq<char>>,
    aliases: Seq<Seq<char>>,
    exprs: Seq<ExprModel>,
    cols: Seq<ColumnModel>,
    i: int,
)
    requires
        aliases.len() == exprs.len(),
    ensures
        ({
            let own = sources::plan_columns(p);
            let given = sources::cte_columns(p, Some(names));
            &&& given.len() == own.len()
            &&& names.len() == own.len() && 0 <= i < own.len() ==> given[i].name == names[i]
                && given[i].data_type == own[i].data_type
            &&& names.len() != own.len() ==> given == own
            &&& sources::cte_columns(p, None) == own
            &&& project::output_columns(aliases, exprs, cols).len() == exprs.len()
            &&& 0 <= i < exprs.len() ==> project::output_columns(aliases, exprs, cols)[i].name
                == aliases[i]
        }),
{
}

} // verus!
