//! What `LIMIT` and `OFFSET` give over a sort: the rows that lie in the window, of all
//! that the sort alone gives, whichever way they were found.

use crate::evaluator;
use crate::executor::index_agreement;
use crate::executor::index_lookup::RangeBoundModel;
use crate::executor::operator;
use crate::executor::operator::{Relation, RowStream};
use crate::executor::ordered_topk;
use crate::executor::ordered_topk::TopkModel;
use crate::executor::project;
use crate::executor::project::Distinct;
use crate::executor::scan;
use crate::executor::semantics;
use crate::executor::semantics::{Built, Ctes};
use crate::executor::sources;
use crate::executor::sources::Env;
use crate::executor::storage_view;
use crate::executor::subquery;
use crate::logical_plan::{ExprModel, PlanModel};
use crate::schema::{ColumnModel, ErrorModel, TupleModel};
use crate::value::ValueModel;
use vstd::prelude::*;

verus! {

/// Whether a relation gives a window of what another one gives, with the same columns.
pub open spec fn is_window_of(part: Relation, whole: Relation, offset: usize, limit: usize) -> bool {
    &&& part.columns == whole.columns
    &&& part.timed == whole.timed
    &&& part.rows == project::window(whole.rows, offset as nat, limit as nat)
}

/// A plan under `LIMIT` and `OFFSET`.
pub open spec fn limit_over(input: PlanModel, limit: usize, offset: usize) -> PlanModel {
    PlanModel::Limit {
        input: Box::new(input),
        limit,
        offset,
        limit_param: None,
        offset_param: None,
    }
}

/// Whether what a plan gives in part is a window of what it gives in whole, and fails
/// exactly where that fails.
pub open spec fn gives_the_window(
    part: Result<Built, ErrorModel>,
    whole: Result<Built, ErrorModel>,
    offset: usize,
    limit: usize,
) -> bool {
    match whole {
        Err(e) => part == Err::<Built, ErrorModel>(e),
        Ok(b) => part is Ok && is_window_of(part->Ok_0.rel, b.rel, offset, limit)
            && part->Ok_0.ctes == b.ctes,
    }
}

proof fn lemma_cut_first(s: RowStream, budget: nat, offset: nat, limit: nat)
    requires
        s.end is None,
        budget >= offset + limit || budget >= s.rows.len(),
    ensures
        project::window(project::window(s, 0, budget), offset, limit) == project::window(
            s,
            offset,
            limit,
        ),
{
    let cut = project::window(s, 0, budget);
    assert(project::window(cut, offset, limit).rows =~= project::window(s, offset, limit).rows);
}

/// A limit over a sort gives the rows from the offset on, as many as the limit allows,
/// of what the sort alone gives, where no index serves it.
pub proof fn law_a_limit_over_a_sort_is_a_window(
    input: PlanModel,
    exprs: Seq<ExprModel>,
    asc: Seq<bool>,
    limit: usize,
    offset: usize,
    env: Env,
    ctes: Ctes,
)
    requires
        ({
            let p = PlanModel::Sort { input: Box::new(input), exprs, asc };
            &&& ordered_topk::served_by_index(p, env, ctes) is None
            &&& semantics::run(p, env, ctes) matches Ok(b) ==> b.rel.rows.rows.len() <= usize::MAX
        }),
    ensures
        ({
            let p = PlanModel::Sort { input: Box::new(input), exprs, asc };
            let whole = semantics::run(p, env, ctes);
            &&& gives_the_window(
                semantics::limit_sorted(p, limit, offset, env, ctes),
                whole,
                offset,
                limit,
            )
            &&& gives_the_window(
                semantics::run(limit_over(p, limit, offset), env, ctes),
                whole,
                offset,
                limit,
            )
        }),
{
    let p = PlanModel::Sort { input: Box::new(input), exprs, asc };
    let budget = semantics::row_budget(limit, offset);
    let below = semantics::run(input, env, ctes);
    let whole = semantics::run(p, env, ctes);
    assert(semantics::run_ordered(p, limit, offset, env, ctes) == Ok::<
        Option<Relation>,
        ErrorModel,
    >(None));
    let top = semantics::top_rows(input, exprs, asc, budget, env, ctes);
    if below is Ok {
        let sorted = semantics::sort_above(below->Ok_0.rel, exprs, asc, env);
        if sorted is Ok {
            assert(whole == Ok::<Built, ErrorModel>(
                Built { rel: sorted->Ok_0, ctes: below->Ok_0.ctes },
            ));
            lemma_cut_first(
                sorted->Ok_0.rows,
                budget as nat,
                offset as nat,
                limit as nat,
            );
        }
    }
    assert(semantics::wrapped(top->Ok_0.rel, None, env) == Ok::<Relation, ErrorModel>(
        top->Ok_0.rel,
    ));
    let part = semantics::limit_sorted(p, limit, offset, env, ctes);
    assert(gives_the_window(part, whole, offset, limit));
    lemma_limit_runs(p, limit, offset, env, ctes);
}

proof fn lemma_limit_runs(p: PlanModel, limit: usize, offset: usize, env: Env, ctes: Ctes)
    requires
        semantics::scan_below(p) is None,
    ensures
        semantics::run(limit_over(p, limit, offset), env, ctes) == if limit == usize::MAX {
            semantics::limit_above(p, limit, offset, env, ctes)
        } else {
            semantics::limit_sorted(p, limit, offset, env, ctes)
        },
        gives_the_window(
            semantics::limit_above(p, limit, offset, env, ctes),
            semantics::run(p, env, ctes),
            offset,
            limit,
        ),
{
    assert(!semantics::is_list_over_scan(p));
    assert(semantics::limit_known(p, limit, offset, env, ctes) == if limit == usize::MAX {
        semantics::limit_above(p, limit, offset, env, ctes)
    } else {
        semantics::limit_sorted(p, limit, offset, env, ctes)
    });
}

/// Whether a stream is the beginning of another one, as far as `k` rows reach.
pub open spec fn begins(part: RowStream, whole: RowStream, k: nat) -> bool {
    if whole.rows.len() >= k {
        part.rows == whole.rows.take(k as int) && part.end is None
    } else {
        part == whole
    }
}

proof fn lemma_list_of_first_rows(
    rows: Seq<TupleModel>,
    k: nat,
    exprs: Seq<ExprModel>,
    cols: Seq<ColumnModel>,
    params: Seq<ValueModel>,
)
    requires
        k <= rows.len(),
    ensures
        begins(
            project::projected(
                operator::just_rows(rows.take(k as int)),
                exprs,
                cols,
                params,
                Distinct::Keep,
                Seq::empty(),
            ),
            project::projected(
                operator::just_rows(rows),
                exprs,
                cols,
                params,
                Distinct::Keep,
                Seq::empty(),
            ),
            k,
        ),
    decreases rows.len(),
{
    let none = Seq::<Seq<ValueModel>>::empty();
    let whole = operator::just_rows(rows);
    let part = operator::just_rows(rows.take(k as int));
    let given = project::projected(whole, exprs, cols, params, Distinct::Keep, none);
    if k == 0 {
        assert(part.rows =~= Seq::<TupleModel>::empty());
        assert(given.rows.take(0) =~= Seq::<TupleModel>::empty());
    } else {
        let rest = rows.drop_first();
        lemma_list_of_first_rows(rest, (k - 1) as nat, exprs, cols, params);
        assert(whole.rest() =~= operator::just_rows(rest));
        assert(part.rest() =~= operator::just_rows(rest.take(k - 1)));
        let tail = project::projected(
            operator::just_rows(rest),
            exprs,
            cols,
            params,
            Distinct::Keep,
            none,
        );
        if let Ok(values) = evaluator::eval_all(exprs, cols, params, rows[0].values) {
            let out = TupleModel { values, row_id: rows[0].row_id, branch_id: None };
            assert(given == tail.after(out));
            if tail.rows.len() >= k - 1 {
                assert(tail.after(out).rows.take(k as int) =~= seq![out] + tail.rows.take(k - 1));
            }
        }
    }
}

proof fn lemma_window_of_beginning(part: RowStream, whole: RowStream, k: nat, offset: nat, limit: nat)
    requires
        begins(part, whole, k),
        k >= offset + limit || part == whole,
    ensures
        project::window(part, offset, limit) == project::window(whole, offset, limit),
{
    assert(project::window(part, offset, limit).rows =~= project::window(
        whole,
        offset,
        limit,
    ).rows);
}

/// A `SELECT` list without `DISTINCT`.
pub open spec fn list_over(
    input: PlanModel,
    exprs: Seq<ExprModel>,
    aliases: Seq<Seq<char>>,
    source_alias: Option<Seq<char>>,
) -> PlanModel {
    PlanModel::Project {
        input: Box::new(input),
        exprs,
        aliases,
        distinct: false,
        distinct_on: None,
        source_alias,
    }
}

/// A limit over a `SELECT` list over a sort gives the window of what the list over the
/// sort gives, where no index serves it and no item has a correlated subquery.
pub proof fn law_a_limit_over_a_sorted_list_is_a_window(
    input: PlanModel,
    keys: Seq<ExprModel>,
    asc: Seq<bool>,
    exprs: Seq<ExprModel>,
    aliases: Seq<Seq<char>>,
    source_alias: Option<Seq<char>>,
    limit: usize,
    offset: usize,
    env: Env,
    ctes: Ctes,
)
    requires
        ({
            let sort = PlanModel::Sort { input: Box::new(input), exprs: keys, asc };
            let p = list_over(sort, exprs, aliases, source_alias);
            &&& ordered_topk::served_by_index(p, env, ctes) is None
            &&& !semantics::has_window(exprs, exprs.len())
            &&& semantics::run(sort, env, ctes) matches Ok(b) ==> {
                &&& b.rel.rows.rows.len() <= usize::MAX
                &&& !subquery::any_correlated(exprs, exprs.len(), b.rel.columns)
            }
        }),
    ensures
        ({
            let sort = PlanModel::Sort { input: Box::new(input), exprs: keys, asc };
            let p = list_over(sort, exprs, aliases, source_alias);
            let whole = semantics::run(p, env, ctes);
            &&& gives_the_window(
                semantics::limit_sorted(p, limit, offset, env, ctes),
                whole,
                offset,
                limit,
            )
            &&& gives_the_window(
                semantics::run(limit_over(p, limit, offset), env, ctes),
                whole,
                offset,
                limit,
            )
        }),
{
    let sort = PlanModel::Sort { input: Box::new(input), exprs: keys, asc };
    let p = list_over(sort, exprs, aliases, source_alias);
    let budget = semantics::row_budget(limit, offset);
    let below = semantics::run(input, env, ctes);
    let sorted = semantics::run(sort, env, ctes);
    let whole = semantics::run(p, env, ctes);
    let top = semantics::top_rows(input, keys, asc, budget, env, ctes);
    assert(semantics::run_ordered(p, limit, offset, env, ctes) == Ok::<
        Option<Relation>,
        ErrorModel,
    >(None));
    lemma_list_runs(sort, exprs, aliases, source_alias, env, ctes);
    if sorted is Ok {
        let rel = sorted->Ok_0.rel;
        assert(rel.rows.end is None);
        assert(top is Ok);
        assert(top->Ok_0.rel == semantics::limited(rel, budget, 0));
        lemma_wrapped_windows(rel, exprs, aliases, budget, limit, offset, env);
    }
    lemma_limit_runs(p, limit, offset, env, ctes);
    assert(gives_the_window(
        semantics::limit_sorted(p, limit, offset, env, ctes),
        whole,
        offset,
        limit,
    ));
}

proof fn lemma_list_runs(
    sort: PlanModel,
    exprs: Seq<ExprModel>,
    aliases: Seq<Seq<char>>,
    source_alias: Option<Seq<char>>,
    env: Env,
    ctes: Ctes,
)
    requires
        sort is Sort,
        !semantics::has_window(exprs, exprs.len()),
        semantics::run(sort, env, ctes) matches Ok(b) ==> !subquery::any_correlated(
            exprs,
            exprs.len(),
            b.rel.columns,
        ),
    ensures
        semantics::run(list_over(sort, exprs, aliases, source_alias), env, ctes) == (
        match semantics::run(sort, env, ctes) {
            Err(e) => Err(e),
            Ok(b) => semantics::built(
                semantics::select_above(b.rel, exprs, aliases, false, None, env),
                b.ctes,
            ),
        }),
{
    assert(semantics::run_projected_join(sort, exprs, aliases, env, ctes)
        == semantics::Attempt::Declined(ctes));
    assert(semantics::run_project(sort, exprs, aliases, false, None, env, ctes) == (
    match semantics::run(sort, env, ctes) {
        Err(e) => Err(e),
        Ok(b) => semantics::built(
            semantics::project_above(b, exprs, aliases, false, None, env),
            b.ctes,
        ),
    }));
}

proof fn lemma_wrapped_windows(
    rel: Relation,
    exprs: Seq<ExprModel>,
    aliases: Seq<Seq<char>>,
    budget: usize,
    limit: usize,
    offset: usize,
    env: Env,
)
    requires
        rel.rows.end is None,
        rel.rows.rows.len() <= usize::MAX,
        budget >= offset + limit || budget == usize::MAX,
    ensures
        ({
            let part = semantics::select_above(
                semantics::limited(rel, budget, 0),
                exprs,
                aliases,
                false,
                None,
                env,
            );
            match semantics::select_above(rel, exprs, aliases, false, None, env) {
                Err(e) => part == Err::<Relation, ErrorModel>(e),
                Ok(whole) => part is Ok && is_window_of(
                    semantics::limited(part->Ok_0, limit, offset),
                    whole,
                    offset,
                    limit,
                ),
            }
        }),
{
    let rows = rel.rows.rows;
    let cut = semantics::limited(rel, budget, 0);
    let none = Seq::<Seq<ValueModel>>::empty();
    assert(rel.rows =~= operator::just_rows(rows));
    if let Ok(m) = semantics::materialized_list(exprs, exprs.len(), env) {
        let whole = project::projected(
            rel.rows,
            m,
            rel.columns,
            env.params,
            Distinct::Keep,
            none,
        );
        let part = project::projected(
            cut.rows,
            m,
            rel.columns,
            env.params,
            Distinct::Keep,
            none,
        );
        if budget <= rows.len() {
            assert(cut.rows =~= operator::just_rows(rows.take(budget as int)));
            lemma_list_of_first_rows(rows, budget as nat, m, rel.columns, env.params);
            if budget < offset + limit {
                assert(rows.take(budget as int) =~= rows);
            }
        } else {
            assert(cut.rows.rows =~= rows);
            assert(cut.rows =~= rel.rows);
            lemma_list_is_no_longer(rows, m, rel.columns, env.params);
        }
        lemma_window_of_beginning(part, whole, budget as nat, offset as nat, limit as nat);
    }
}

proof fn lemma_list_is_no_longer(
    rows: Seq<TupleModel>,
    exprs: Seq<ExprModel>,
    cols: Seq<ColumnModel>,
    params: Seq<ValueModel>,
)
    ensures
        project::projected(
            operator::just_rows(rows),
            exprs,
            cols,
            params,
            Distinct::Keep,
            Seq::empty(),
        ).rows.len() <= rows.len(),
    decreases rows.len(),
{
    if rows.len() > 0 {
        lemma_list_is_no_longer(rows.drop_first(), exprs, cols, params);
        assert(operator::just_rows(rows).rest() =~= operator::just_rows(rows.drop_first()));
    }
}

/// All rows that an index leads to for a sort that it serves, in the order of the index.
pub open spec fn served_rows(t: TopkModel, predicate: Option<ExprModel>, env: Env) -> Seq<
    TupleModel,
> {
    scan::scanned(
        t.node.projection,
        index_agreement::all_in_order(
            served_entries(t, env),
            semantics::topk_query(t, predicate, 0, env),
        ),
    )
}

/// The entries of the index that serves a sort, as far as the bounds reach.
pub open spec fn served_entries(t: TopkModel, env: Env) -> Seq<(ValueModel, u64)> {
    storage_view::entries_within(
        sources::known_entries(env.storage->Some_0, t.index),
        t.lower,
        t.upper,
    )
}

proof fn lemma_within_is_no_longer(
    entries: Seq<(ValueModel, u64)>,
    lower: Option<RangeBoundModel>,
    upper: Option<RangeBoundModel>,
)
    ensures
        storage_view::entries_within(entries, lower, upper).len() <= entries.len(),
    decreases entries.len(),
{
    if entries.len() > 0 {
        lemma_within_is_no_longer(entries.drop_last(), lower, upper);
    }
}

proof fn lemma_reached_whatever_is_asked(
    entries: Seq<(ValueModel, u64)>,
    n: nat,
    q: ordered_topk::TopkQuery,
    k: nat,
    first: bool,
)
    ensures
        ordered_topk::rows_reached(entries, n, q, first) == ordered_topk::rows_reached(
            entries,
            n,
            (ordered_topk::TopkQuery { k, ..q }),
            first,
        ),
        ordered_topk::rows_reached(entries, n, q, first).len() <= n,
    decreases n,
{
    if n > 0 && n <= entries.len() {
        lemma_reached_whatever_is_asked(entries, (n - 1) as nat, q, k, first);
    }
}

/// All that an index leads to for a sort that it serves.
pub open spec fn served_relation(t: TopkModel, predicate: Option<ExprModel>, env: Env) -> Relation {
    semantics::under_limit(
        scan::scanned_columns(
            t.node.projection,
            sources::sourced(
                t.node.cols,
                sources::source_name(t.node.alias, t.node.table),
                t.node.table,
            ),
        ),
        served_rows(t, predicate, env),
    )
}

/// Whether an index serves a sort without a failure: its predicate can be tested on each
/// row that it leads to, and no row with NULL comes behind one without.
pub open spec fn is_served_well(t: TopkModel, predicate: Option<ExprModel>, env: Env) -> bool {
    let q = semantics::topk_query(t, predicate, 0, env);
    &&& semantics::materialized_plain(t.predicate, env) == Ok::<Option<ExprModel>, ErrorModel>(
        predicate,
    )
    &&& sources::known_entries(env.storage->Some_0, t.index).len() <= usize::MAX
    &&& ordered_topk::never_fails(served_entries(t, env), q)
    &&& ordered_topk::nulls_lead(served_entries(t, env), q)
    &&& served_rows(t, predicate, env).len() <= usize::MAX
}

/// What an index is asked for are the first of all rows that it leads to.
proof fn lemma_served_cut(t: TopkModel, predicate: Option<ExprModel>, budget: usize, env: Env)
    requires
        is_served_well(t, predicate, env),
    ensures
        ({
            let cols = sources::sourced(
                t.node.cols,
                sources::source_name(t.node.alias, t.node.table),
                t.node.table,
            );
            let first = semantics::topk_rows(t, predicate, budget, env);
            &&& first is Ok
            &&& semantics::scanned(t.node, cols, first->Ok_0) == semantics::limited(
                served_relation(t, predicate, env),
                budget,
                0,
            )
        }),
{
    let q = semantics::topk_query(t, predicate, budget, env);
    let plain = semantics::topk_query(t, predicate, 0, env);
    let known = sources::known_entries(env.storage->Some_0, t.index);
    let entries = served_entries(t, env);
    lemma_within_is_no_longer(known, t.lower, t.upper);
    assert forall|i: int| 0 <= i < entries.len() implies (storage_view::row_with_id(
        q.rows,
        (#[trigger] entries[i]).1,
        0,
    ) matches Some(row) ==> ordered_topk::wanted(q, row) is Ok) by {
        assert(storage_view::row_with_id(plain.rows, entries[i].1, 0) matches Some(row)
            ==> ordered_topk::wanted(plain, row) is Ok);
    }
    assert(ordered_topk::nulls_lead(entries, q));
    ordered_topk::law_batches_give_the_first_rows(entries, known.len() as usize, budget, q);
    lemma_reached_whatever_is_asked(entries, entries.len(), plain, q.k, true);
    lemma_reached_whatever_is_asked(entries, entries.len(), plain, q.k, false);
    assert(q == ordered_topk::TopkQuery { k: q.k, ..plain });
    let all = index_agreement::all_in_order(entries, plain);
    let first = ordered_topk::first_in_order(entries, q);
    assert(first == if budget <= all.len() {
        all.take(budget as int)
    } else {
        all
    });
    let whole = served_rows(t, predicate, env);
    let cut = scan::scanned(t.node.projection, first);
    assert(cut =~= project::window(operator::just_rows(whole), 0, budget as nat).rows);
    assert(project::window(operator::just_rows(whole), 0, budget as nat)
        =~= operator::just_rows(cut));
    assert(semantics::topk_rows(t, predicate, budget, env) == Ok::<Seq<TupleModel>, ErrorModel>(
        first,
    ));
}

/// A limit over a sort that an index serves gives the rows from the offset on, as many as
/// the limit allows, of all rows that the index leads to, in its order; with a `SELECT` list
/// between them, of what the list gives over all these rows.
pub proof fn law_a_limit_served_by_an_index_is_a_window(
    p: PlanModel,
    predicate: Option<ExprModel>,
    limit: usize,
    offset: usize,
    env: Env,
    ctes: Ctes,
)
    requires
        ordered_topk::served_by_index(p, env, ctes) is Some,
        is_served_well(ordered_topk::served_by_index(p, env, ctes)->Some_0, predicate, env),
    ensures
        ({
            let t = ordered_topk::served_by_index(p, env, ctes)->Some_0;
            let whole = semantics::wrapped(served_relation(t, predicate, env), t.wrap, env);
            gives_the_window(
                semantics::limit_sorted(p, limit, offset, env, ctes),
                semantics::built(whole, ctes),
                offset,
                limit,
            )
        }),
{
    let t = ordered_topk::served_by_index(p, env, ctes)->Some_0;
    let budget = semantics::row_budget(limit, offset);
    let rel = served_relation(t, predicate, env);
    lemma_served_cut(t, predicate, budget, env);
    let cols = sources::sourced(
        t.node.cols,
        sources::source_name(t.node.alias, t.node.table),
        t.node.table,
    );
    let first = semantics::topk_rows(t, predicate, budget, env)->Ok_0;
    let cut = semantics::scanned(t.node, cols, first);
    assert(cut == semantics::limited(rel, budget, 0));
    match t.wrap {
        None => {
            lemma_cut_first(rel.rows, budget as nat, offset as nat, limit as nat);
            assert(semantics::wrapped(cut, None, env) == Ok::<Relation, ErrorModel>(cut));
            assert(semantics::wrapped(rel, None, env) == Ok::<Relation, ErrorModel>(rel));
        },
        Some(w) => {
            assert(!w.distinct && w.distinct_on is None);
            lemma_wrapped_windows(rel, w.exprs, w.aliases, budget, limit, offset, env);
            assert(semantics::wrapped(cut, t.wrap, env) == semantics::select_above(
                cut,
                w.exprs,
                w.aliases,
                false,
                None,
                env,
            ));
            assert(semantics::wrapped(rel, t.wrap, env) == semantics::select_above(
                rel,
                w.exprs,
                w.aliases,
                false,
                None,
                env,
            ));
        },
    }
    let given = semantics::run_ordered(p, limit, offset, env, ctes);
    assert(given == match semantics::wrapped(cut, t.wrap, env) {
        Err(e) => Err::<Option<Relation>, ErrorModel>(e),
        Ok(r) => Ok(Some(semantics::limited(r, limit, offset))),
    });
}

/// A limit over a `SELECT` list over a scan gives the window of what the list gives,
/// where the list fails on no row: cutting the scan first changes nothing.
pub proof fn law_a_limit_over_a_list_is_a_window(
    input: PlanModel,
    exprs: Seq<ExprModel>,
    aliases: Seq<Seq<char>>,
    source_alias: Option<Seq<char>>,
    limit: usize,
    offset: usize,
    env: Env,
    ctes: Ctes,
)
    requires
        ({
            let p = list_over(input, exprs, aliases, source_alias);
            &&& semantics::scan_node(input) is Some
            &&& !semantics::has_window(exprs, exprs.len())
            &&& semantics::run(input, env, ctes) matches Ok(b) && !subquery::any_correlated(
                exprs,
                exprs.len(),
                b.rel.columns,
            )
            &&& semantics::run(p, env, ctes) matches Ok(b) && b.rel.rows.end is None
        }),
    ensures
        ({
            let p = list_over(input, exprs, aliases, source_alias);
            gives_the_window(
                semantics::run(limit_over(p, limit, offset), env, ctes),
                semantics::run(p, env, ctes),
                offset,
                limit,
            )
        }),
{
    let p = list_over(input, exprs, aliases, source_alias);
    let n = semantics::scan_node(input)->Some_0;
    let scanned = semantics::scan_rows(n, env, ctes);
    assert(semantics::run(input, env, ctes) == semantics::built(scanned, ctes));
    let rel = scanned->Ok_0;
    let none = Seq::<Seq<ValueModel>>::empty();
    assert(semantics::run_projected_join(input, exprs, aliases, env, ctes)
        == semantics::Attempt::Declined(ctes));
    assert(semantics::run_project(input, exprs, aliases, false, None, env, ctes)
        == semantics::built(
        semantics::project_above(
            (Built { rel, ctes }),
            exprs,
            aliases,
            false,
            None,
            env,
        ),
        ctes,
    ));
    let m = semantics::materialized_list(exprs, exprs.len(), env)->Ok_0;
    assert(rel.rows =~= operator::just_rows(rel.rows.rows));
    lemma_list_of_window(rel.rows.rows, m, rel.columns, env.params, offset as nat, limit as nat);
    assert(semantics::limited_list(p, limit, offset, env, ctes) == semantics::project_above(
        (Built { rel: semantics::limited(rel, limit, offset), ctes }),
        exprs,
        aliases,
        false,
        None,
        env,
    ));
    assert(semantics::limit_known(p, limit, offset, env, ctes) == semantics::built(
        semantics::limited_list(p, limit, offset, env, ctes),
        ctes,
    ));
}

pub proof fn lemma_list_item_by_item(
    rows: Seq<TupleModel>,
    exprs: Seq<ExprModel>,
    cols: Seq<ColumnModel>,
    params: Seq<ValueModel>,
)
    requires
        forall|i: int|
            0 <= i < rows.len() ==> evaluator::eval_all(
                exprs,
                cols,
                params,
                (#[trigger] rows[i]).values,
            ) is Ok,
    ensures
        project::projected(
            operator::just_rows(rows),
            exprs,
            cols,
            params,
            Distinct::Keep,
            Seq::empty(),
        ) == operator::just_rows(rows.map_values(|r: TupleModel| list_row(r, exprs, cols, params))),
    decreases rows.len(),
{
    let f = |r: TupleModel| list_row(r, exprs, cols, params);
    if rows.len() > 0 {
        let rest = rows.drop_first();
        assert forall|i: int| 0 <= i < rest.len() implies evaluator::eval_all(
            exprs,
            cols,
            params,
            (#[trigger] rest[i]).values,
        ) is Ok by {
            assert(rest[i] == rows[i + 1]);
        }
        lemma_list_item_by_item(rest, exprs, cols, params);
        assert(operator::just_rows(rows).rest() =~= operator::just_rows(rest));
        assert(rows.map_values(f) =~= seq![f(rows[0])] + rest.map_values(f));
    } else {
        assert(rows.map_values(f) =~= rows);
    }
}

/// The output row of a `SELECT` list for one row: the values of its items.
pub open spec fn list_row(
    row: TupleModel,
    exprs: Seq<ExprModel>,
    cols: Seq<ColumnModel>,
    params: Seq<ValueModel>,
) -> TupleModel {
    TupleModel {
        values: evaluator::eval_all(exprs, cols, params, row.values)->Ok_0,
        row_id: row.row_id,
        branch_id: None,
    }
}

pub proof fn lemma_list_that_ends_well(
    rows: Seq<TupleModel>,
    exprs: Seq<ExprModel>,
    cols: Seq<ColumnModel>,
    params: Seq<ValueModel>,
)
    requires
        project::projected(
            operator::just_rows(rows),
            exprs,
            cols,
            params,
            Distinct::Keep,
            Seq::empty(),
        ).end is None,
    ensures
        forall|i: int|
            0 <= i < rows.len() ==> evaluator::eval_all(
                exprs,
                cols,
                params,
                (#[trigger] rows[i]).values,
            ) is Ok,
    decreases rows.len(),
{
    if rows.len() > 0 {
        let rest = rows.drop_first();
        assert(operator::just_rows(rows).rest() =~= operator::just_rows(rest));
        lemma_list_that_ends_well(rest, exprs, cols, params);
        assert forall|i: int| 0 <= i < rows.len() implies evaluator::eval_all(
            exprs,
            cols,
            params,
            (#[trigger] rows[i]).values,
        ) is Ok by {
            if i > 0 {
                assert(rows[i] == rest[i - 1]);
            }
        }
    }
}

/// A `SELECT` list without `DISTINCT` that ends well gave one row for each row, in order,
/// with the values of its items in the order of the list; the stored place of a row is
/// kept.
pub proof fn law_a_list_gives_a_row_for_each_row(
    rows: Seq<TupleModel>,
    exprs: Seq<ExprModel>,
    cols: Seq<ColumnModel>,
    params: Seq<ValueModel>,
    i: int,
    j: int,
)
    requires
        project::projected(
            operator::just_rows(rows),
            exprs,
            cols,
            params,
            Distinct::Keep,
            Seq::empty(),
        ).end is None,
        0 <= i < rows.len(),
        0 <= j < exprs.len(),
    ensures
        ({
            let out = project::projected(
                operator::just_rows(rows),
                exprs,
                cols,
                params,
                Distinct::Keep,
                Seq::empty(),
            ).rows;
            &&& out.len() == rows.len()
            &&& out[i].row_id == rows[i].row_id
            &&& out[i].values.len() == exprs.len()
            &&& evaluator::eval(exprs[j], cols, params, rows[i].values) == Ok::<
                ValueModel,
                ErrorModel,
            >(out[i].values[j])
        }),
{
    lemma_list_that_ends_well(rows, exprs, cols, params);
    lemma_list_item_by_item(rows, exprs, cols, params);
    assert(evaluator::eval_all(exprs, cols, params, rows[i].values) is Ok);
    evaluator::lemma_list_values(exprs, cols, params, rows[i].values);
}

proof fn lemma_list_of_window(
    rows: Seq<TupleModel>,
    exprs: Seq<ExprModel>,
    cols: Seq<ColumnModel>,
    params: Seq<ValueModel>,
    offset: nat,
    limit: nat,
)
    requires
        project::projected(
            operator::just_rows(rows),
            exprs,
            cols,
            params,
            Distinct::Keep,
            Seq::empty(),
        ).end is None,
    ensures
        project::projected(
            project::window(operator::just_rows(rows), offset, limit),
            exprs,
            cols,
            params,
            Distinct::Keep,
            Seq::empty(),
        ) == project::window(
            project::projected(
                operator::just_rows(rows),
                exprs,
                cols,
                params,
                Distinct::Keep,
                Seq::empty(),
            ),
            offset,
            limit,
        ),
{
    let cut = project::window(operator::just_rows(rows), offset, limit);
    lemma_list_that_ends_well(rows, exprs, cols, params);
    lemma_list_item_by_item(rows, exprs, cols, params);
    assert forall|i: int| 0 <= i < cut.rows.len() implies evaluator::eval_all(
        exprs,
        cols,
        params,
        (#[trigger] cut.rows[i]).values,
    ) is Ok by {
        assert(cut.rows[i] == rows[offset + i]);
    }
    lemma_list_item_by_item(cut.rows, exprs, cols, params);
    assert(cut =~= operator::just_rows(cut.rows));
    let f = |r: TupleModel| list_row(r, exprs, cols, params);
    let whole = operator::just_rows(rows.map_values(f));
    assert(cut.rows.map_values(f) =~= project::window(whole, offset, limit).rows);
}

} // verus!
