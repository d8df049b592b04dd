//! How a recursive common table expression grows: round by round, each over the rows
//! that the round before added, until a round adds nothing.

use crate::executor::semantics;
use crate::executor::semantics::Ctes;
use crate::executor::sources;
use crate::executor::sources::{CteModel, Env};
use crate::logical_plan::PlanModel;
use crate::schema::{ColumnModel, ErrorModel, TupleModel};
use vstd::prelude::*;

verus! {

/// A common table expression that refers to itself.
pub struct SelfReference {
    pub plan: PlanModel,
    pub name: Seq<char>,
    pub cols: Seq<ColumnModel>,
    pub env: Env,
}

/// Where the evaluation stands: all rows so far, those that the last round added, and
/// the common table expressions in sight.
pub struct Round {
    pub all: Seq<TupleModel>,
    pub added: Seq<TupleModel>,
    pub ctes: Ctes,
}

/// What the plan gives over the rows that the last round added.
pub open spec fn evaluated(t: SelfReference, r: Round) -> Result<semantics::Built, ErrorModel> {
    semantics::run(
        t.plan,
        t.env,
        semantics::with_cte(r.ctes, (CteModel { name: t.name, rows: r.added, columns: t.cols })),
    )
}

/// The rows that the plan gives over those that the last round added.
pub open spec fn given(t: SelfReference, r: Round) -> Result<Seq<TupleModel>, ErrorModel> {
    semantics::rows_given(evaluated(t, r))
}

/// Rows that are not among the known ones.
pub open spec fn unknown(known: Seq<TupleModel>) -> spec_fn(TupleModel) -> bool {
    |row: TupleModel| !known.contains(row)
}

/// Whether one round leads to the next: it adds the rows that the plan gives and that
/// were not there.
pub open spec fn leads_to(t: SelfReference, r: Round, next: Round) -> bool {
    &&& r.added.len() > 0
    &&& given(t, r) is Ok
    &&& next.added == given(t, r)->Ok_0.filter(unknown(r.all))
    &&& next.all == r.all + next.added
    &&& next.ctes == evaluated(t, r)->Ok_0.ctes
}

/// A run of rounds, each leading to the next.
pub open spec fn is_history(t: SelfReference, first: Round, h: Seq<Round>) -> bool {
    &&& h.len() > 0
    &&& h[0] == first
    &&& forall|i: int| 0 < i < h.len() ==> leads_to(t, h[i - 1], #[trigger] h[i])
}

/// The number of rounds at most.
pub open spec fn rounds_at_most() -> nat {
    1000
}

/// Whether a history ends as it should: with a round that added nothing, or after the
/// last round that is allowed.
pub open spec fn is_complete(t: SelfReference, first: Round, h: Seq<Round>, left: nat) -> bool {
    &&& is_history(t, first, h)
    &&& h.len() <= left + 1
    &&& h.len() < left + 1 ==> h.last().added.len() == 0
}

/// Whether a history ends in a round whose evaluation fails.
pub open spec fn is_broken(
    t: SelfReference,
    first: Round,
    h: Seq<Round>,
    left: nat,
    e: ErrorModel,
) -> bool {
    &&& is_history(t, first, h)
    &&& h.len() <= left
    &&& h.last().added.len() > 0
    &&& given(t, h.last()) == Err::<Seq<TupleModel>, ErrorModel>(e)
}

proof fn lemma_new_rows(rows: Seq<TupleModel>, n: nat, known: Seq<TupleModel>)
    requires
        n <= rows.len(),
    ensures
        semantics::new_rows(rows, n, known) == rows.take(n as int).filter(unknown(known)),
    decreases n,
{
    reveal(Seq::filter);
    if n > 0 {
        lemma_new_rows(rows, (n - 1) as nat, known);
        assert(rows.take(n as int).drop_last() =~= rows.take(n - 1));
        assert(rows.take(n as int).last() == rows[n - 1]);
    } else {
        assert(rows.take(0) =~= Seq::<TupleModel>::empty());
    }
}

spec fn from_round(t: SelfReference, r: Round, k: nat) -> Result<
    (Seq<TupleModel>, Ctes),
    ErrorModel,
> {
    semantics::fixpoint(t.plan, t.name, t.cols, r.all, r.added, k, t.env, r.ctes)
}

proof fn lemma_history_before(t: SelfReference, r: Round, next: Round, h: Seq<Round>)
    requires
        leads_to(t, r, next),
        is_history(t, next, h),
    ensures
        is_history(t, r, seq![r] + h),
        (seq![r] + h).last() == h.last(),
{
    let all = seq![r] + h;
    assert forall|i: int| 0 < i < all.len() implies leads_to(t, all[i - 1], #[trigger] all[i]) by {
        assert(all[i] == h[i - 1]);
        if i > 1 {
            assert(all[i - 1] == h[i - 2]);
            assert(leads_to(t, h[i - 1 - 1], h[i - 1]));
        }
    }
}

proof fn lemma_rounds(t: SelfReference, r: Round, k: nat)
    requires
        k <= rounds_at_most(),
    ensures
        match from_round(t, r, k) {
            Ok(end) => exists|h: Seq<Round>|
                {
                    &&& #[trigger] is_complete(t, r, h, (rounds_at_most() - k) as nat)
                    &&& h.last().all == end.0
                    &&& h.last().ctes == end.1
                },
            Err(e) => exists|h: Seq<Round>| #[trigger]
                is_broken(t, r, h, (rounds_at_most() - k) as nat, e),
        },
    decreases rounds_at_most() - k,
{
    let left = (rounds_at_most() - k) as nat;
    let alone = seq![r];
    assert(is_history(t, r, alone));
    assert(alone.last() == r);
    if r.added.len() == 0 || k >= rounds_at_most() {
        assert(is_complete(t, r, alone, left));
    } else if given(t, r) is Err {
        assert(is_broken(t, r, alone, left, given(t, r)->Err_0));
    } else {
        let rows = given(t, r)->Ok_0;
        lemma_new_rows(rows, rows.len(), r.all);
        assert(rows.take(rows.len() as int) =~= rows);
        let more = rows.filter(unknown(r.all));
        let next = Round { all: r.all + more, added: more, ctes: evaluated(t, r)->Ok_0.ctes };
        assert(leads_to(t, r, next));
        assert(from_round(t, r, k) == from_round(t, next, k + 1));
        lemma_rounds(t, next, k + 1);
        match from_round(t, next, k + 1) {
            Ok(end) => {
                let h = choose|h: Seq<Round>|
                    {
                        &&& #[trigger] is_complete(t, next, h, (left - 1) as nat)
                        &&& h.last().all == end.0
                        &&& h.last().ctes == end.1
                    };
                lemma_history_before(t, r, next, h);
                assert(is_complete(t, r, seq![r] + h, left));
            },
            Err(e) => {
                let h = choose|h: Seq<Round>| #[trigger]
                    is_broken(t, next, h, (left - 1) as nat, e);
                lemma_history_before(t, r, next, h);
                assert(is_broken(t, r, seq![r] + h, left, e));
            },
        }
    }
}

/// Whether some rows are closed: the plan, over the rows that were added last, gives no
/// row that is not among them.
pub open spec fn is_closed(t: SelfReference, r: Round, rows: Seq<TupleModel>) -> bool {
    &&& given(t, r) is Ok
    &&& forall|row: TupleModel| #[trigger] given(t, r)->Ok_0.contains(row) ==> rows.contains(row)
}

/// A history that took fewer rounds than are allowed ends closed: over the rows that
/// were added last, the plan gives no row that is not there already.
pub proof fn law_a_short_history_is_closed(t: SelfReference, first: Round, h: Seq<Round>)
    requires
        is_complete(t, first, h, rounds_at_most()),
        1 < h.len() <= rounds_at_most(),
    ensures
        is_closed(t, h[h.len() - 2], h.last().all),
{
    let before = h[h.len() - 2];
    assert(leads_to(t, h[h.len() - 1 - 1], h[h.len() - 1]));
    let rows = given(t, before)->Ok_0;
    assert forall|row: TupleModel| #[trigger] rows.contains(row) implies h.last().all.contains(
        row,
    ) by {
        if !before.all.contains(row) {
            let i = choose|i: int| 0 <= i < rows.len() && rows[i] == row;
            rows.lemma_filter_contains(unknown(before.all), i);
            assert(h.last().added.contains(row));
        }
        assert(h.last().all =~= before.all);
    }
}

/// Evaluation to a fixpoint goes round by round: it ends when a round added nothing or
/// when a thousand rounds were run, and in no other round; it fails only where a round
/// fails. No row is lost on the way.
pub proof fn law_recursion_ends_when_nothing_is_added(t: SelfReference, first: Round)
    ensures
        match semantics::fixpoint(
            t.plan,
            t.name,
            t.cols,
            first.all,
            first.added,
            0,
            t.env,
            first.ctes,
        ) {
            Ok(end) => exists|h: Seq<Round>|
                {
                    &&& #[trigger] is_complete(t, first, h, rounds_at_most())
                    &&& h.last().all == end.0
                    &&& h.last().ctes == end.1
                    &&& 1 < h.len() <= 1000 ==> is_closed(t, h[h.len() - 2], end.0)
                },
            Err(e) => exists|h: Seq<Round>| #[trigger]
                is_broken(t, first, h, rounds_at_most(), e),
        },
{
    lemma_rounds(t, first, 0);
    match from_round(t, first, 0) {
        Ok(end) => {
            let h = choose|h: Seq<Round>|
                {
                    &&& #[trigger] is_complete(t, first, h, rounds_at_most())
                    &&& h.last().all == end.0
                    &&& h.last().ctes == end.1
                };
            if 1 < h.len() <= 1000 {
                law_a_short_history_is_closed(t, first, h);
            }
        },
        Err(e) => {},
    }
}

/// The first round of a recursive common table expression: its plan over no rows of its
/// own.
pub open spec fn starting(t: SelfReference, ctes: Ctes) -> Result<semantics::Built, ErrorModel> {
    evaluated(t, (Round { all: Seq::empty(), added: Seq::empty(), ctes }))
}

/// A recursive common table expression, once evaluated, is seen under its name with the
/// rows of a complete history that starts from what its plan gives over no rows of its
/// own.
pub proof fn law_a_recursive_table_is_a_fixpoint(
    name: Seq<char>,
    p: PlanModel,
    names: Option<Seq<Seq<char>>>,
    env: Env,
    ctes: Ctes,
)
    requires
        semantics::run_cte(name, p, names, true, env, ctes) is Ok,
    ensures
        ({
            let cols = sources::cte_columns(p, names);
            let t = SelfReference { plan: p, name, cols, env };
            let start = starting(t, ctes);
            let rows = semantics::rows_given(start);
            &&& rows is Ok
            &&& exists|h: Seq<Round>|
                {
                    &&& #[trigger] is_complete(
                        t,
                        (Round { all: rows->Ok_0, added: rows->Ok_0, ctes: start->Ok_0.ctes }),
                        h,
                        rounds_at_most(),
                    )
                    &&& 1 < h.len() <= 1000 ==> is_closed(t, h[h.len() - 2], h.last().all)
                    &&& semantics::run_cte(name, p, names, true, env, ctes)->Ok_0
                        == semantics::with_cte(
                        h.last().ctes,
                        (CteModel { name, rows: h.last().all, columns: cols }),
                    )
                }
        }),
{
    let cols = sources::cte_columns(p, names);
    let t = SelfReference { plan: p, name, cols, env };
    let start = starting(t, ctes);
    let rows = semantics::rows_given(start)->Ok_0;
    let first = Round { all: rows, added: rows, ctes: start->Ok_0.ctes };
    law_recursion_ends_when_nothing_is_added(t, first);
}

} // verus!
