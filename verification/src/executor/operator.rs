//! The operator interface, row streams and query timeouts.

use crate::schema;
use crate::schema::{ColumnModel, Error, ErrorModel, Schema, Tuple, TupleModel};
use crate::text;
use std::sync::Arc;
use std::sync::atomic::AtomicUsize;
use std::time::{Duration, Instant};
use vstd::prelude::*;
use vstd::string::*;

verus! {

/// The rows an operator still has to hand out, and how the rows end: with the
/// given error, or without one.
#[verifier::ext_equal]
pub struct RowStream {
    pub rows: Seq<TupleModel>,
    pub end: Option<ErrorModel>,
}

/// A stream without rows and without an error.
pub open spec fn no_rows() -> RowStream {
    RowStream { rows: Seq::empty(), end: None }
}

/// A stream that fails at once.
pub open spec fn failing(e: ErrorModel) -> RowStream {
    RowStream { rows: Seq::empty(), end: Some(e) }
}

/// A stream of given rows.
pub open spec fn just_rows(rows: Seq<TupleModel>) -> RowStream {
    RowStream { rows, end: None }
}

impl RowStream {
    /// The stream behind its first row.
    pub open spec fn rest(self) -> RowStream {
        RowStream { rows: self.rows.drop_first(), end: self.end }
    }

    /// The stream with one more row in front.
    pub open spec fn after(self, row: TupleModel) -> RowStream {
        RowStream { rows: seq![row] + self.rows, end: self.end }
    }
}

pub proof fn lemma_after_rest(s: RowStream, row: TupleModel)
    ensures
        s.after(row).rows.len() == s.rows.len() + 1,
        s.after(row).rows[0] == row,
        s.after(row).rest() == s,
{
    assert(s.after(row).rest() =~= s);
}

/// A physical execution operator: rows on demand.
///
/// `stream` is what the operator will hand out. A query timeout may cut it
/// short at any call, under one of the time limits that `limits` holds; after
/// an error nothing more is promised of the operator.
pub trait PhysicalOperator {
    /// The operator's internal invariant.
    spec fn ready(&self) -> bool;

    /// The rows still to come.
    spec fn stream(&self) -> RowStream;

    /// The columns of every row.
    spec fn columns(&self) -> Seq<ColumnModel>;

    /// The time limits, in milliseconds, that the operator is under: its own
    /// and those of the operators that it still reads from.
    spec fn limits(&self) -> Set<u64>;

    /// The next row, `None` behind the last one.
    fn next(&mut self) -> (r: Result<Option<Tuple>, Error>)
        requires
            old(self).ready(),
        ensures
            final(self).columns() == old(self).columns(),
            final(self).limits() == old(self).limits(),
            match r {
                Ok(Some(t)) => {
                    &&& final(self).ready()
                    &&& old(self).stream().rows.len() > 0
                    &&& t@ == old(self).stream().rows[0]
                    &&& final(self).stream() == old(self).stream().rest()
                },
                Ok(None) => {
                    &&& final(self).ready()
                    &&& old(self).stream() == no_rows()
                    &&& final(self).stream() == no_rows()
                },
                Err(e) => {
                    ||| timed_out(old(self).limits(), e@)
                    ||| old(self).stream() == failing(e@)
                },
            },
    ;

    /// The output schema.
    fn schema(&self) -> (r: Arc<Schema>)
        requires
            self.ready(),
        ensures
            r@ == self.columns(),
    ;
}

/// Rows with their columns. `timed` tells whether the rows are handed out
/// under the time limit of the query, or are at hand.
#[verifier::ext_equal]
pub struct Relation {
    pub columns: Seq<ColumnModel>,
    pub rows: RowStream,
    pub timed: bool,
}

/// Takes all rows out of an operator.
pub fn drain<O: PhysicalOperator>(op: &mut O) -> (r: Result<Vec<Tuple>, Error>)
    requires
        old(op).ready(),
    ensures
        match r {
            Ok(rows) => old(op).stream() == just_rows(schema::rows_model(rows@)),
            Err(e) => timed_out(old(op).limits(), e@) || old(op).stream().end == Some(e@),
        },
{
    let ghost whole = op.stream();
    let ghost limits = op.limits();
    let mut out: Vec<Tuple> = Vec::new();
    assert(schema::rows_model(out@) + op.stream().rows =~= whole.rows);
    loop
        invariant
            op.ready(),
            op.limits() == limits,
            op.stream().end == whole.end,
            schema::rows_model(out@) + op.stream().rows == whole.rows,
            whole == old(op).stream(),
            limits == old(op).limits(),
        decreases op.stream().rows.len(),
    {
        let ghost before = op.stream();
        match op.next() {
            Err(e) => {
                return Err(e);
            },
            Ok(None) => {
                assert(schema::rows_model(out@) =~= whole.rows);
                assert(whole =~= just_rows(schema::rows_model(out@)));
                return Ok(out);
            },
            Ok(Some(t)) => {
                let ghost taken = schema::rows_model(out@);
                out.push(t);
                assert(schema::rows_model(out@) =~= taken.push(t@));
                assert(schema::rows_model(out@) + op.stream().rows =~= taken + before.rows);
            },
        }
    }
}

/// `std::time::Instant`, a moment of the machine's clock.
#[verifier::external_type_specification]
#[verifier::external_body]
pub struct ExInstant(std::time::Instant);

/// `std::time::Instant::now`: the clock decides, nothing is claimed.
pub assume_specification[ std::time::Instant::now ]() -> std::time::Instant;

/// `std::time::Instant::elapsed`: the clock decides, nothing is claimed.
pub assume_specification[ std::time::Instant::elapsed ](start: &std::time::Instant) -> std::time::Duration;

/// `std::time::Duration::as_nanos`: nothing is claimed of the number, since
/// spans come from the clock.
pub assume_specification[ std::time::Duration::as_nanos ](span: &std::time::Duration) -> u128;

/// How many rows pass between two looks at the clock.
pub const CHECK_INTERVAL: usize = 1000;

/// The error of a query that ran for `elapsed` nanoseconds under a limit of
/// `limit` milliseconds.
pub open spec fn timeout_error(limit: u64, elapsed: u128) -> ErrorModel {
    ErrorModel::QueryTimeout(
        "Query exceeded timeout limit of "@ + text::decimal(limit as nat) + "ms (elapsed: "@
            + text::decimal((elapsed / 1_000_000) as nat) + "ms)"@,
    )
}

/// Whether a query has run for too long.
pub open spec fn over_limit(limit: u64, elapsed: u128) -> bool {
    elapsed > limit * 1_000_000
}

/// Decides what a look at the clock means: an error when the time spent
/// exceeds the limit.
pub fn timeout_verdict(limit: u64, elapsed: u128) -> (r: Result<(), Error>)
    ensures
        match r {
            Ok(_) => !over_limit(limit, elapsed),
            Err(e) => over_limit(limit, elapsed) && e@ == timeout_error(limit, elapsed),
        },
{
    if elapsed > limit as u128 * 1_000_000 {
        let mut m: String = text::concat_number(
            "Query exceeded timeout limit of ",
            limit as u128,
            "ms (elapsed: ",
        );
        text::append_decimal(&mut m, elapsed / 1_000_000);
        m.append("ms)");
        Err(Error::query_timeout(m))
    } else {
        Ok(())
    }
}

/// Whether a row is one at which the clock is looked at: the first, and every
/// thousandth behind it. `count` is the number of rows before it.
pub open spec fn clock_is_due(count: usize) -> bool {
    count % CHECK_INTERVAL == 0
}

/// The error of a row with `count` rows before it, under an optional limit in
/// milliseconds, `elapsed` nanoseconds after the start.
pub open spec fn check_error(limit: Option<u64>, count: usize, elapsed: u128) -> Option<
    ErrorModel,
> {
    match limit {
        None => None,
        Some(t) => if clock_is_due(count) && over_limit(t, elapsed) {
            Some(timeout_error(t, elapsed))
        } else {
            None
        },
    }
}

/// Decides whether a query goes on at a row with `count` rows before it,
/// `elapsed` nanoseconds after the start.
pub fn check_outcome(limit: Option<u64>, count: usize, elapsed: u128) -> (r: Result<(), Error>)
    ensures
        match limit {
            None => r is Ok,
            Some(t) => if clock_is_due(count) && over_limit(t, elapsed) {
                r matches Err(e) && e@ == timeout_error(t, elapsed)
            } else {
                r is Ok
            },
        },
{
    match limit {
        None => Ok(()),
        Some(t) => if count % CHECK_INTERVAL != 0 {
            Ok(())
        } else {
            timeout_verdict(t, elapsed)
        },
    }
}

/// The time limit of a query, shared by all operators that execute it.
pub struct TimeoutContext {
    start_time: Instant,
    timeout_ms: Option<u64>,
    rows_since_check: Arc<AtomicUsize>,
}

impl TimeoutContext {
    /// The limit in milliseconds.
    pub closed spec fn limit(&self) -> Option<u64> {
        self.timeout_ms
    }

    pub fn new(timeout_ms: Option<u64>) -> (r: TimeoutContext)
        ensures
            r.limit() == timeout_ms,
    {
        TimeoutContext {
            start_time: Instant::now(),
            timeout_ms,
            rows_since_check: Arc::new(AtomicUsize::new(0)),
        }
    }

    /// Counts one row and looks at the clock on the first and every thousandth
    /// behind it. Without a limit nothing is looked at. The counter is shared with
    /// the clones, so that its value and that of the clock are left open; what
    /// follows from them is `check_outcome`.
    pub fn check_timeout(&self) -> (r: Result<(), Error>)
        ensures
            self.limit() is None ==> r is Ok,
            exists|count: usize, elapsed: u128|
                match #[trigger] check_error(self.limit(), count, elapsed) {
                    Some(x) => r matches Err(e) && e@ == x,
                    None => r is Ok,
                },
            r matches Err(e) ==> timed_out(limits_of(self.limit()), e@),
    {
        if self.timeout_ms.is_none() {
            assert(check_error(self.limit(), 0, 0) is None);
            return Ok(());
        }
        let count: usize = self.rows_since_check.fetch_add(
            1,
            std::sync::atomic::Ordering::Relaxed,
        );
        let elapsed: u128 = if count % CHECK_INTERVAL == 0 {
            self.start_time.elapsed().as_nanos()
        } else {
            0
        };
        let r: Result<(), Error> = check_outcome(self.timeout_ms, count, elapsed);
        assert(match check_error(self.limit(), count, elapsed) {
            Some(x) => r matches Err(e) && e@ == x,
            None => r is Ok,
        });
        proof {
            if r is Err {
                let t: u64 = self.limit()->0;
                assert(limits_of(self.limit()).contains(t) && over_limit(t, elapsed)
                    && r->Err_0@ == timeout_error(t, elapsed));
            }
        }
        r
    }

    /// The time since the query started.
    pub fn elapsed(&self) -> Duration {
        self.start_time.elapsed()
    }
}

impl Clone for TimeoutContext {
    fn clone(&self) -> (r: TimeoutContext)
        ensures
            r.limit() == self.limit(),
    {
        TimeoutContext {
            start_time: self.start_time,
            timeout_ms: self.timeout_ms,
            rows_since_check: self.rows_since_check.clone(),
        }
    }
}

/// The limit of an optional context.
pub open spec fn limit_of(ctx: Option<TimeoutContext>) -> Option<u64> {
    match ctx {
        Some(c) => c.limit(),
        None => None,
    }
}

/// An optional limit as a set of limits.
pub open spec fn limits_of(limit: Option<u64>) -> Set<u64> {
    match limit {
        Some(t) => Set::empty().insert(t),
        None => Set::empty(),
    }
}

/// The limits of an operator that reads from operators under some limits and
/// checks a context of its own.
pub open spec fn with_limit_of(limits: Set<u64>, ctx: Option<TimeoutContext>) -> Set<u64> {
    limits.union(limits_of(limit_of(ctx)))
}

/// Whether an error is the timeout of one of some limits, exceeded.
pub open spec fn timed_out(limits: Set<u64>, e: ErrorModel) -> bool {
    exists|t: u64, elapsed: u128|
        limits.contains(t) && over_limit(t, elapsed) && e == #[trigger] timeout_error(t, elapsed)
}

/// Without a limit nothing times out.
pub proof fn law_without_a_limit_nothing_times_out(e: ErrorModel)
    ensures
        !timed_out(limits_of(None), e),
{
}

/// Under one limit, a timeout is that of the limit, exceeded.
pub proof fn law_a_timeout_names_the_limit(t: u64, e: ErrorModel)
    requires
        timed_out(limits_of(Some(t)), e),
    ensures
        exists|elapsed: u128| over_limit(t, elapsed) && e == #[trigger] timeout_error(t, elapsed),
{
    let (u, elapsed): (u64, u128) = choose|u: u64, elapsed: u128|
        limits_of(Some(t)).contains(u) && over_limit(u, elapsed) && e == #[trigger] timeout_error(
            u,
            elapsed,
        );
    assert(u == t);
    assert(over_limit(t, elapsed) && e == timeout_error(t, elapsed));
}

/// A limit that is met twice is one limit.
pub proof fn lemma_one_limit(limits: Set<u64>, limit: Option<u64>)
    requires
        limits == limits_of(limit) || limits == Set::<u64>::empty(),
    ensures
        limits.union(limits_of(limit)) == limits_of(limit),
{
    assert(limits.union(limits_of(limit)) =~= limits_of(limit));
}

/// Checks an optional time limit.
pub fn check_time(ctx: &Option<TimeoutContext>) -> (r: Result<(), Error>)
    ensures
        r matches Err(e) ==> timed_out(limits_of(limit_of(*ctx)), e@),
{
    match ctx {
        Some(c) => c.check_timeout(),
        None => Ok(()),
    }
}

/// Clones an optional time limit.
pub fn clone_timeout(ctx: &Option<TimeoutContext>) -> (r: Option<TimeoutContext>)
    ensures
        limit_of(r) == limit_of(*ctx),
        (r is Some) == (*ctx is Some),
{
    match ctx {
        Some(c) => Some(c.clone()),
        None => None,
    }
}

} // verus!
