//! Operators whose kind no longer matters.

use crate::executor::filter::FilterOperator;
use crate::executor::hash_join::HashJoinOperator;
use crate::executor::nested_loop::NestedLoopJoinOperator;
use crate::executor::operator;
use crate::executor::operator::{PhysicalOperator, Relation, RowStream};
use crate::executor::project::{LimitOperator, ProjectOperator};
use crate::executor::scan::{
    DualScanOperator, GenerateSeriesOperator, MaterializedOperator, ScanOperator,
    StatusMessageOperator, UnnestOperator, VectorScanOperator,
};
use crate::schema::{ColumnModel, Error, ErrorModel, Schema, Tuple};
use std::sync::Arc;
use vstd::prelude::*;

verus! {

/// An operator of any kind.
pub struct AnyOperator {
    op: Box<dyn PhysicalOperator>,
}

impl AnyOperator {
    /// What the operator gives.
    pub open spec fn relation(&self) -> Relation {
        Relation {
            columns: self.columns(),
            rows: self.stream(),
            timed: self.limits() != Set::<u64>::empty(),
        }
    }

    /// Whether the operator gives the rows of a relation in a query under an
    /// optional time limit: under that limit where the relation is timed,
    /// else under none.
    pub open spec fn gives(&self, rel: Relation, limit: Option<u64>) -> bool {
        &&& self.ready()
        &&& self.columns() == rel.columns
        &&& self.stream() == rel.rows
        &&& self.limits() == given_limits(rel, limit)
    }

    /// A scan.
    pub fn of_scan(op: ScanOperator) -> (r: AnyOperator)
        ensures
            r.ready() == op.ready(),
            r.stream() == op.stream(),
            r.columns() == op.columns(),
            r.limits() == op.limits(),
    {
        AnyOperator { op: Box::new(op) }
    }

    /// Rows at hand.
    pub fn of_rows(op: MaterializedOperator) -> (r: AnyOperator)
        ensures
            r.ready() == op.ready(),
            r.stream() == op.stream(),
            r.columns() == op.columns(),
            r.limits() == op.limits(),
    {
        AnyOperator { op: Box::new(op) }
    }

    /// A filter.
    pub fn of_filter(op: FilterOperator<AnyOperator>) -> (r: AnyOperator)
        ensures
            r.ready() == op.ready(),
            r.stream() == op.stream(),
            r.columns() == op.columns(),
            r.limits() == op.limits(),
    {
        AnyOperator { op: Box::new(op) }
    }

    /// A `SELECT` list.
    pub fn of_project(op: ProjectOperator<AnyOperator>) -> (r: AnyOperator)
        ensures
            r.ready() == op.ready(),
            r.stream() == op.stream(),
            r.columns() == op.columns(),
            r.limits() == op.limits(),
    {
        AnyOperator { op: Box::new(op) }
    }

    /// A window of rows.
    pub fn of_limit(op: LimitOperator<AnyOperator>) -> (r: AnyOperator)
        ensures
            r.ready() == op.ready(),
            r.stream() == op.stream(),
            r.columns() == op.columns(),
            r.limits() == op.limits(),
    {
        AnyOperator { op: Box::new(op) }
    }

    /// A join that tests every pair.
    pub fn of_loop_join(op: NestedLoopJoinOperator<AnyOperator>) -> (r: AnyOperator)
        ensures
            r.ready() == op.ready(),
            r.stream() == op.stream(),
            r.columns() == op.columns(),
            r.limits() == op.limits(),
    {
        AnyOperator { op: Box::new(op) }
    }

    /// A join by keys.
    pub fn of_hash_join(op: HashJoinOperator<AnyOperator>) -> (r: AnyOperator)
        ensures
            r.ready() == op.ready(),
            r.stream() == op.stream(),
            r.columns() == op.columns(),
            r.limits() == op.limits(),
    {
        AnyOperator { op: Box::new(op) }
    }

    /// A series of numbers.
    pub fn of_series(op: GenerateSeriesOperator) -> (r: AnyOperator)
        ensures
            r.ready() == op.ready(),
            r.stream() == op.stream(),
            r.columns() == op.columns(),
            r.limits() == op.limits(),
    {
        AnyOperator { op: Box::new(op) }
    }

    /// The neighbours that a vector index found.
    pub fn of_vector_scan(op: VectorScanOperator) -> (r: AnyOperator)
        ensures
            r.ready() == op.ready(),
            r.stream() == op.stream(),
            r.columns() == op.columns(),
            r.limits() == op.limits(),
    {
        AnyOperator { op: Box::new(op) }
    }

    /// The items of a list.
    pub fn of_unnest(op: UnnestOperator) -> (r: AnyOperator)
        ensures
            r.ready() == op.ready(),
            r.stream() == op.stream(),
            r.columns() == op.columns(),
            r.limits() == op.limits(),
    {
        AnyOperator { op: Box::new(op) }
    }

    /// The one empty row.
    pub fn of_dual(op: DualScanOperator) -> (r: AnyOperator)
        ensures
            r.ready() == op.ready(),
            r.stream() == op.stream(),
            r.columns() == op.columns(),
            r.limits() == op.limits(),
    {
        AnyOperator { op: Box::new(op) }
    }

    /// A status message.
    pub fn of_status(op: StatusMessageOperator) -> (r: AnyOperator)
        ensures
            r.ready() == op.ready(),
            r.stream() == op.stream(),
            r.columns() == op.columns(),
            r.limits() == op.limits(),
    {
        AnyOperator { op: Box::new(op) }
    }
}

impl PhysicalOperator for AnyOperator {
    closed spec fn ready(&self) -> bool {
        self.op.ready()
    }

    closed spec fn stream(&self) -> RowStream {
        self.op.stream()
    }

    closed spec fn columns(&self) -> Seq<ColumnModel> {
        self.op.columns()
    }

    closed spec fn limits(&self) -> Set<u64> {
        self.op.limits()
    }

    fn next(&mut self) -> (r: Result<Option<Tuple>, Error>) {
        self.op.next()
    }

    fn schema(&self) -> (r: Arc<Schema>) {
        self.op.schema()
    }
}

/// The limits that a relation is handed out under in a query under an optional
/// time limit.
pub open spec fn given_limits(rel: Relation, limit: Option<u64>) -> Set<u64> {
    if rel.timed {
        operator::limits_of(limit)
    } else {
        Set::empty()
    }
}

/// Whether building an operator in a query under an optional time limit came
/// out as expected: with an operator that gives the expected rows, with the
/// expected error, or with that limit exceeded.
pub open spec fn builds(
    r: Result<AnyOperator, Error>,
    expected: Result<Relation, ErrorModel>,
    limit: Option<u64>,
) -> bool {
    match r {
        Ok(op) => expected matches Ok(rel) && op.gives(rel, limit),
        Err(e) => {
            ||| operator::timed_out(operator::limits_of(limit), e@)
            ||| expected == Err::<Relation, ErrorModel>(e@)
        },
    }
}

/// Whether building an operator came out as expected: with an operator that
/// gives the expected columns and rows under `limits`, with the expected error,
/// or with one of the limits `building` exceeded.
pub open spec fn builds_under(
    r: Result<AnyOperator, Error>,
    expected: Result<Relation, ErrorModel>,
    limits: Set<u64>,
    building: Set<u64>,
) -> bool {
    match r {
        Ok(op) => expected matches Ok(rel) && op.ready() && op.columns() == rel.columns
            && op.stream() == rel.rows && op.limits() == limits,
        Err(e) => {
            ||| operator::timed_out(building, e@)
            ||| expected == Err::<Relation, ErrorModel>(e@)
        },
    }
}

} // verus!
