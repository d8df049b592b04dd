//! Operators that produce rows: table scans, materialized rows, table
//! functions and one-row answers.

use crate::evaluator;
use crate::evaluator::Evaluator;
use crate::executor::operator;
use crate::executor::operator::{PhysicalOperator, RowStream, TimeoutContext};
use crate::executor::project;
use crate::logical_plan;
use crate::logical_plan::{ExprModel, LogicalExpr};
use crate::schema;
use crate::schema::{Column, ColumnModel, Error, ErrorModel, Schema, Tuple, TupleModel};
use crate::value;
use crate::value::{DataType, Value, ValueModel};
use std::sync::Arc;
use vstd::prelude::*;
use vstd::string::*;

verus! {

/// The values at given positions of a row; positions behind its end are left
/// out.
pub open spec fn kept(positions: Seq<usize>, row: Seq<ValueModel>) -> Seq<ValueModel>
    decreases positions.len(),
{
    if positions.len() == 0 {
        Seq::empty()
    } else {
        let front = kept(positions.drop_last(), row);
        if positions.last() < row.len() {
            front.push(row[positions.last() as int])
        } else {
            front
        }
    }
}

/// The columns at given positions of a schema; positions behind its end are
/// left out.
pub open spec fn kept_columns(positions: Seq<usize>, cols: Seq<ColumnModel>) -> Seq<ColumnModel>
    decreases positions.len(),
{
    if positions.len() == 0 {
        Seq::empty()
    } else {
        let front = kept_columns(positions.drop_last(), cols);
        if positions.last() < cols.len() {
            front.push(cols[positions.last() as int])
        } else {
            front
        }
    }
}

/// The row that a scan gives for a stored row: all of it, or the projected
/// values together with the place it is stored at.
pub open spec fn scanned_row(projection: Option<Seq<usize>>, t: TupleModel) -> TupleModel {
    match projection {
        None => t,
        Some(p) => TupleModel { values: kept(p, t.values), row_id: t.row_id, branch_id: None },
    }
}

/// The rows that a scan gives.
pub open spec fn scanned(projection: Option<Seq<usize>>, rows: Seq<TupleModel>) -> Seq<TupleModel> {
    rows.map_values(|t: TupleModel| scanned_row(projection, t))
}

/// The columns that a scan gives.
pub open spec fn scanned_columns(
    projection: Option<Seq<usize>>,
    cols: Seq<ColumnModel>,
) -> Seq<ColumnModel> {
    match projection {
        None => cols,
        Some(p) => kept_columns(p, cols),
    }
}

proof fn lemma_picked_is_kept(positions: Seq<usize>, row: Seq<ValueModel>)
    ensures
        project::picked(positions, row) matches Ok(vs) ==> vs == kept(positions, row),
    decreases positions.len(),
{
    if positions.len() != 0 {
        lemma_picked_is_kept(positions.drop_last(), row);
    }
}

fn keep_values(positions: &Vec<usize>, tuple: &Tuple) -> (r: Vec<Value>)
    ensures
        value::values_model(r@) == kept(positions@, tuple@.values),
{
    let mut out: Vec<Value> = Vec::new();
    assert(positions@.take(0) =~= Seq::<usize>::empty());
    assert(value::values_model(out@) =~= Seq::<ValueModel>::empty());
    for i in 0..positions.len()
        invariant
            value::values_model(out@) == kept(positions@.take(i as int), tuple@.values),
    {
        let ghost next = positions@.take(i + 1);
        assert(next.drop_last() =~= positions@.take(i as int));
        if let Some(v) = tuple.get(positions[i]) {
            let c: Value = v.clone();
            proof {
                value::lemma_values_model_push(out@, c);
            }
            out.push(c);
        }
    }
    assert(positions@.take(positions.len() as int) =~= positions@);
    out
}

/// Selects columns by position.
pub fn keep_columns(positions: &Vec<usize>, schema: &Schema) -> (r: Vec<Column>)
    ensures
        schema::columns_model(r@) == kept_columns(positions@, schema@),
{
    let mut out: Vec<Column> = Vec::new();
    assert(positions@.take(0) =~= Seq::<usize>::empty());
    assert(schema::columns_model(out@) =~= Seq::<ColumnModel>::empty());
    for i in 0..positions.len()
        invariant
            schema::columns_model(out@) == kept_columns(positions@.take(i as int), schema@),
    {
        let ghost next = positions@.take(i + 1);
        assert(next.drop_last() =~= positions@.take(i as int));
        let p: usize = positions[i];
        if p < schema.columns.len() {
            let c: Column = schema.columns[p].clone();
            let ghost before = schema::columns_model(out@);
            out.push(c);
            assert(schema::columns_model(out@) =~= before.push(schema@[p as int]));
        }
    }
    assert(positions@.take(positions.len() as int) =~= positions@);
    out
}

/// The rows behind a scan: its own, handed out by moving them, or shared ones,
/// handed out by copying them.
pub enum ScanTuples {
    Owned(Vec<Tuple>),
    Shared(Arc<Vec<Tuple>>),
}

impl ScanTuples {
    pub open spec fn rows(&self) -> Seq<TupleModel> {
        match self {
            ScanTuples::Owned(v) => schema::rows_model(v@),
            ScanTuples::Shared(v) => schema::rows_model(v@),
        }
    }

    fn len(&self) -> (r: usize)
        ensures
            r == self.rows().len(),
    {
        match self {
            ScanTuples::Owned(v) => v.len(),
            ScanTuples::Shared(v) => v.len(),
        }
    }

    /// Hands out the row at a position; the rows at other positions stay.
    fn serve(&mut self, index: usize) -> (r: Tuple)
        requires
            index < old(self).rows().len(),
        ensures
            r@ == old(self).rows()[index as int],
            final(self).rows().len() == old(self).rows().len(),
            forall|j: int|
                0 <= j < old(self).rows().len() && j != index ==> #[trigger] final(self).rows()[j]
                    == old(self).rows()[j],
    {
        match self {
            ScanTuples::Owned(v) => {
                let mut t: Tuple = Tuple::new(Vec::new());
                std::mem::swap(&mut t, &mut v[index]);
                t
            },
            ScanTuples::Shared(v) => v[index].clone(),
        }
    }
}

/// Hands out the rows of a table.
pub struct ScanOperator {
    table_name: String,
    schema: Arc<Schema>,
    projection: Option<Vec<usize>>,
    projection_move_max_index: Option<usize>,
    tuples: ScanTuples,
    current_index: usize,
    timeout_ctx: Option<TimeoutContext>,
    parameters: Vec<Value>,
}

impl ScanOperator {
    /// The name of the table.
    pub closed spec fn table(&self) -> Seq<char> {
        self.table_name@
    }

    spec fn positions(&self) -> Option<Seq<usize>> {
        logical_plan::opt_positions(self.projection)
    }

    pub fn new(
        table_name: String,
        schema: Arc<Schema>,
        projection: Option<Vec<usize>>,
        tuples: Vec<Tuple>,
        parameters: Vec<Value>,
    ) -> (r: ScanOperator)
        ensures
            r.ready(),
            r.stream() == operator::just_rows(
                scanned(logical_plan::opt_positions(projection), schema::rows_model(tuples@)),
            ),
            r.columns() == scanned_columns(logical_plan::opt_positions(projection), schema@),
            r.limits() == Set::<u64>::empty(),
            r.table() == table_name@,
    {
        Self::with_source(table_name, schema, projection, ScanTuples::Owned(tuples), parameters)
    }

    /// A scan over rows that others share.
    pub fn new_shared(
        table_name: String,
        schema: Arc<Schema>,
        projection: Option<Vec<usize>>,
        tuples: Arc<Vec<Tuple>>,
        parameters: Vec<Value>,
    ) -> (r: ScanOperator)
        ensures
            r.ready(),
            r.stream() == operator::just_rows(
                scanned(logical_plan::opt_positions(projection), schema::rows_model(tuples@)),
            ),
            r.columns() == scanned_columns(logical_plan::opt_positions(projection), schema@),
            r.limits() == Set::<u64>::empty(),
            r.table() == table_name@,
    {
        Self::with_source(table_name, schema, projection, ScanTuples::Shared(tuples), parameters)
    }

    fn with_source(
        table_name: String,
        schema: Arc<Schema>,
        projection: Option<Vec<usize>>,
        tuples: ScanTuples,
        parameters: Vec<Value>,
    ) -> (r: ScanOperator)
        ensures
            r.ready(),
            r.stream() == operator::just_rows(
                scanned(logical_plan::opt_positions(projection), tuples.rows()),
            ),
            r.columns() == scanned_columns(logical_plan::opt_positions(projection), schema@),
            r.limits() == Set::<u64>::empty(),
            r.table() == table_name@,
    {
        let projection_move_max_index: Option<usize> = match &projection {
            Some(p) => project::projection_move_max_index(p, schema.columns.len()),
            None => None,
        };
        assert(tuples.rows().skip(0) =~= tuples.rows());
        ScanOperator {
            table_name,
            schema,
            projection,
            projection_move_max_index,
            tuples,
            current_index: 0,
            timeout_ctx: None,
            parameters,
        }
    }

    /// Puts the scan under a time limit.
    pub fn with_timeout(self, timeout_ctx: Option<TimeoutContext>) -> (r: ScanOperator)
        ensures
            self.ready() ==> r.ready(),
            r.stream() == self.stream(),
            r.columns() == self.columns(),
            r.table() == self.table(),
            r.limits() == operator::limits_of(operator::limit_of(timeout_ctx)),
    {
        let mut op = self;
        op.timeout_ctx = timeout_ctx;
        op
    }
}

impl PhysicalOperator for ScanOperator {
    closed spec fn ready(&self) -> bool {
        &&& self.current_index <= self.tuples.rows().len()
        &&& self.projection_move_max_index matches Some(m) ==> self.projection is Some
            && project::is_largest(self.projection->Some_0@, m) && project::distinct_positions(
            self.projection->Some_0@,
            self.schema@.len(),
        )
    }

    closed spec fn stream(&self) -> RowStream {
        operator::just_rows(
            scanned(self.positions(), self.tuples.rows().skip(self.current_index as int)),
        )
    }

    closed spec fn columns(&self) -> Seq<ColumnModel> {
        scanned_columns(self.positions(), self.schema@)
    }

    closed spec fn limits(&self) -> Set<u64> {
        operator::limits_of(operator::limit_of(self.timeout_ctx))
    }

    fn next(&mut self) -> (r: Result<Option<Tuple>, Error>) {
        match operator::check_time(&self.timeout_ctx) {
            Ok(_) => {},
            Err(e) => {
                return Err(e);
            },
        }
        if self.current_index >= self.tuples.len() {
            assert(self.stream() =~= operator::no_rows());
            return Ok(None);
        }
        let ghost whole = self.stream();
        let ghost rows = self.tuples.rows();
        let ghost at = self.current_index as int;
        let tuple: Tuple = self.tuples.serve(self.current_index);
        self.current_index = self.current_index + 1;
        assert(whole.rows[0] == scanned_row(self.positions(), tuple@));
        assert(self.tuples.rows().skip(at + 1) =~= rows.skip(at + 1));
        assert(self.stream() =~= whole.rest());
        match &self.projection {
            Some(p) => {
                let row_id: Option<u64> = tuple.row_id;
                let moved: bool = match self.projection_move_max_index {
                    Some(m) => m < tuple.values.len(),
                    None => false,
                };
                proof {
                    lemma_picked_is_kept(p@, tuple@.values);
                }
                let values: Vec<Value> = if moved {
                    project::move_values(p, tuple.values)
                } else {
                    keep_values(p, &tuple)
                };
                Ok(Some(Tuple { values, row_id, branch_id: None }))
            },
            None => Ok(Some(tuple)),
        }
    }

    fn schema(&self) -> (r: Arc<Schema>) {
        match &self.projection {
            Some(p) => Arc::new(Schema { columns: keep_columns(p, &self.schema) }),
            None => self.schema.clone(),
        }
    }
}

/// Hands out rows that were computed before.
pub struct MaterializedOperator {
    schema: Arc<Schema>,
    tuples: ScanTuples,
    current_index: usize,
}

impl MaterializedOperator {
    pub fn new(tuples: Vec<Tuple>, schema: Arc<Schema>) -> (r: MaterializedOperator)
        ensures
            r.ready(),
            r.stream() == operator::just_rows(schema::rows_model(tuples@)),
            r.columns() == schema@,
            r.limits() == Set::<u64>::empty(),
    {
        let tuples: ScanTuples = ScanTuples::Owned(tuples);
        assert(tuples.rows().skip(0) =~= tuples.rows());
        MaterializedOperator { schema, tuples, current_index: 0 }
    }
}

impl PhysicalOperator for MaterializedOperator {
    closed spec fn ready(&self) -> bool {
        self.current_index <= self.tuples.rows().len()
    }

    closed spec fn stream(&self) -> RowStream {
        operator::just_rows(self.tuples.rows().skip(self.current_index as int))
    }

    closed spec fn columns(&self) -> Seq<ColumnModel> {
        self.schema@
    }

    closed spec fn limits(&self) -> Set<u64> {
        Set::empty()
    }

    fn next(&mut self) -> (r: Result<Option<Tuple>, Error>) {
        if self.current_index >= self.tuples.len() {
            assert(self.stream() =~= operator::no_rows());
            return Ok(None);
        }
        let ghost whole = self.stream();
        let tuple: Tuple = self.tuples.serve(self.current_index);
        self.current_index = self.current_index + 1;
        assert(self.stream() =~= whole.rest());
        Ok(Some(tuple))
    }

    fn schema(&self) -> (r: Arc<Schema>) {
        self.schema.clone()
    }
}

/// The rows of a k-nearest-neighbour search that a predicate lets through;
/// a row on which the predicate fails is left out.
pub open spec fn prefiltered(
    rows: Seq<TupleModel>,
    predicate: Option<ExprModel>,
    cols: Seq<ColumnModel>,
) -> Seq<TupleModel>
    decreases rows.len(),
{
    if rows.len() == 0 {
        rows
    } else {
        let rest = prefiltered(rows.drop_first(), predicate, cols);
        if passes_prefilter(rows[0], predicate, cols) {
            seq![rows[0]] + rest
        } else {
            rest
        }
    }
}

pub open spec fn passes_prefilter(
    row: TupleModel,
    predicate: Option<ExprModel>,
    cols: Seq<ColumnModel>,
) -> bool {
    match predicate {
        None => true,
        Some(p) => evaluator::eval(p, cols, Seq::empty(), row.values) == Ok::<
            ValueModel,
            ErrorModel,
        >(ValueModel::Boolean(true)),
    }
}

/// Hands out the rows found by a k-nearest-neighbour search, nearest first,
/// with their distances (single-precision bit patterns).
pub struct VectorScanOperator {
    table_name: String,
    schema: Arc<Schema>,
    results: Vec<(u64, u32)>,
    tuples: Vec<Tuple>,
    current_index: usize,
    prefilter: Option<LogicalExpr>,
    evaluator: Evaluator,
}

impl VectorScanOperator {
    /// The distances of the search, by rank.
    pub closed spec fn distances(&self) -> Seq<(u64, u32)> {
        self.results@
    }

    /// How many candidates have been looked at.
    pub closed spec fn position(&self) -> nat {
        self.current_index as nat
    }

    /// The rows of the search that are still to be looked at.
    pub closed spec fn candidates(&self) -> Seq<TupleModel> {
        schema::rows_model(self.tuples@).skip(self.current_index as int)
    }

    pub fn new(
        table_name: String,
        schema: Arc<Schema>,
        results: Vec<(u64, u32)>,
        tuples: Vec<Tuple>,
    ) -> (r: VectorScanOperator)
        ensures
            r.ready(),
            r.stream() == operator::just_rows(schema::rows_model(tuples@)),
            r.columns() == schema@,
            r.limits() == Set::<u64>::empty(),
            r.distances() == results@,
            r.position() == 0,
            r.candidates() == schema::rows_model(tuples@),
    {
        let evaluator: Evaluator = Evaluator::new(schema.clone());
        proof {
            lemma_no_prefilter(schema::rows_model(tuples@), schema@);
        }
        assert(schema::rows_model(tuples@).skip(0) =~= schema::rows_model(tuples@));
        VectorScanOperator {
            table_name,
            schema,
            results,
            tuples,
            current_index: 0,
            prefilter: None,
            evaluator,
        }
    }

    /// Lets only rows through that satisfy a predicate.
    pub fn with_prefilter(self, predicate: LogicalExpr) -> (r: VectorScanOperator)
        requires
            self.ready(),
        ensures
            r.ready(),
            r.stream() == operator::just_rows(
                prefiltered(self.candidates(), Some(predicate@), self.columns()),
            ),
            r.columns() == self.columns(),
            r.limits() == Set::<u64>::empty(),
            r.distances() == self.distances(),
            r.position() == self.position(),
            r.candidates() == self.candidates(),
    {
        let mut op = self;
        op.prefilter = Some(predicate);
        op
    }

    /// The distance of the row that was looked at last.
    pub fn current_distance(&self) -> (r: Option<u32>)
        ensures
            r == (if 0 < self.position() <= self.distances().len() {
                Some(self.distances()[self.position() - 1].1)
            } else {
                None
            }),
    {
        if self.current_index > 0 && self.current_index <= self.results.len() {
            Some(self.results[self.current_index - 1].1)
        } else {
            None
        }
    }
}

proof fn lemma_no_prefilter(rows: Seq<TupleModel>, cols: Seq<ColumnModel>)
    ensures
        prefiltered(rows, None, cols) == rows,
    decreases rows.len(),
{
    if rows.len() != 0 {
        lemma_no_prefilter(rows.drop_first(), cols);
        assert(seq![rows[0]] + rows.drop_first() =~= rows);
    }
}

impl PhysicalOperator for VectorScanOperator {
    closed spec fn ready(&self) -> bool {
        &&& self.current_index <= self.tuples.len()
        &&& self.evaluator.columns() == self.schema@
        &&& self.evaluator.params() == Seq::<ValueModel>::empty()
    }

    closed spec fn stream(&self) -> RowStream {
        operator::just_rows(
            prefiltered(
                self.candidates(),
                logical_plan::opt_expr(self.prefilter),
                self.schema@,
            ),
        )
    }

    closed spec fn columns(&self) -> Seq<ColumnModel> {
        self.schema@
    }

    closed spec fn limits(&self) -> Set<u64> {
        Set::empty()
    }

    fn next(&mut self) -> (r: Result<Option<Tuple>, Error>) {
        let ghost whole = self.stream();
        loop
            invariant
                self.ready(),
                self.stream() == whole,
                self.columns() == old(self).columns(),
                whole == old(self).stream(),
            decreases self.tuples.len() - self.current_index,
        {
            if self.current_index >= self.tuples.len() {
                assert(whole =~= operator::no_rows());
                return Ok(None);
            }
            let ghost before = self.candidates();
            let tuple: Tuple = self.tuples[self.current_index].clone();
            self.current_index = self.current_index + 1;
            assert(before[0] == tuple@);
            assert(self.candidates() =~= before.drop_first());
            let pass: bool = match &self.prefilter {
                None => true,
                Some(p) => match self.evaluator.evaluate(p, &tuple) {
                    Ok(Value::Boolean(b)) => b,
                    _ => false,
                },
            };
            assert(pass == passes_prefilter(
                tuple@,
                logical_plan::opt_expr(self.prefilter),
                self.schema@,
            ));
            if pass {
                assert(self.stream() =~= whole.rest());
                return Ok(Some(tuple));
            }
        }
    }

    fn schema(&self) -> (r: Arc<Schema>) {
        self.schema.clone()
    }
}

/// The numbers from `start` to `stop`, `step` apart.
pub open spec fn series(start: int, stop: int, step: int) -> Seq<int>
    decreases
            if step > 0 && start <= stop {
                stop - start + 1
            } else if step < 0 && start >= stop {
                start - stop + 1
            } else {
                0
            },
{
    if step == 0 || (step > 0 && start > stop) || (step < 0 && start < stop) {
        Seq::empty()
    } else {
        seq![start] + series(start + step, stop, step)
    }
}

/// A row with one 64-bit integer.
pub open spec fn number_row(n: int) -> TupleModel {
    schema::loose_row(seq![ValueModel::Int8(n as i64)])
}

/// Item `i` of a series is `i` steps from the start and within the bounds; one
/// more step would leave them.
pub proof fn law_series_steps_within_bounds(start: int, stop: int, step: int)
    ensures
        forall|i: int|
            0 <= i < series(start, stop, step).len() ==> #[trigger] series(start, stop, step)[i]
                == start + i * step,
        step > 0 ==> forall|i: int|
            0 <= i < series(start, stop, step).len() ==> start <= #[trigger] series(
                start,
                stop,
                step,
            )[i] <= stop,
        step < 0 ==> forall|i: int|
            0 <= i < series(start, stop, step).len() ==> start >= #[trigger] series(
                start,
                stop,
                step,
            )[i] >= stop,
        step > 0 ==> start + series(start, stop, step).len() * step > stop,
        step < 0 ==> start + series(start, stop, step).len() * step < stop,
        step == 0 ==> series(start, stop, step).len() == 0,
    decreases
            if step > 0 && start <= stop {
                stop - start + 1
            } else if step < 0 && start >= stop {
                start - stop + 1
            } else {
                0
            },
{
    if step == 0 || (step > 0 && start > stop) || (step < 0 && start < stop) {
    } else {
        let tail = series(start + step, stop, step);
        let all = series(start, stop, step);
        law_series_steps_within_bounds(start + step, stop, step);
        assert(all =~= seq![start] + tail);
        assert forall|i: int| 0 <= i < all.len() implies #[trigger] all[i] == start + i * step by {
            if i > 0 {
                assert(all[i] == tail[i - 1]);
                assert(step + (i - 1) * step == i * step) by (nonlinear_arith);
            } else {
                assert(0 * step == 0) by (nonlinear_arith);
            }
        }
        assert forall|i: int| step > 0 && 0 <= i < all.len() implies start <= #[trigger] all[i]
            <= stop by {
            if i > 0 {
                assert(all[i] == tail[i - 1]);
            }
        }
        assert forall|i: int| step < 0 && 0 <= i < all.len() implies start >= #[trigger] all[i]
            >= stop by {
            if i > 0 {
                assert(all[i] == tail[i - 1]);
            }
        }
        assert(step + tail.len() * step == all.len() * step) by (nonlinear_arith)
            requires
                all.len() == tail.len() + 1,
        ;
    }
}

/// Hands out the numbers of a series, one per row.
pub struct GenerateSeriesOperator {
    current: i64,
    stop: i64,
    step: i64,
    exhausted: bool,
    schema: Arc<Schema>,
}

impl GenerateSeriesOperator {
    pub fn new(start: i64, stop: i64, step: i64, schema: Arc<Schema>) -> (r: GenerateSeriesOperator)
        ensures
            r.ready(),
            r.stream() == operator::just_rows(
                series(start as int, stop as int, step as int).map_values(|n: int| number_row(n)),
            ),
            r.columns() == schema@,
            r.limits() == Set::<u64>::empty(),
    {
        let exhausted: bool = step == 0 || (step > 0 && start > stop) || (step < 0 && start < stop);
        let r = GenerateSeriesOperator { current: start, stop, step, exhausted, schema };
        assert(r.stream() =~= operator::just_rows(
            series(start as int, stop as int, step as int).map_values(|n: int| number_row(n)),
        ));
        r
    }
}

impl PhysicalOperator for GenerateSeriesOperator {
    closed spec fn ready(&self) -> bool {
        self.exhausted || (self.step > 0 && self.current <= self.stop) || (self.step < 0
            && self.current >= self.stop)
    }

    closed spec fn stream(&self) -> RowStream {
        operator::just_rows(
            if self.exhausted {
                Seq::empty()
            } else {
                series(self.current as int, self.stop as int, self.step as int).map_values(
                    |n: int| number_row(n),
                )
            },
        )
    }

    closed spec fn columns(&self) -> Seq<ColumnModel> {
        self.schema@
    }

    closed spec fn limits(&self) -> Set<u64> {
        Set::empty()
    }

    fn next(&mut self) -> (r: Result<Option<Tuple>, Error>) {
        if self.exhausted {
            assert(self.stream() =~= operator::no_rows());
            return Ok(None);
        }
        let ghost whole = self.stream();
        let ghost from = self.current as int;
        let ghost tail = series(from + self.step, self.stop as int, self.step as int);
        let n: i64 = self.current;
        match self.current.checked_add(self.step) {
            Some(m) => {
                self.current = m;
                if (self.step > 0 && m > self.stop) || (self.step < 0 && m < self.stop) {
                    self.exhausted = true;
                }
            },
            None => {
                self.exhausted = true;
            },
        }
        assert(series(from, self.stop as int, self.step as int) =~= seq![from] + tail);
        assert(self.exhausted ==> tail.len() == 0);
        assert(self.stream() =~= whole.rest());
        let mut values: Vec<Value> = Vec::new();
        values.push(Value::Int8(n));
        assert(value::values_model(values@) =~= seq![ValueModel::Int8(n)]);
        Ok(Some(Tuple::new(values)))
    }

    fn schema(&self) -> (r: Arc<Schema>) {
        self.schema.clone()
    }
}

/// A row with one value.
pub open spec fn single_value_row(v: ValueModel) -> TupleModel {
    schema::loose_row(seq![v])
}

/// Hands out the items of a list, one per row.
pub struct UnnestOperator {
    values: Vec<Value>,
    current_index: usize,
    schema: Arc<Schema>,
}

impl UnnestOperator {
    pub fn new(values: Vec<Value>, schema: Arc<Schema>) -> (r: UnnestOperator)
        ensures
            r.ready(),
            r.stream() == operator::just_rows(
                value::values_model(values@).map_values(|v: ValueModel| single_value_row(v)),
            ),
            r.columns() == schema@,
            r.limits() == Set::<u64>::empty(),
    {
        let r = UnnestOperator { values, current_index: 0, schema };
        assert(r.stream() =~= operator::just_rows(
            value::values_model(values@).map_values(|v: ValueModel| single_value_row(v)),
        ));
        r
    }
}

impl PhysicalOperator for UnnestOperator {
    closed spec fn ready(&self) -> bool {
        self.current_index <= self.values.len()
    }

    closed spec fn stream(&self) -> RowStream {
        operator::just_rows(
            value::values_model(self.values@).skip(self.current_index as int).map_values(
                |v: ValueModel| single_value_row(v),
            ),
        )
    }

    closed spec fn columns(&self) -> Seq<ColumnModel> {
        self.schema@
    }

    closed spec fn limits(&self) -> Set<u64> {
        Set::empty()
    }

    fn next(&mut self) -> (r: Result<Option<Tuple>, Error>) {
        if self.current_index >= self.values.len() {
            assert(self.stream() =~= operator::no_rows());
            return Ok(None);
        }
        let ghost whole = self.stream();
        let v: Value = self.values[self.current_index].clone();
        self.current_index = self.current_index + 1;
        assert(self.stream() =~= whole.rest());
        let mut values: Vec<Value> = Vec::new();
        values.push(v);
        assert(value::values_model(values@) =~= seq![v@]);
        assert(whole.rows[0] == single_value_row(v@));
        Ok(Some(Tuple::new(values)))
    }

    fn schema(&self) -> (r: Arc<Schema>) {
        self.schema.clone()
    }
}

/// Hands out one row without columns: the input of a `SELECT` without `FROM`.
pub struct DualScanOperator {
    exhausted: bool,
    schema: Arc<Schema>,
}

impl DualScanOperator {
    pub fn new() -> (r: DualScanOperator)
        ensures
            r.ready(),
            r.stream() == operator::just_rows(seq![schema::loose_row(Seq::empty())]),
            r.columns() == Seq::<ColumnModel>::empty(),
            r.limits() == Set::<u64>::empty(),
    {
        let columns: Vec<Column> = Vec::new();
        let schema: Arc<Schema> = Arc::new(Schema { columns });
        assert(schema@ =~= Seq::<ColumnModel>::empty());
        DualScanOperator { exhausted: false, schema }
    }
}

impl Default for DualScanOperator {
    fn default() -> (r: DualScanOperator)
        ensures
            r.ready(),
            r.stream() == operator::just_rows(seq![schema::loose_row(Seq::empty())]),
            r.columns() == Seq::<ColumnModel>::empty(),
    {
        DualScanOperator::new()
    }
}

impl PhysicalOperator for DualScanOperator {
    closed spec fn ready(&self) -> bool {
        true
    }

    closed spec fn stream(&self) -> RowStream {
        if self.exhausted {
            operator::no_rows()
        } else {
            operator::just_rows(seq![schema::loose_row(Seq::empty())])
        }
    }

    closed spec fn columns(&self) -> Seq<ColumnModel> {
        self.schema@
    }

    closed spec fn limits(&self) -> Set<u64> {
        Set::empty()
    }

    fn next(&mut self) -> (r: Result<Option<Tuple>, Error>) {
        if self.exhausted {
            Ok(None)
        } else {
            let ghost whole = self.stream();
            self.exhausted = true;
            let values: Vec<Value> = Vec::new();
            assert(value::values_model(values@) =~= Seq::<ValueModel>::empty());
            assert(whole.rest() =~= operator::no_rows());
            Ok(Some(Tuple::new(values)))
        }
    }

    fn schema(&self) -> (r: Arc<Schema>) {
        self.schema.clone()
    }
}

/// The column of a status message.
pub open spec fn status_column() -> ColumnModel {
    ColumnModel { nullable: false, ..schema::plain_column("result"@, DataType::Text) }
}

/// Hands out one row with a status message.
pub struct StatusMessageOperator {
    message: String,
    exhausted: bool,
}

impl StatusMessageOperator {
    pub fn new(message: String) -> (r: StatusMessageOperator)
        ensures
            r.ready(),
            r.stream() == operator::just_rows(
                seq![single_value_row(ValueModel::String(message@))],
            ),
            r.columns() == seq![status_column()],
            r.limits() == Set::<u64>::empty(),
    {
        StatusMessageOperator { message, exhausted: false }
    }
}

impl PhysicalOperator for StatusMessageOperator {
    closed spec fn ready(&self) -> bool {
        true
    }

    closed spec fn stream(&self) -> RowStream {
        if self.exhausted {
            operator::no_rows()
        } else {
            operator::just_rows(seq![single_value_row(ValueModel::String(self.message@))])
        }
    }

    closed spec fn columns(&self) -> Seq<ColumnModel> {
        seq![status_column()]
    }

    closed spec fn limits(&self) -> Set<u64> {
        Set::empty()
    }

    fn next(&mut self) -> (r: Result<Option<Tuple>, Error>) {
        if self.exhausted {
            Ok(None)
        } else {
            let ghost whole = self.stream();
            self.exhausted = true;
            let v: Value = Value::String(self.message.clone());
            let mut values: Vec<Value> = Vec::new();
            values.push(v);
            assert(value::values_model(values@) =~= seq![v@]);
            assert(whole.rest() =~= operator::no_rows());
            Ok(Some(Tuple::new(values)))
        }
    }

    fn schema(&self) -> (r: Arc<Schema>) {
        let mut column: Column = Column::new("result", DataType::Text);
        column.nullable = false;
        let mut columns: Vec<Column> = Vec::new();
        columns.push(column);
        let s: Schema = Schema { columns };
        assert(s@ =~= seq![status_column()]);
        Arc::new(s)
    }
}

} // verus!
