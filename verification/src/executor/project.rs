//! The `SELECT` list and `LIMIT`/`OFFSET` operators.

use crate::evaluator;
use crate::evaluator::Evaluator;
use crate::executor::operator;
use crate::executor::operator::{PhysicalOperator, RowStream, TimeoutContext};
use crate::logical_plan;
use crate::logical_plan::{AggregateFunction, BinaryOperator, ExprModel, LogicalExpr};
use crate::schema;
use crate::schema::{Column, ColumnModel, Error, ErrorModel, Schema, Tuple, TupleModel};
use crate::value;
use crate::value::{DataType, Value, ValueModel};
use std::sync::Arc;
use vstd::prelude::*;
use vstd::string::*;

verus! {

/// The type of a constant, where it shows one.
pub open spec fn literal_type(v: ValueModel) -> Option<DataType> {
    match v {
        ValueModel::Boolean(_) => Some(DataType::Boolean),
        ValueModel::Int2(_) => Some(DataType::Int2),
        ValueModel::Int4(_) => Some(DataType::Int4),
        ValueModel::Int8(_) => Some(DataType::Int8),
        ValueModel::Float4(_) => Some(DataType::Float4),
        ValueModel::Float8(_) => Some(DataType::Float8),
        ValueModel::Numeric(_) => Some(DataType::Numeric),
        ValueModel::String(_) => Some(DataType::Text),
        ValueModel::Bytes(_) => Some(DataType::Bytea),
        ValueModel::Uuid(_) => Some(DataType::Uuid),
        ValueModel::Timestamp(_) => Some(DataType::Timestamp),
        ValueModel::Date(_) => Some(DataType::Date),
        ValueModel::Time(_) => Some(DataType::Time),
        ValueModel::Interval(_) => Some(DataType::Interval),
        ValueModel::Json(_) => Some(DataType::Json),
        _ => None,
    }
}

fn type_of_literal(v: &Value) -> (r: Option<DataType>)
    ensures
        r == literal_type(v@),
{
    match v {
        Value::Boolean(_) => Some(DataType::Boolean),
        Value::Int2(_) => Some(DataType::Int2),
        Value::Int4(_) => Some(DataType::Int4),
        Value::Int8(_) => Some(DataType::Int8),
        Value::Float4(_) => Some(DataType::Float4),
        Value::Float8(_) => Some(DataType::Float8),
        Value::Numeric(_) => Some(DataType::Numeric),
        Value::String(_) => Some(DataType::Text),
        Value::Bytes(_) => Some(DataType::Bytea),
        Value::Uuid(_) => Some(DataType::Uuid),
        Value::Timestamp(_) => Some(DataType::Timestamp),
        Value::Date(_) => Some(DataType::Date),
        Value::Time(_) => Some(DataType::Time),
        Value::Interval(_) => Some(DataType::Interval),
        Value::Json(_) => Some(DataType::Json),
        _ => None,
    }
}

/// The type that an expression shows: that of the column it names, that of a
/// constant, that of a cast, or the truth values.
pub open spec fn expr_type(e: ExprModel, cols: Seq<ColumnModel>) -> Option<DataType> {
    match e {
        ExprModel::Column { table, name } => match schema::qualified_index(cols, table, name) {
            Some(i) => Some(cols[i as int].data_type),
            None => None,
        },
        ExprModel::BoundColumn { index, .. } => if index < cols.len() {
            Some(cols[index as int].data_type)
        } else {
            None
        },
        ExprModel::Literal(v) => literal_type(v),
        ExprModel::Cast { data_type, .. } => Some(data_type),
        ExprModel::BinaryExpr { op, .. } => if evaluator::is_comparison(op) || op
            == BinaryOperator::And || op == BinaryOperator::Or {
            Some(DataType::Boolean)
        } else {
            None
        },
        ExprModel::IsNull { .. } => Some(DataType::Boolean),
        ExprModel::Between { .. } => Some(DataType::Boolean),
        ExprModel::InList { .. } => Some(DataType::Boolean),
        ExprModel::InSet { .. } => Some(DataType::Boolean),
        ExprModel::InSubquery { .. } => Some(DataType::Boolean),
        ExprModel::Exists { .. } => Some(DataType::Boolean),
        ExprModel::AggregateFunction { fun: AggregateFunction::Count, .. } => Some(DataType::Int8),
        _ => None,
    }
}

fn infer_type(e: &LogicalExpr, schema: &Schema) -> (r: Option<DataType>)
    ensures
        r == expr_type(e@, schema@),
{
    match e {
        LogicalExpr::Column { table, name } => {
            match schema.get_qualified_column_index(schema::as_str(table), name.as_str()) {
                Some(i) => Some(schema.columns[i].data_type.clone()),
                None => None,
            }
        },
        LogicalExpr::BoundColumn { index, .. } => {
            if *index < schema.columns.len() {
                Some(schema.columns[*index].data_type.clone())
            } else {
                None
            }
        },
        LogicalExpr::Literal(v) => type_of_literal(v),
        LogicalExpr::Cast { data_type, .. } => Some(data_type.clone()),
        LogicalExpr::BinaryExpr { op, .. } => match op {
            BinaryOperator::Eq
            | BinaryOperator::NotEq
            | BinaryOperator::Lt
            | BinaryOperator::LtEq
            | BinaryOperator::Gt
            | BinaryOperator::GtEq
            | BinaryOperator::And
            | BinaryOperator::Or => Some(DataType::Boolean),
            _ => None,
        },
        LogicalExpr::IsNull { .. } => Some(DataType::Boolean),
        LogicalExpr::Between { .. } => Some(DataType::Boolean),
        LogicalExpr::InList { .. } => Some(DataType::Boolean),
        LogicalExpr::InSet { .. } => Some(DataType::Boolean),
        LogicalExpr::InSubquery { .. } => Some(DataType::Boolean),
        LogicalExpr::Exists { .. } => Some(DataType::Boolean),
        LogicalExpr::AggregateFunction { fun: AggregateFunction::Count, .. } => Some(
            DataType::Int8,
        ),
        _ => None,
    }
}

/// The output column of one `SELECT` item: its alias, with the type its
/// expression shows, or else `Text`.
pub open spec fn output_column(alias: Seq<char>, e: ExprModel, cols: Seq<ColumnModel>) -> ColumnModel {
    schema::plain_column(
        alias,
        match expr_type(e, cols) {
            Some(t) => t,
            None => DataType::Text,
        },
    )
}

/// The output columns of a `SELECT` list, as far as both lists reach.
pub open spec fn output_columns(
    aliases: Seq<Seq<char>>,
    exprs: Seq<ExprModel>,
    cols: Seq<ColumnModel>,
) -> Seq<ColumnModel> {
    Seq::new(
        if aliases.len() <= exprs.len() {
            aliases.len()
        } else {
            exprs.len()
        },
        |i: int| output_column(aliases[i], exprs[i], cols),
    )
}

/// Builds the output schema of a `SELECT` list.
pub fn projection_schema(aliases: &Vec<String>, exprs: &Vec<LogicalExpr>, input: &Schema) -> (r: Schema)
    ensures
        r@ == output_columns(
            schema::texts(aliases@),
            logical_plan::exprs_model(exprs@),
            input@,
        ),
{
    let mut columns: Vec<Column> = Vec::new();
    let n: usize = if aliases.len() <= exprs.len() {
        aliases.len()
    } else {
        exprs.len()
    };
    proof {
        logical_plan::lemma_exprs_model(exprs@);
    }
    for i in 0..n
        invariant
            n <= aliases.len(),
            n <= exprs.len(),
            columns.len() == i,
            forall|j: int|
                0 <= j < i ==> (#[trigger] columns@[j])@ == output_column(
                    aliases@[j]@,
                    exprs@[j]@,
                    input@,
                ),
    {
        let data_type: DataType = match infer_type(&exprs[i], input) {
            Some(t) => t,
            None => DataType::Text,
        };
        columns.push(Column::new(aliases[i].as_str(), data_type));
    }
    let r = Schema { columns };
    assert(r@ =~= output_columns(
        schema::texts(aliases@),
        logical_plan::exprs_model(exprs@),
        input@,
    ));
    r
}

/// The positions of the columns that a list of plain column names selects.
pub open spec fn plain_positions(exprs: Seq<ExprModel>, cols: Seq<ColumnModel>) -> Option<Seq<usize>>
    decreases exprs.len(),
{
    if exprs.len() == 0 {
        Some(Seq::empty())
    } else {
        match plain_positions(exprs.drop_last(), cols) {
            None => None,
            Some(front) => match exprs.last() {
                ExprModel::Column { table, name } => match schema::qualified_index(
                    cols,
                    table,
                    name,
                ) {
                    Some(i) => Some(front.push(i)),
                    None => None,
                },
                _ => None,
            },
        }
    }
}

/// The values at given positions of a row; the first position behind its end
/// is an error.
pub open spec fn picked(positions: Seq<usize>, row: Seq<ValueModel>) -> Result<
    Seq<ValueModel>,
    ErrorModel,
>
    decreases positions.len(),
{
    if positions.len() == 0 {
        Ok(Seq::empty())
    } else {
        match picked(positions.drop_last(), row) {
            Err(e) => Err(e),
            Ok(front) => if positions.last() < row.len() {
                Ok(front.push(row[positions.last() as int]))
            } else {
                Err(evaluator::out_of_bounds(positions.last()))
            },
        }
    }
}

/// Picking the values of plain columns by position gives what evaluating the
/// column names gives.
pub proof fn law_picking_agrees_with_evaluator(
    exprs: Seq<ExprModel>,
    cols: Seq<ColumnModel>,
    params: Seq<ValueModel>,
    row: Seq<ValueModel>,
)
    ensures
        plain_positions(exprs, cols) matches Some(p) ==> picked(p, row) == evaluator::eval_all(
            exprs,
            cols,
            params,
            row,
        ),
    decreases exprs.len(),
{
    if exprs.len() == 0 {
        assert(picked(Seq::<usize>::empty(), row) == Ok::<Seq<ValueModel>, ErrorModel>(
            Seq::<ValueModel>::empty(),
        ));
    } else {
        law_picking_agrees_with_evaluator(exprs.drop_last(), cols, params, row);
        if let Some(p) = plain_positions(exprs, cols) {
            let front = plain_positions(exprs.drop_last(), cols)->Some_0;
            assert(p.drop_last() =~= front);
            let i = p.last();
            assert(evaluator::eval(exprs.last(), cols, params, row) == (if i < row.len() {
                Ok::<ValueModel, ErrorModel>(row[i as int])
            } else {
                Err(evaluator::out_of_bounds(i))
            }));
        }
    }
}

fn direct_project_column_indices(schema: &Schema, exprs: &Vec<LogicalExpr>) -> (r: Option<Vec<usize>>)
    ensures
        logical_plan::opt_positions(r) == plain_positions(
            logical_plan::exprs_model(exprs@),
            schema@,
        ),
{
    let ghost all = logical_plan::exprs_model(exprs@);
    proof {
        logical_plan::lemma_exprs_model(exprs@);
    }
    let mut out: Vec<usize> = Vec::new();
    assert(all.take(0) =~= Seq::<ExprModel>::empty());
    assert(out@ =~= Seq::<usize>::empty());
    for i in 0..exprs.len()
        invariant
            all == logical_plan::exprs_model(exprs@),
            all.len() == exprs.len(),
            forall|j: int| 0 <= j < exprs.len() ==> #[trigger] all[j] == exprs@[j]@,
            plain_positions(all.take(i as int), schema@) == Some(out@),
    {
        let ghost next = all.take(i + 1);
        assert(next.drop_last() =~= all.take(i as int));
        assert(next.last() == exprs@[i as int]@);
        match &exprs[i] {
            LogicalExpr::Column { table, name } => {
                match schema.get_qualified_column_index(schema::as_str(table), name.as_str()) {
                    Some(idx) => {
                        out.push(idx);
                    },
                    None => {
                        proof {
                            lemma_plain_positions_prefix(all, schema@, i + 1);
                        }
                        return None;
                    },
                }
            },
            _ => {
                proof {
                    lemma_plain_positions_prefix(all, schema@, i + 1);
                }
                return None;
            },
        }
    }
    assert(all.take(exprs.len() as int) =~= all);
    Some(out)
}

proof fn lemma_plain_positions_prefix(all: Seq<ExprModel>, cols: Seq<ColumnModel>, n: int)
    requires
        0 <= n <= all.len(),
        plain_positions(all.take(n), cols) is None,
    ensures
        plain_positions(all, cols) is None,
    decreases all.len(),
{
    if n == all.len() {
        assert(all.take(n) =~= all);
    } else {
        assert(all.drop_last().take(n) =~= all.take(n));
        lemma_plain_positions_prefix(all.drop_last(), cols, n);
    }
}

/// Positions that name different columns of a schema of the given width.
pub open spec fn distinct_positions(p: Seq<usize>, width: nat) -> bool {
    &&& forall|i: int| 0 <= i < p.len() ==> #[trigger] p[i] < width
    &&& forall|i: int, j: int| 0 <= i < j < p.len() ==> p[i] != p[j]
}

/// The largest position, where values can be moved out of the row instead of
/// copied: no position may occur twice or lie behind the schema.
pub open spec fn is_largest(p: Seq<usize>, m: usize) -> bool {
    &&& exists|i: int| 0 <= i < p.len() && p[i] == m
    &&& forall|i: int| 0 <= i < p.len() ==> #[trigger] p[i] <= m
}

/// The largest of a list of positions that may be moved out of a row.
pub fn projection_move_max_index(indices: &Vec<usize>, schema_len: usize) -> (r: Option<usize>)
    ensures
        match r {
            Some(m) => indices.len() > 0 && distinct_positions(indices@, schema_len as nat)
                && is_largest(indices@, m),
            None => indices.len() == 0 || !distinct_positions(indices@, schema_len as nat),
        },
{
    if indices.len() == 0 {
        return None;
    }
    let mut max_idx: usize = 0;
    let mut i: usize = 0;
    while i < indices.len()
        invariant
            i <= indices.len(),
            indices.len() > 0,
            forall|a: int| 0 <= a < i ==> #[trigger] indices@[a] < schema_len,
            forall|a: int| 0 <= a < i ==> #[trigger] indices@[a] <= max_idx,
            forall|a: int, b: int| 0 <= a < b < i ==> indices@[a] != indices@[b],
            i > 0 ==> exists|a: int| 0 <= a < i && indices@[a] == max_idx,
        decreases indices.len() - i,
    {
        let idx: usize = indices[i];
        if idx >= schema_len {
            assert(!(indices@[i as int] < schema_len));
            return None;
        }
        let mut k: usize = 0;
        while k < i
            invariant
                k <= i < indices.len(),
                idx == indices@[i as int],
                forall|a: int| 0 <= a < k ==> indices@[a] != idx,
            decreases i - k,
        {
            if indices[k] == idx {
                assert(indices@[k as int] == indices@[i as int]);
                return None;
            }
            k = k + 1;
        }
        if i == 0 || idx > max_idx {
            max_idx = idx;
            assert(indices@[i as int] == max_idx);
        }
        i = i + 1;
    }
    Some(max_idx)
}

/// How a `SELECT` drops rows that it has already given.
pub enum Distinct {
    /// Not at all.
    Keep,
    /// Rows with the same output values.
    Values,
    /// Rows with the same values of given expressions.
    On(Seq<ExprModel>),
}

/// What a row is compared by.
pub open spec fn distinct_key(
    mode: Distinct,
    output: Seq<ValueModel>,
    cols: Seq<ColumnModel>,
    params: Seq<ValueModel>,
    row: Seq<ValueModel>,
) -> Result<Option<Seq<ValueModel>>, ErrorModel> {
    match mode {
        Distinct::Keep => Ok(None),
        Distinct::Values => Ok(Some(output)),
        Distinct::On(exprs) => match evaluator::eval_all(exprs, cols, params, row) {
            Ok(k) => Ok(Some(k)),
            Err(e) => Err(e),
        },
    }
}

/// The output rows of a `SELECT` list over a stream, given the keys that were
/// already seen. The stored place of a row is kept.
pub open spec fn projected(
    s: RowStream,
    exprs: Seq<ExprModel>,
    cols: Seq<ColumnModel>,
    params: Seq<ValueModel>,
    mode: Distinct,
    seen: Seq<Seq<ValueModel>>,
) -> RowStream
    decreases s.rows.len(),
{
    if s.rows.len() == 0 {
        s
    } else {
        let row = s.rows[0];
        match evaluator::eval_all(exprs, cols, params, row.values) {
            Err(e) => operator::failing(e),
            Ok(output) => {
                let out = TupleModel { values: output, row_id: row.row_id, branch_id: None };
                match distinct_key(mode, output, cols, params, row.values) {
                    Err(e) => operator::failing(e),
                    Ok(None) => projected(s.rest(), exprs, cols, params, mode, seen).after(out),
                    Ok(Some(k)) => if seen.contains(k) {
                        projected(s.rest(), exprs, cols, params, mode, seen)
                    } else {
                        projected(s.rest(), exprs, cols, params, mode, seen.push(k)).after(out)
                    },
                }
            },
        }
    }
}

/// `SELECT DISTINCT` gives no two rows with the same values, and none whose
/// values were seen before.
pub proof fn law_distinct_rows_differ(
    s: RowStream,
    exprs: Seq<ExprModel>,
    cols: Seq<ColumnModel>,
    params: Seq<ValueModel>,
    seen: Seq<Seq<ValueModel>>,
)
    ensures
        ({
            let out = projected(s, exprs, cols, params, Distinct::Values, seen).rows;
            &&& forall|i: int| 0 <= i < out.len() ==> !seen.contains((#[trigger] out[i]).values)
            &&& forall|i: int, j: int|
                0 <= i < j < out.len() ==> (#[trigger] out[i]).values != (#[trigger] out[j]).values
        }),
    decreases s.rows.len(),
{
    if s.rows.len() > 0 {
        let row = s.rows[0];
        if let Ok(output) = evaluator::eval_all(exprs, cols, params, row.values) {
            let next = if seen.contains(output) {
                seen
            } else {
                seen.push(output)
            };
            law_distinct_rows_differ(s.rest(), exprs, cols, params, next);
            let tail = projected(s.rest(), exprs, cols, params, Distinct::Values, next).rows;
            if !seen.contains(output) {
                let out = TupleModel { values: output, row_id: row.row_id, branch_id: None };
                let all = projected(s, exprs, cols, params, Distinct::Values, seen).rows;
                assert(all =~= seq![out] + tail);
                assert forall|i: int| 0 <= i < all.len() implies !seen.contains(
                    (#[trigger] all[i]).values,
                ) by {
                    if i > 0 {
                        assert(all[i] == tail[i - 1]);
                        if seen.contains(all[i].values) {
                            let k = choose|k: int| 0 <= k < seen.len() && seen[k] == all[i].values;
                            assert(next[k] == all[i].values);
                        }
                    }
                }
                assert forall|i: int, j: int| 0 <= i < j < all.len() implies (
                #[trigger] all[i]).values != (#[trigger] all[j]).values by {
                    assert(all[j] == tail[j - 1]);
                    if i > 0 {
                        assert(all[i] == tail[i - 1]);
                    } else {
                        assert(next[seen.len() as int] == output);
                        assert(next.contains(output));
                    }
                }
            }
        }
    }
}

/// A `SELECT` list: its items, the columns and parameters that they are over, and how
/// it drops rows.
pub struct ListModel {
    pub exprs: Seq<ExprModel>,
    pub cols: Seq<ColumnModel>,
    pub params: Seq<ValueModel>,
    pub mode: Distinct,
}

/// What a list makes of a row; the stored place of the row is kept.
pub open spec fn output_row(l: ListModel, row: TupleModel) -> TupleModel {
    TupleModel {
        values: evaluator::eval_all(l.exprs, l.cols, l.params, row.values)->Ok_0,
        row_id: row.row_id,
        branch_id: None,
    }
}

/// What a list compares a row by; `None` where it compares no rows.
pub open spec fn row_key(l: ListModel, row: TupleModel) -> Option<Seq<ValueModel>> {
    distinct_key(l.mode, output_row(l, row).values, l.cols, l.params, row.values)->Ok_0
}

/// Whether a list can be evaluated on a row.
pub open spec fn evaluates(l: ListModel, row: TupleModel) -> bool {
    &&& evaluator::eval_all(l.exprs, l.cols, l.params, row.values) is Ok
    &&& distinct_key(l.mode, output_row(l, row).values, l.cols, l.params, row.values) is Ok
}

/// Whether no row before one has its key.
pub open spec fn is_first(l: ListModel, rows: Seq<TupleModel>, i: int) -> bool {
    row_key(l, rows[i]) is None || forall|j: int|
        0 <= j < i ==> row_key(l, #[trigger] rows[j]) != row_key(l, rows[i])
}

/// What a list makes of the first rows of each key among the first `n` rows, in
/// their order.
pub open spec fn first_outputs(l: ListModel, rows: Seq<TupleModel>, n: nat) -> Seq<TupleModel>
    decreases n,
{
    if n == 0 || n > rows.len() {
        Seq::empty()
    } else {
        let before = first_outputs(l, rows, (n - 1) as nat);
        if is_first(l, rows, n - 1) {
            before.push(output_row(l, rows[n - 1]))
        } else {
            before
        }
    }
}

/// The keys of the first `n` rows, each once.
spec fn keys_among(l: ListModel, rows: Seq<TupleModel>, n: nat) -> Seq<Seq<ValueModel>>
    decreases n,
{
    if n == 0 || n > rows.len() {
        Seq::empty()
    } else {
        let before = keys_among(l, rows, (n - 1) as nat);
        match row_key(l, rows[n - 1]) {
            Some(k) => if is_first(l, rows, n - 1) {
                before.push(k)
            } else {
                before
            },
            None => before,
        }
    }
}

proof fn lemma_keys_among(l: ListModel, rows: Seq<TupleModel>, n: nat, key: Seq<ValueModel>)
    requires
        n <= rows.len(),
    ensures
        keys_among(l, rows, n).contains(key) <==> exists|j: int|
            0 <= j < n && row_key(l, #[trigger] rows[j]) == Some(key),
    decreases n,
{
    if n > 0 {
        let m = (n - 1) as nat;
        lemma_keys_among(l, rows, m, key);
        let before = keys_among(l, rows, m);
        let now = keys_among(l, rows, n);
        if now.contains(key) {
            let i = now.index_of(key);
            if i < before.len() {
                assert(before[i] == key);
                assert(before.contains(key));
                let j = choose|j: int| 0 <= j < m && row_key(l, #[trigger] rows[j]) == Some(key);
                assert(0 <= j < n && row_key(l, rows[j]) == Some(key));
            } else {
                assert(row_key(l, rows[m as int]) == Some(key));
            }
        }
        if exists|j: int| 0 <= j < n && row_key(l, #[trigger] rows[j]) == Some(key) {
            let j = choose|j: int| 0 <= j < n && row_key(l, #[trigger] rows[j]) == Some(key);
            if j < m {
                assert(before.contains(key));
                let i = before.index_of(key);
                assert(now[i] == key);
            } else if is_first(l, rows, m as int) {
                assert(now[before.len() as int] == key);
            } else {
                let b = choose|b: int|
                    0 <= b < m && row_key(l, #[trigger] rows[b]) == row_key(l, rows[m as int]);
                assert(before.contains(key));
                let i = before.index_of(key);
                assert(now[i] == key);
            }
        }
    }
}

proof fn lemma_projected_from(l: ListModel, rows: Seq<TupleModel>, end: Option<ErrorModel>, k: nat)
    requires
        k <= rows.len(),
        forall|i: int| 0 <= i < rows.len() ==> evaluates(l, #[trigger] rows[i]),
    ensures
        ({
            let rest = projected(
                (RowStream { rows: rows.skip(k as int), end }),
                l.exprs,
                l.cols,
                l.params,
                l.mode,
                keys_among(l, rows, k),
            );
            &&& first_outputs(l, rows, k) + rest.rows == first_outputs(l, rows, rows.len())
            &&& rest.end == end
        }),
    decreases rows.len() - k,
{
    let s = RowStream { rows: rows.skip(k as int), end };
    let rest = projected(s, l.exprs, l.cols, l.params, l.mode, keys_among(l, rows, k));
    if k == rows.len() {
        assert(rest.rows =~= Seq::<TupleModel>::empty());
        assert(first_outputs(l, rows, k) + rest.rows =~= first_outputs(l, rows, k));
    } else {
        let row = rows[k as int];
        assert(s.rows[0] == row);
        assert(evaluates(l, row));
        assert(s.rest().rows =~= rows.skip(k + 1int));
        assert(s.rest() == (RowStream { rows: rows.skip(k + 1int), end }));
        lemma_projected_from(l, rows, end, k + 1);
        let later = projected(s.rest(), l.exprs, l.cols, l.params, l.mode, keys_among(l, rows, k + 1));
        match row_key(l, row) {
            Some(key) => {
                lemma_keys_among(l, rows, k, key);
                if is_first(l, rows, k as int) {
                    assert(!keys_among(l, rows, k).contains(key));
                    assert(rest.rows =~= seq![output_row(l, row)] + later.rows);
                } else {
                    let b = choose|b: int|
                        0 <= b < k && row_key(l, #[trigger] rows[b]) == row_key(l, rows[k as int]);
                    assert(keys_among(l, rows, k).contains(key));
                    assert(rest.rows =~= later.rows);
                }
            },
            None => {
                assert(rest.rows =~= seq![output_row(l, row)] + later.rows);
            },
        }
        assert(first_outputs(l, rows, k) + rest.rows =~= first_outputs(l, rows, k + 1)
            + later.rows);
    }
}

/// Where a list can be evaluated on every row, it gives the first row of each key, in
/// the order of the input and with its stored place: of each projected row under
/// `DISTINCT`, of each value of the given expressions under `DISTINCT ON`, and every
/// row otherwise.
pub proof fn law_a_list_gives_the_first_of_each_key(
    s: RowStream,
    exprs: Seq<ExprModel>,
    cols: Seq<ColumnModel>,
    params: Seq<ValueModel>,
    mode: Distinct,
)
    requires
        forall|i: int|
            0 <= i < s.rows.len() ==> evaluates(
                (ListModel { exprs, cols, params, mode }),
                #[trigger] s.rows[i],
            ),
    ensures
        ({
            let l = ListModel { exprs, cols, params, mode };
            let out = projected(s, exprs, cols, params, mode, Seq::empty());
            &&& out.rows == first_outputs(l, s.rows, s.rows.len())
            &&& out.end == s.end
            &&& mode is Keep ==> out.rows == Seq::new(
                s.rows.len(),
                |i: int| output_row(l, s.rows[i]),
            )
        }),
{
    let l = ListModel { exprs, cols, params, mode };
    lemma_projected_from(l, s.rows, s.end, 0);
    assert(s.rows.skip(0) =~= s.rows);
    assert(s == (RowStream { rows: s.rows.skip(0), end: s.end }));
    let out = projected(s, exprs, cols, params, mode, Seq::empty());
    assert(first_outputs(l, s.rows, 0) + out.rows =~= out.rows);
    if mode is Keep {
        lemma_all_outputs(l, s.rows, s.rows.len());
        assert(out.rows =~= Seq::new(s.rows.len(), |i: int| output_row(l, s.rows[i])));
    }
}

proof fn lemma_all_outputs(l: ListModel, rows: Seq<TupleModel>, n: nat)
    requires
        l.mode is Keep,
        n <= rows.len(),
    ensures
        first_outputs(l, rows, n) =~= Seq::new(n, |i: int| output_row(l, rows[i])),
    decreases n,
{
    if n > 0 {
        lemma_all_outputs(l, rows, (n - 1) as nat);
    }
}

/// Evaluates a `SELECT` list on the rows of its input.
pub struct ProjectOperator<I: PhysicalOperator + ?Sized> {
    input: Box<I>,
    exprs: Vec<LogicalExpr>,
    output_schema: Arc<Schema>,
    evaluator: Evaluator,
    direct_column_indices: Option<Vec<usize>>,
    direct_move_max_index: Option<usize>,
    distinct: bool,
    seen: Vec<Vec<Value>>,
    distinct_on_exprs: Option<Vec<LogicalExpr>>,
    timeout_ctx: Option<TimeoutContext>,
}

/// What the `DISTINCT` parts of a `SELECT` mean: `DISTINCT ON` wins.
pub open spec fn distinct_mode(distinct: bool, on: Option<Seq<ExprModel>>) -> Distinct {
    match on {
        Some(exprs) => Distinct::On(exprs),
        None => if distinct {
            Distinct::Values
        } else {
            Distinct::Keep
        },
    }
}

/// What a list of seen keys stands for.
pub open spec fn keys_model(s: Seq<Vec<Value>>) -> Seq<Seq<ValueModel>> {
    s.map_values(|k: Vec<Value>| value::values_model(k@))
}

fn seen_before(seen: &Vec<Vec<Value>>, key: &Vec<Value>) -> (r: bool)
    ensures
        r == keys_model(seen@).contains(value::values_model(key@)),
{
    let ghost all = keys_model(seen@);
    for i in 0..seen.len()
        invariant
            all == keys_model(seen@),
            forall|j: int| 0 <= j < i ==> all[j] != value::values_model(key@),
    {
        assert(all[i as int] == value::values_model(seen@[i as int]@));
        if value::same_values(&seen[i], key) {
            assert(all[i as int] == value::values_model(key@));
            return true;
        }
    }
    false
}

/// Copies the values at given positions of a row.
fn pick_values(positions: &Vec<usize>, tuple: &Tuple) -> (r: Result<Vec<Value>, Error>)
    ensures
        match r {
            Ok(vs) => picked(positions@, tuple@.values) == Ok::<Seq<ValueModel>, ErrorModel>(
                value::values_model(vs@),
            ),
            Err(e) => picked(positions@, tuple@.values) == Err::<Seq<ValueModel>, ErrorModel>(e@),
        },
{
    let mut out: Vec<Value> = Vec::new();
    assert(positions@.take(0) =~= Seq::<usize>::empty());
    assert(value::values_model(out@) =~= Seq::<ValueModel>::empty());
    for i in 0..positions.len()
        invariant
            picked(positions@.take(i as int), tuple@.values) == Ok::<Seq<ValueModel>, ErrorModel>(
                value::values_model(out@),
            ),
    {
        let ghost next = positions@.take(i + 1);
        assert(next.drop_last() =~= positions@.take(i as int));
        match tuple.get(positions[i]) {
            Some(v) => {
                let c: Value = v.clone();
                proof {
                    value::lemma_values_model_push(out@, c);
                }
                out.push(c);
            },
            None => {
                proof {
                    lemma_picked_stops(
                        positions@,
                        tuple@.values,
                        i + 1,
                        evaluator::out_of_bounds(positions@[i as int]),
                    );
                }
                return Err(evaluator::out_of_bounds_error(positions[i]));
            },
        }
    }
    assert(positions@.take(positions.len() as int) =~= positions@);
    Ok(out)
}

proof fn lemma_picked_stops(all: Seq<usize>, row: Seq<ValueModel>, n: int, e: ErrorModel)
    requires
        0 <= n <= all.len(),
        picked(all.take(n), row) == Err::<Seq<ValueModel>, ErrorModel>(e),
    ensures
        picked(all, row) == Err::<Seq<ValueModel>, ErrorModel>(e),
    decreases all.len(),
{
    if n == all.len() {
        assert(all.take(n) =~= all);
    } else {
        assert(all.drop_last().take(n) =~= all.take(n));
        lemma_picked_stops(all.drop_last(), row, n, e);
    }
}

/// Moves the values at different positions out of a row.
pub fn move_values(positions: &Vec<usize>, values: Vec<Value>) -> (r: Vec<Value>)
    requires
        distinct_positions(positions@, values.len() as nat),
    ensures
        picked(positions@, value::values_model(values@)) == Ok::<Seq<ValueModel>, ErrorModel>(
            value::values_model(r@),
        ),
{
    let ghost row = value::values_model(values@);
    let mut source: Vec<Value> = values;
    let mut out: Vec<Value> = Vec::new();
    assert(positions@.take(0) =~= Seq::<usize>::empty());
    assert(value::values_model(out@) =~= Seq::<ValueModel>::empty());
    for i in 0..positions.len()
        invariant
            row == value::values_model(values@),
            source.len() == row.len(),
            distinct_positions(positions@, row.len()),
            forall|j: int|
                i <= j < positions.len() ==> source@[#[trigger] positions@[j] as int]@
                    == row[positions@[j] as int],
            picked(positions@.take(i as int), row) == Ok::<Seq<ValueModel>, ErrorModel>(
                value::values_model(out@),
            ),
    {
        let ghost next = positions@.take(i + 1);
        assert(next.drop_last() =~= positions@.take(i as int));
        let idx: usize = positions[i];
        assert(positions@[i as int] < row.len());
        let mut v: Value = Value::Null;
        let ghost before = source@;
        std::mem::swap(&mut v, &mut source[idx]);
        assert(forall|j: int|
            i < j < positions.len() ==> source@[#[trigger] positions@[j] as int]
                == before[positions@[j] as int]);
        proof {
            value::lemma_values_model_push(out@, v);
        }
        out.push(v);
    }
    assert(positions@.take(positions.len() as int) =~= positions@);
    out
}

impl<I: PhysicalOperator + ?Sized> ProjectOperator<I> {
    /// The time limit that the operator remembers.
    pub closed spec fn limit(&self) -> Option<u64> {
        operator::limit_of(self.timeout_ctx)
    }

    /// The positions that the operator picks, where all items are plain
    /// columns.
    pub closed spec fn direct(&self) -> Option<Seq<usize>> {
        logical_plan::opt_positions(self.direct_column_indices)
    }

    pub fn new(
        input: Box<I>,
        exprs: Vec<LogicalExpr>,
        aliases: Vec<String>,
        distinct: bool,
        parameters: Vec<Value>,
    ) -> (r: ProjectOperator<I>)
        requires
            input.ready(),
        ensures
            r.ready(),
            r.stream() == projected(
                input.stream(),
                logical_plan::exprs_model(exprs@),
                input.columns(),
                value::values_model(parameters@),
                distinct_mode(distinct, None),
                Seq::empty(),
            ),
            r.columns() == output_columns(
                schema::texts(aliases@),
                logical_plan::exprs_model(exprs@),
                input.columns(),
            ),
            r.limits() == input.limits(),
            r.direct() == plain_positions(logical_plan::exprs_model(exprs@), input.columns()),
    {
        Self::new_with_distinct_on(input, exprs, aliases, distinct, None, parameters)
    }

    pub fn new_with_distinct_on(
        input: Box<I>,
        exprs: Vec<LogicalExpr>,
        aliases: Vec<String>,
        distinct: bool,
        distinct_on: Option<Vec<LogicalExpr>>,
        parameters: Vec<Value>,
    ) -> (r: ProjectOperator<I>)
        requires
            input.ready(),
        ensures
            r.ready(),
            r.stream() == projected(
                input.stream(),
                logical_plan::exprs_model(exprs@),
                input.columns(),
                value::values_model(parameters@),
                distinct_mode(distinct, logical_plan::opt_exprs(distinct_on)),
                Seq::empty(),
            ),
            r.columns() == output_columns(
                schema::texts(aliases@),
                logical_plan::exprs_model(exprs@),
                input.columns(),
            ),
            r.limits() == input.limits(),
            r.direct() == plain_positions(logical_plan::exprs_model(exprs@), input.columns()),
    {
        let input_schema: Arc<Schema> = input.schema();
        let output_schema: Arc<Schema> = Arc::new(
            projection_schema(&aliases, &exprs, &input_schema),
        );
        let direct_column_indices: Option<Vec<usize>> = direct_project_column_indices(
            &input_schema,
            &exprs,
        );
        let direct_move_max_index: Option<usize> = match &direct_column_indices {
            Some(p) => projection_move_max_index(p, input_schema.columns.len()),
            None => None,
        };
        let evaluator: Evaluator = Evaluator::with_parameters(input_schema, parameters);
        let seen: Vec<Vec<Value>> = Vec::new();
        assert(keys_model(seen@) =~= Seq::<Seq<ValueModel>>::empty());
        ProjectOperator {
            input,
            exprs,
            output_schema,
            evaluator,
            direct_column_indices,
            direct_move_max_index,
            distinct,
            seen,
            distinct_on_exprs: distinct_on,
            timeout_ctx: None,
        }
    }

    /// Remembers the query's time limit; the input is what checks it.
    pub fn with_timeout(self, timeout_ctx: Option<TimeoutContext>) -> (r: ProjectOperator<I>)
        ensures
            self.ready() ==> r.ready(),
            r.stream() == self.stream(),
            r.columns() == self.columns(),
            r.direct() == self.direct(),
            r.limits() == self.limits(),
            r.limit() == operator::limit_of(timeout_ctx),
    {
        let mut op = self;
        op.timeout_ctx = timeout_ctx;
        op
    }

    /// The positions that the operator picks, where all items are plain
    /// columns.
    pub fn direct_column_indices(&self) -> (r: Option<&Vec<usize>>)
        ensures
            match r {
                Some(p) => self.direct() == Some(p@),
                None => self.direct() is None,
            },
    {
        match &self.direct_column_indices {
            Some(p) => Some(p),
            None => None,
        }
    }

    spec fn exprs_spec(&self) -> Seq<ExprModel> {
        logical_plan::exprs_model(self.exprs@)
    }

    spec fn mode(&self) -> Distinct {
        distinct_mode(self.distinct, logical_plan::opt_exprs(self.distinct_on_exprs))
    }

    fn output_values(&self, tuple: &Tuple) -> (r: Result<Vec<Value>, Error>)
        ensures
            match r {
                Ok(vs) => evaluator::eval_all(
                    self.exprs_spec(),
                    self.evaluator.columns(),
                    self.evaluator.params(),
                    tuple@.values,
                ) == Ok::<Seq<ValueModel>, ErrorModel>(value::values_model(vs@)),
                Err(e) => evaluator::eval_all(
                    self.exprs_spec(),
                    self.evaluator.columns(),
                    self.evaluator.params(),
                    tuple@.values,
                ) == Err::<Seq<ValueModel>, ErrorModel>(e@),
            },
    {
        self.evaluator.evaluate_all(&self.exprs, tuple)
    }
}

impl<I: PhysicalOperator + ?Sized> PhysicalOperator for ProjectOperator<I> {
    closed spec fn ready(&self) -> bool {
        &&& self.input.ready()
        &&& self.evaluator.columns() == self.input.columns()
        &&& self.direct_column_indices matches Some(p) ==> Some(p@) == plain_positions(
            self.exprs_spec(),
            self.evaluator.columns(),
        )
        &&& self.direct_move_max_index matches Some(m) ==> self.direct_column_indices is Some
            && is_largest(self.direct_column_indices->Some_0@, m) && distinct_positions(
            self.direct_column_indices->Some_0@,
            self.evaluator.columns().len(),
        )
    }

    closed spec fn stream(&self) -> RowStream {
        projected(
            self.input.stream(),
            self.exprs_spec(),
            self.evaluator.columns(),
            self.evaluator.params(),
            self.mode(),
            keys_model(self.seen@),
        )
    }

    closed spec fn columns(&self) -> Seq<ColumnModel> {
        self.output_schema@
    }

    closed spec fn limits(&self) -> Set<u64> {
        self.input.limits()
    }

    fn next(&mut self) -> (r: Result<Option<Tuple>, Error>) {
        let ghost whole = self.stream();
        loop
            invariant
                self.ready(),
                self.stream() == whole,
                self.limits() == old(self).limits(),
                self.columns() == old(self).columns(),
                whole == old(self).stream(),
            decreases self.input.stream().rows.len(),
        {
            let ghost before = self.input.stream();
            let tuple: Tuple = match self.input.next() {
                Err(e) => {
                    return Err(e);
                },
                Ok(None) => {
                    return Ok(None);
                },
                Ok(Some(t)) => t,
            };
            let ghost cols = self.evaluator.columns();
            let ghost params = self.evaluator.params();
            let ghost mode = self.mode();
            let ghost seen = keys_model(self.seen@);
            let row_id: Option<u64> = tuple.row_id;
            proof {
                law_picking_agrees_with_evaluator(
                    self.exprs_spec(),
                    cols,
                    params,
                    tuple@.values,
                );
            }
            let key: Option<Vec<Value>>;
            let values: Vec<Value>;
            match &self.distinct_on_exprs {
                Some(on) => {
                    let picked_values: Result<Vec<Value>, Error> = match &self.direct_column_indices {
                        Some(p) => pick_values(p, &tuple),
                        None => self.output_values(&tuple),
                    };
                    values = match picked_values {
                        Ok(v) => v,
                        Err(e) => {
                            return Err(e);
                        },
                    };
                    key = match self.evaluator.evaluate_all(on, &tuple) {
                        Ok(k) => Some(k),
                        Err(e) => {
                            return Err(e);
                        },
                    };
                },
                None => {
                    let moved: bool = match self.direct_move_max_index {
                        Some(m) => m < tuple.values.len(),
                        None => false,
                    };
                    if moved {
                        let p: &Vec<usize> = self.direct_column_indices.as_ref().unwrap();
                        values = move_values(p, tuple.values);
                    } else {
                        let picked_values: Result<Vec<Value>, Error> =
                            match &self.direct_column_indices {
                            Some(p) => pick_values(p, &tuple),
                            None => self.output_values(&tuple),
                        };
                        values = match picked_values {
                            Ok(v) => v,
                            Err(e) => {
                                return Err(e);
                            },
                        };
                    }
                    key = if self.distinct {
                        Some(value::clone_values(&values))
                    } else {
                        None
                    };
                },
            }
            let ghost output = value::values_model(values@);
            let ghost out = TupleModel { values: output, row_id: row_id, branch_id: None };
            if let Some(k) = key {
                if seen_before(&self.seen, &k) {
                    continue ;
                }
                let ghost km = value::values_model(k@);
                self.seen.push(k);
                assert(keys_model(self.seen@) =~= seen.push(km));
            }
            proof {
                operator::lemma_after_rest(
                    projected(
                        before.rest(),
                        self.exprs_spec(),
                        cols,
                        params,
                        mode,
                        keys_model(self.seen@),
                    ),
                    out,
                );
            }
            return Ok(Some(Tuple { values, row_id, branch_id: None }));
        }
    }

    fn schema(&self) -> (r: Arc<Schema>) {
        self.output_schema.clone()
    }
}

/// The part of a stream behind its first `skip` rows, `take` rows at most. An
/// error of the stream shows only where the stream is read to its end.
pub open spec fn window(s: RowStream, skip: nat, take: nat) -> RowStream {
    let n = s.rows.len();
    RowStream {
        rows: s.rows.subrange(
            if skip <= n {
                skip as int
            } else {
                n as int
            },
            if skip + take <= n {
                (skip + take) as int
            } else {
                n as int
            },
        ),
        end: if skip + take <= n {
            None
        } else {
            s.end
        },
    }
}

/// `LIMIT` and `OFFSET` give the rows from the offset on, as many as the limit
/// allows, unchanged and in order.
pub proof fn law_limit_is_a_window(s: RowStream, skip: nat, take: nat)
    ensures
        window(s, skip, take).rows.len() <= take,
        s.rows.len() >= skip + take ==> window(s, skip, take).rows.len() == take,
        skip <= s.rows.len() < skip + take ==> window(s, skip, take).rows.len() == s.rows.len()
            - skip,
        s.rows.len() < skip ==> window(s, skip, take).rows.len() == 0,
        forall|i: int|
            0 <= i < window(s, skip, take).rows.len() ==> #[trigger] window(s, skip, take).rows[i]
                == s.rows[skip + i],
{
}

/// Hands on a window of the rows of its input.
pub struct LimitOperator<I: PhysicalOperator + ?Sized> {
    input: Box<I>,
    limit: usize,
    offset: usize,
    skipped: usize,
    returned: usize,
    timeout_ctx: Option<TimeoutContext>,
}

impl<I: PhysicalOperator + ?Sized> LimitOperator<I> {
    /// The time limit that the operator remembers.
    pub closed spec fn limit(&self) -> Option<u64> {
        operator::limit_of(self.timeout_ctx)
    }

    pub fn new(input: Box<I>, limit: usize, offset: usize) -> (r: LimitOperator<I>)
        requires
            input.ready(),
        ensures
            r.ready(),
            r.stream() == window(input.stream(), offset as nat, limit as nat),
            r.columns() == input.columns(),
            r.limits() == input.limits(),
    {
        LimitOperator { input, limit, offset, skipped: 0, returned: 0, timeout_ctx: None }
    }

    /// Remembers the query's time limit; the input is what checks it.
    pub fn with_timeout(self, timeout_ctx: Option<TimeoutContext>) -> (r: LimitOperator<I>)
        ensures
            self.ready() ==> r.ready(),
            r.stream() == self.stream(),
            r.columns() == self.columns(),
            r.limits() == self.limits(),
            r.limit() == operator::limit_of(timeout_ctx),
    {
        let mut op = self;
        op.timeout_ctx = timeout_ctx;
        op
    }
}

impl<I: PhysicalOperator + ?Sized> PhysicalOperator for LimitOperator<I> {
    closed spec fn ready(&self) -> bool {
        &&& self.input.ready()
        &&& self.skipped <= self.offset
        &&& self.returned <= self.limit
    }

    closed spec fn stream(&self) -> RowStream {
        window(
            self.input.stream(),
            (self.offset - self.skipped) as nat,
            (self.limit - self.returned) as nat,
        )
    }

    closed spec fn columns(&self) -> Seq<ColumnModel> {
        self.input.columns()
    }

    closed spec fn limits(&self) -> Set<u64> {
        self.input.limits()
    }

    fn next(&mut self) -> (r: Result<Option<Tuple>, Error>) {
        let ghost whole = self.stream();
        while self.skipped < self.offset
            invariant
                self.ready(),
                self.stream() == whole,
                self.limits() == old(self).limits(),
                self.columns() == old(self).columns(),
                whole == old(self).stream(),
            decreases self.offset - self.skipped,
        {
            let ghost before = self.input.stream();
            match self.input.next() {
                Err(e) => {
                    return Err(e);
                },
                Ok(None) => {
                    assert(whole =~= operator::no_rows());
                    return Ok(None);
                },
                Ok(Some(_)) => {
                    self.skipped = self.skipped + 1;
                    assert(self.stream() =~= whole);
                },
            }
        }
        if self.returned >= self.limit {
            assert(whole =~= operator::no_rows());
            return Ok(None);
        }
        let ghost before = self.input.stream();
        match self.input.next() {
            Err(e) => {
                assert(before == operator::failing(e@) ==> whole =~= operator::failing(e@));
                Err(e)
            },
            Ok(None) => {
                assert(whole =~= operator::no_rows());
                Ok(None)
            },
            Ok(Some(t)) => {
                self.returned = self.returned + 1;
                assert(self.stream() =~= whole.rest());
                Ok(Some(t))
            },
        }
    }

    fn schema(&self) -> (r: Arc<Schema>) {
        self.input.schema()
    }
}

} // verus!
