//! What both join operators share: candidate pairs, memory estimates and the
//! memory cap.

use crate::evaluator;
use crate::evaluator::Evaluator;
use crate::logical_plan::{BinaryOperator, ExprModel, JoinType, LogicalExpr};
use crate::schema;
use crate::schema::{Error, ErrorModel, Schema, Tuple, TupleModel};
use crate::text;
use crate::value;
use crate::value::{Value, ValueModel};
use vstd::prelude::*;
use vstd::string::*;

verus! {

/// A pair of rows, read as one row: the left values and behind them the right
/// values.
pub struct PairView<'a> {
    pub left: &'a Tuple,
    pub right: &'a Tuple,
}

impl<'a> PairView<'a> {
    pub open spec fn row(&self) -> Seq<ValueModel> {
        self.left@.values + self.right@.values
    }

    pub fn get(&self, index: usize) -> (r: Option<&Value>)
        ensures
            match r {
                Some(v) => index < self.row().len() && v@ == self.row()[index as int],
                None => index >= self.row().len(),
            },
    {
        let split: usize = self.left.values.len();
        if index < split {
            self.left.get(index)
        } else {
            self.right.get(index - split)
        }
    }
}

/// The expressions that are evaluated on a pair of rows as it stands: constants
/// and positions under operators, without row constructors.
pub open spec fn works_on_pair(e: ExprModel) -> bool
    decreases e,
{
    match e {
        ExprModel::Literal(_) => true,
        ExprModel::BoundColumn { .. } => true,
        ExprModel::BinaryExpr { left, op, right } => !(*left is Tuple) && !(*right is Tuple)
            && works_on_pair(*left) && works_on_pair(*right),
        ExprModel::UnaryExpr { op, expr } => works_on_pair(*expr),
        ExprModel::IsNull { expr, is_null } => works_on_pair(*expr),
        _ => false,
    }
}

/// Whether an expression can be evaluated on a pair of rows as it stands.
pub fn pair_evaluable(expr: &LogicalExpr) -> (r: bool)
    ensures
        r == works_on_pair(expr@),
    decreases expr,
{
    match expr {
        LogicalExpr::Literal(_) => true,
        LogicalExpr::BoundColumn { .. } => true,
        LogicalExpr::BinaryExpr { left, op, right } => {
            let lt: bool = match &**left {
                LogicalExpr::Tuple { .. } => true,
                _ => false,
            };
            let rt: bool = match &**right {
                LogicalExpr::Tuple { .. } => true,
                _ => false,
            };
            assert(lt == (**left)@ is Tuple);
            assert(rt == (**right)@ is Tuple);
            !lt && !rt && pair_evaluable(left) && pair_evaluable(right)
        },
        LogicalExpr::UnaryExpr { op, expr: inner } => pair_evaluable(inner),
        LogicalExpr::IsNull { expr: inner, is_null } => pair_evaluable(inner),
        _ => false,
    }
}

/// Evaluates a condition on a pair of rows without building the combined row.
/// The result is what the evaluator gives on the combined row.
pub fn eval_condition_on_pair(evaluator: &Evaluator, expr: &LogicalExpr, pair: &PairView<'_>) -> (r:
    Result<Value, Error>)
    requires
        works_on_pair(expr@),
    ensures
        evaluator::result_model(r) == evaluator::eval(
            expr@,
            evaluator.columns(),
            evaluator.params(),
            pair.row(),
        ),
    decreases expr,
{
    match expr {
        LogicalExpr::Literal(v) => Ok(v.clone()),
        LogicalExpr::BoundColumn { index, .. } => match pair.get(*index) {
            Some(v) => Ok(v.clone()),
            None => Err(evaluator::out_of_bounds_error(*index)),
        },
        LogicalExpr::BinaryExpr { left, op, right } => {
            let a: Value = match eval_condition_on_pair(evaluator, left, pair) {
                Ok(v) => v,
                Err(e) => {
                    return Err(e);
                },
            };
            match op {
                BinaryOperator::And => {
                    if let Value::Boolean(false) = a {
                        return Ok(Value::Boolean(false));
                    }
                    if !evaluator::is_truth_value(&a) {
                        return evaluator::and_values(&a, Ok(Value::Null));
                    }
                    evaluator::and_values(&a, eval_condition_on_pair(evaluator, right, pair))
                },
                BinaryOperator::Or => {
                    if let Value::Boolean(true) = a {
                        return Ok(Value::Boolean(true));
                    }
                    if !evaluator::is_truth_value(&a) {
                        return evaluator::or_values(&a, Ok(Value::Null));
                    }
                    evaluator::or_values(&a, eval_condition_on_pair(evaluator, right, pair))
                },
                _ => {
                    let b: Value = match eval_condition_on_pair(evaluator, right, pair) {
                        Ok(v) => v,
                        Err(e) => {
                            return Err(e);
                        },
                    };
                    evaluator.evaluate_binary_op(&a, op, &b)
                },
            }
        },
        LogicalExpr::UnaryExpr { op, expr: inner } => {
            match eval_condition_on_pair(evaluator, inner, pair) {
                Ok(v) => evaluator.evaluate_unary_op(op, &v),
                Err(e) => Err(e),
            }
        },
        LogicalExpr::IsNull { expr: inner, is_null } => {
            match eval_condition_on_pair(evaluator, inner, pair) {
                Ok(v) => Ok(Value::Boolean(matches!(v, Value::Null) == *is_null)),
                Err(e) => Err(e),
            }
        },
        _ => Err(
            Error::query_execution("Internal error: expression not pair-evaluable".to_owned()),
        ),
    }
}

/// Whether a pair satisfies a condition: only a plain true counts.
pub open spec fn condition_holds(v: Result<ValueModel, ErrorModel>) -> Result<bool, ErrorModel> {
    match v {
        Ok(ValueModel::Boolean(b)) => Ok(b),
        Ok(_) => Ok(false),
        Err(e) => Err(e),
    }
}

/// What a truth test gave.
pub open spec fn test_model(r: Result<bool, Error>) -> Result<bool, ErrorModel> {
    match r {
        Ok(b) => Ok(b),
        Err(e) => Err(e@),
    }
}

/// Tests a condition on a pair of rows, directly where the condition allows
/// it, else on the combined row.
pub fn pair_satisfies(
    evaluator: &Evaluator,
    condition: &LogicalExpr,
    on_pair: bool,
    left: &Tuple,
    right: &Tuple,
) -> (r: Result<bool, Error>)
    requires
        on_pair ==> works_on_pair(condition@),
    ensures
        test_model(r) == condition_holds(
            evaluator::eval(
                condition@,
                evaluator.columns(),
                evaluator.params(),
                left@.values + right@.values,
            ),
        ),
{
    let v: Result<Value, Error> = if on_pair {
        let pair: PairView<'_> = PairView { left, right };
        eval_condition_on_pair(evaluator, condition, &pair)
    } else {
        let combined: Tuple = join_tuples(left, right);
        evaluator.evaluate(condition, &combined)
    };
    match v {
        Ok(Value::Boolean(b)) => Ok(b),
        Ok(_) => Ok(false),
        Err(e) => Err(e),
    }
}

/// Two rows side by side.
pub open spec fn combined_row(left: TupleModel, right: TupleModel) -> TupleModel {
    schema::loose_row(left.values + right.values)
}

/// As many NULLs.
pub open spec fn nulls(n: nat) -> Seq<ValueModel> {
    Seq::new(n, |i: int| ValueModel::Null)
}

/// A left row without a partner.
pub open spec fn left_alone(left: TupleModel, right_width: nat) -> TupleModel {
    schema::loose_row(left.values + nulls(right_width))
}

/// A right row without a partner.
pub open spec fn right_alone(right: TupleModel, left_width: nat) -> TupleModel {
    schema::loose_row(nulls(left_width) + right.values)
}

fn append_values(out: &mut Vec<Value>, values: &Vec<Value>)
    ensures
        value::values_model(final(out)@) == value::values_model(old(out)@) + value::values_model(
            values@,
        ),
{
    let ghost before = value::values_model(out@);
    for i in 0..values.len()
        invariant
            value::values_model(out@) == before + value::values_model(values@).take(i as int),
    {
        let c: Value = values[i].clone();
        proof {
            value::lemma_values_model_push(out@, c);
        }
        out.push(c);
        assert(value::values_model(out@) =~= before + value::values_model(values@).take(i + 1));
    }
    assert(value::values_model(values@).take(values.len() as int) =~= value::values_model(
        values@,
    ));
    assert(before + value::values_model(values@).take(0) =~= before);
}

fn append_nulls(out: &mut Vec<Value>, n: usize)
    ensures
        value::values_model(final(out)@) == value::values_model(old(out)@) + nulls(n as nat),
{
    let ghost before = value::values_model(out@);
    assert(before + nulls(0) =~= before);
    for i in 0..n
        invariant
            value::values_model(out@) == before + nulls(i as nat),
    {
        let c: Value = Value::Null;
        proof {
            value::lemma_values_model_push(out@, c);
        }
        out.push(c);
        assert(value::values_model(out@) =~= before + nulls((i + 1) as nat));
    }
}

/// Puts two rows side by side.
pub fn join_tuples(left: &Tuple, right: &Tuple) -> (r: Tuple)
    ensures
        r@ == combined_row(left@, right@),
{
    let mut values: Vec<Value> = Vec::new();
    assert(value::values_model(values@) =~= Seq::<ValueModel>::empty());
    append_values(&mut values, &left.values);
    append_values(&mut values, &right.values);
    assert(value::values_model(values@) =~= left@.values + right@.values);
    Tuple::new(values)
}

/// Extends a left row with NULLs.
pub fn join_with_nulls_right(left: &Tuple, right_width: usize) -> (r: Tuple)
    ensures
        r@ == left_alone(left@, right_width as nat),
{
    let mut values: Vec<Value> = Vec::new();
    assert(value::values_model(values@) =~= Seq::<ValueModel>::empty());
    append_values(&mut values, &left.values);
    append_nulls(&mut values, right_width);
    assert(value::values_model(values@) =~= left@.values + nulls(right_width as nat));
    Tuple::new(values)
}

/// Extends a right row with NULLs.
pub fn join_with_nulls_left(right: &Tuple, left_width: usize) -> (r: Tuple)
    ensures
        r@ == right_alone(right@, left_width as nat),
{
    let mut values: Vec<Value> = Vec::new();
    assert(value::values_model(values@) =~= Seq::<ValueModel>::empty());
    append_nulls(&mut values, left_width);
    append_values(&mut values, &right.values);
    assert(value::values_model(values@) =~= nulls(left_width as nat) + right@.values);
    Tuple::new(values)
}

/// The joins that keep left rows without a partner.
pub open spec fn keeps_left(t: JoinType) -> bool {
    t == JoinType::Left || t == JoinType::Full
}

/// The joins that keep right rows without a partner.
pub open spec fn keeps_right(t: JoinType) -> bool {
    t == JoinType::Right || t == JoinType::Full
}

pub fn is_left_outer(t: JoinType) -> (r: bool)
    ensures
        r == keeps_left(t),
{
    match t {
        JoinType::Left => true,
        JoinType::Full => true,
        _ => false,
    }
}

pub fn is_right_outer(t: JoinType) -> (r: bool)
    ensures
        r == keeps_right(t),
{
    match t {
        JoinType::Right => true,
        JoinType::Full => true,
        _ => false,
    }
}

/// The columns of two schemas side by side.
pub fn combined_schema(left: &Schema, right: &Schema) -> (r: Schema)
    ensures
        r@ == left@ + right@,
{
    let mut columns = schema::clone_columns(&left.columns);
    let mut more = schema::clone_columns(&right.columns);
    columns.append(&mut more);
    let r = Schema { columns };
    assert(r@ =~= left@ + right@);
    r
}

/// A number that stops at the largest `usize`.
pub open spec fn capped(n: nat) -> usize {
    if n <= usize::MAX {
        n as usize
    } else {
        usize::MAX
    }
}

/// The length of a text in UTF-8 bytes.
pub open spec fn utf8_len(s: Seq<char>) -> nat {
    vstd::utf8::encode_utf8(s).len()
}

/// The estimated memory of a value, in bytes.
pub open spec fn value_size(v: ValueModel) -> nat
    decreases v,
{
    match v {
        ValueModel::Null => 1,
        ValueModel::Boolean(_) => 1,
        ValueModel::Int2(_) => 2,
        ValueModel::Int4(_) => 4,
        ValueModel::Int8(_) => 8,
        ValueModel::Float4(_) => 4,
        ValueModel::Float8(_) => 8,
        ValueModel::Numeric(s) => 24 + utf8_len(s),
        ValueModel::String(s) => 24 + utf8_len(s),
        ValueModel::Bytes(b) => 24 + b.len(),
        ValueModel::Vector(xs) => 24 + xs.len() * 4,
        ValueModel::Array(items) => 24 + values_size(items),
        ValueModel::Json(_) => 256,
        ValueModel::Uuid(_) => 16,
        ValueModel::Timestamp(_) => 16,
        ValueModel::Date(_) => 4,
        ValueModel::Time(_) => 8,
        ValueModel::DictRef { .. } => 4,
        ValueModel::CasRef { .. } => 32,
        ValueModel::ColumnarRef => 1,
        ValueModel::Interval(_) => 16,
    }
}

/// The estimated memory of a list of values.
pub open spec fn values_size(s: Seq<ValueModel>) -> nat
    decreases s,
{
    if s.len() == 0 {
        0
    } else {
        values_size(s.drop_last()) + value_size(s.last())
    }
}

/// The estimated memory of a row.
pub open spec fn tuple_size(t: TupleModel) -> nat {
    24 + values_size(t.values)
}

fn text_bytes(s: &str) -> (r: usize)
    ensures
        r == utf8_len(s@),
{
    s.as_bytes().len()
}

pub fn estimate_value_size(value: &Value) -> (r: usize)
    ensures
        r == capped(value_size(value@)),
    decreases value,
{
    match value {
        Value::Null => 1,
        Value::Boolean(_) => 1,
        Value::Int2(_) => 2,
        Value::Int4(_) => 4,
        Value::Int8(_) => 8,
        Value::Float4(_) => 4,
        Value::Float8(_) => 8,
        Value::Numeric(s) => text_bytes(s.as_str()).saturating_add(24),
        Value::String(s) => text_bytes(s.as_str()).saturating_add(24),
        Value::Bytes(b) => b.len().saturating_add(24),
        Value::Vector(xs) => {
            let n: u128 = xs.len() as u128 * 4 + 24;
            if n <= usize::MAX as u128 {
                n as usize
            } else {
                usize::MAX
            }
        },
        Value::Array(items) => {
            let ghost all = value::values_model(items@);
            proof {
                value::lemma_values_model(items@);
            }
            let mut sum: usize = 24;
            assert(all.take(0) =~= Seq::<ValueModel>::empty());
            for i in 0..items.len()
                invariant
                    *value is Array,
                    items == value->Array_0,
                    all == value::values_model(items@),
                    all.len() == items.len(),
                    forall|j: int| 0 <= j < items.len() ==> #[trigger] all[j] == items@[j]@,
                    sum == capped(24 + values_size(all.take(i as int))),
            {
                let ghost next = all.take(i + 1);
                assert(next.drop_last() =~= all.take(i as int));
                assert(next.last() == items@[i as int]@);
                sum = sum.saturating_add(estimate_value_size(&items[i]));
            }
            assert(all.take(items.len() as int) =~= all);
            sum
        },
        Value::Json(_) => 256,
        Value::Uuid(_) => 16,
        Value::Timestamp(_) => 16,
        Value::Date(_) => 4,
        Value::Time(_) => 8,
        Value::DictRef { .. } => 4,
        Value::CasRef { .. } => 32,
        Value::ColumnarRef => 1,
        Value::Interval(_) => 16,
    }
}

/// The estimated memory of a list of values, with 24 bytes for the list.
pub fn estimate_values_size(values: &Vec<Value>) -> (r: usize)
    ensures
        r == capped(24 + values_size(value::values_model(values@))),
{
    let ghost all = value::values_model(values@);
    let mut sum: usize = 24;
    assert(all.take(0) =~= Seq::<ValueModel>::empty());
    for i in 0..values.len()
        invariant
            all == value::values_model(values@),
            sum == capped(24 + values_size(all.take(i as int))),
    {
        let ghost next = all.take(i + 1);
        assert(next.drop_last() =~= all.take(i as int));
        assert(next.last() == values@[i as int]@);
        sum = sum.saturating_add(estimate_value_size(&values[i]));
    }
    assert(all.take(values.len() as int) =~= all);
    sum
}

pub fn estimate_tuple_size(tuple: &Tuple) -> (r: usize)
    ensures
        r == capped(tuple_size(tuple@)),
{
    estimate_values_size(&tuple.values)
}

/// The memory cap of a join where nothing sets another, in megabytes.
pub const DEFAULT_JOIN_MEMORY_LIMIT_MB: usize = 1024;

/// The bytes of a megabyte.
pub const MEGABYTE: usize = 1048576;

/// The cap in megabytes: the override where it spells a positive number, else
/// the configured value where it is positive, else the default.
pub open spec fn effective_limit_mb(env_mb: Option<Seq<char>>, configured_mb: usize) -> usize {
    let given: Option<usize> = match env_mb {
        Some(t) => text::spelled_usize(text::trimmed(t)),
        None => None,
    };
    if given matches Some(n) && n > 0 {
        given->Some_0
    } else if configured_mb > 0 {
        configured_mb
    } else {
        DEFAULT_JOIN_MEMORY_LIMIT_MB
    }
}

/// The cap, in bytes, on what a join may hold in memory.
pub fn resolve_join_memory_limit(env_mb: Option<&str>, configured_mb: usize) -> (r: usize)
    ensures
        r == capped(
            effective_limit_mb(schema::opt_str(env_mb), configured_mb) as nat * MEGABYTE as nat,
        ),
{
    let given: Option<usize> = match env_mb {
        Some(t) => text::parse_usize(text::trim(t).as_str()),
        None => None,
    };
    let mb: usize = match given {
        Some(n) => {
            if n > 0 {
                n
            } else if configured_mb > 0 {
                configured_mb
            } else {
                DEFAULT_JOIN_MEMORY_LIMIT_MB
            }
        },
        None => {
            if configured_mb > 0 {
                configured_mb
            } else {
                DEFAULT_JOIN_MEMORY_LIMIT_MB
            }
        },
    };
    let bytes: u128 = mb as u128 * MEGABYTE as u128;
    if bytes <= usize::MAX as u128 {
        bytes as usize
    } else {
        usize::MAX
    }
}

/// The cap where nothing sets another, in bytes.
pub open spec fn default_limit() -> usize {
    capped(DEFAULT_JOIN_MEMORY_LIMIT_MB as nat * MEGABYTE as nat)
}

/// The cap where nothing sets another, in bytes.
pub fn default_memory_limit() -> (r: usize)
    ensures
        r == default_limit(),
{
    resolve_join_memory_limit(None, 0)
}

/// The refusal of a join that would hold more in memory than it may.
pub open spec fn over_memory(limit: usize) -> ErrorModel {
    ErrorModel::QueryExecution(
        "Join exceeds memory limit ("@ + text::decimal((limit / MEGABYTE) as nat)
            + " MB). Raise it with the [performance] join_memory_limit_mb configuration key, the --join-memory-limit-mb flag or the HELIOSDB_HASH_JOIN_MEM_MB environment variable, or rewrite the query (e.g. add a more selective filter or join key)."@,
    )
}

/// The one refusal that both join operators give.
pub fn join_memory_limit_exceeded(memory_limit: usize) -> (r: Error)
    ensures
        r@ == over_memory(memory_limit),
{
    Error::query_execution(
        text::concat_number(
            "Join exceeds memory limit (",
            (memory_limit / MEGABYTE) as u128,
            " MB). Raise it with the [performance] join_memory_limit_mb configuration key, the --join-memory-limit-mb flag or the HELIOSDB_HASH_JOIN_MEM_MB environment variable, or rewrite the query (e.g. add a more selective filter or join key).",
        ),
    )
}

} // verus!
