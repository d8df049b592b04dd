//! Predicates on an integer primary key, as ranges of keys.

use crate::evaluator;
use crate::executor::index_lookup;
use crate::logical_plan;
use crate::logical_plan::{BinaryOperator, ExprModel, LogicalExpr};
use crate::schema;
use crate::schema::{ColumnModel, Schema, Tuple, TupleModel};
use crate::text;
use crate::value;
use crate::value::{DataType, Value, ValueModel};
use vstd::prelude::*;

verus! {

/// A range of integers; each end says whether it belongs to the range.
#[derive(Clone, Copy, PartialEq, Eq, Debug)]
pub struct IntRange {
    pub lower: Option<(i64, bool)>,
    pub upper: Option<(i64, bool)>,
}

pub open spec fn above(lower: Option<(i64, bool)>, n: int) -> bool {
    match lower {
        None => true,
        Some(b) => b.0 < n || (b.1 && b.0 == n),
    }
}

pub open spec fn below(upper: Option<(i64, bool)>, n: int) -> bool {
    match upper {
        None => true,
        Some(b) => n < b.0 || (b.1 && b.0 == n),
    }
}

/// Whether a number is in a range.
pub open spec fn admits(r: IntRange, n: int) -> bool {
    above(r.lower, n) && below(r.upper, n)
}

pub open spec fn tighter_lower(a: Option<(i64, bool)>, b: Option<(i64, bool)>) -> Option<
    (i64, bool),
> {
    match (a, b) {
        (None, x) => x,
        (x, None) => x,
        (Some(x), Some(y)) => if x.0 > y.0 {
            Some(x)
        } else if y.0 > x.0 {
            Some(y)
        } else {
            Some((x.0, x.1 && y.1))
        },
    }
}

pub open spec fn tighter_upper(a: Option<(i64, bool)>, b: Option<(i64, bool)>) -> Option<
    (i64, bool),
> {
    match (a, b) {
        (None, x) => x,
        (x, None) => x,
        (Some(x), Some(y)) => if x.0 < y.0 {
            Some(x)
        } else if y.0 < x.0 {
            Some(y)
        } else {
            Some((x.0, x.1 && y.1))
        },
    }
}

/// The range that no number is in.
pub open spec fn empty_range() -> IntRange {
    IntRange { lower: Some((1, true)), upper: Some((0, true)) }
}

/// The numbers that two ranges share; one range stands for all empty ones.
pub open spec fn merged(a: IntRange, b: IntRange) -> IntRange {
    let lower = tighter_lower(a.lower, b.lower);
    let upper = tighter_upper(a.upper, b.upper);
    match (lower, upper) {
        (Some(lo), Some(hi)) => if lo.0 > hi.0 || (lo.0 == hi.0 && !(lo.1 && hi.1)) {
            empty_range()
        } else {
            IntRange { lower, upper }
        },
        _ => IntRange { lower, upper },
    }
}

fn choose_lower(a: Option<(i64, bool)>, b: Option<(i64, bool)>) -> (r: Option<(i64, bool)>)
    ensures
        r == tighter_lower(a, b),
{
    match (a, b) {
        (None, x) => x,
        (x, None) => x,
        (Some(x), Some(y)) => {
            if x.0 > y.0 {
                Some(x)
            } else if y.0 > x.0 {
                Some(y)
            } else {
                Some((x.0, x.1 && y.1))
            }
        },
    }
}

fn choose_upper(a: Option<(i64, bool)>, b: Option<(i64, bool)>) -> (r: Option<(i64, bool)>)
    ensures
        r == tighter_upper(a, b),
{
    match (a, b) {
        (None, x) => x,
        (x, None) => x,
        (Some(x), Some(y)) => {
            if x.0 < y.0 {
                Some(x)
            } else if y.0 < x.0 {
                Some(y)
            } else {
                Some((x.0, x.1 && y.1))
            }
        },
    }
}

/// The numbers that two ranges share.
pub fn merge_int_ranges(a: IntRange, b: IntRange) -> (r: IntRange)
    ensures
        r == merged(a, b),
        forall|n: int| #[trigger] admits(r, n) == (admits(a, n) && admits(b, n)),
{
    proof {
        assert forall|n: int| #[trigger] admits(merged(a, b), n) == (admits(a, n) && admits(b, n)) by {
            law_merged_range_is_the_intersection(a, b, n);
        }
    }
    let lower: Option<(i64, bool)> = choose_lower(a.lower, b.lower);
    let upper: Option<(i64, bool)> = choose_upper(a.upper, b.upper);
    if let (Some(lo), Some(hi)) = (lower, upper) {
        if lo.0 > hi.0 || (lo.0 == hi.0 && !(lo.1 && hi.1)) {
            return IntRange { lower: Some((1, true)), upper: Some((0, true)) };
        }
    }
    IntRange { lower, upper }
}

/// A number is in the merged range exactly where it is in both.
pub proof fn law_merged_range_is_the_intersection(a: IntRange, b: IntRange, n: int)
    ensures
        admits(merged(a, b), n) == (admits(a, n) && admits(b, n)),
{
}

/// Whether an expression is a column of a name, whatever qualifies it.
pub open spec fn names_column(e: ExprModel, column: Seq<char>) -> bool {
    match e {
        ExprModel::Column { table, name } => text::same_ignoring_case(
            text::last_segment(name),
            column,
        ),
        _ => false,
    }
}

pub fn expr_matches_column(expr: &LogicalExpr, column: &str) -> (r: bool)
    ensures
        r == names_column(expr@, column@),
{
    match expr {
        LogicalExpr::Column { table: _, name } => text::eq_ignore_ascii_case(
            text::after_last_dot(name.as_str()).as_str(),
            column,
        ),
        _ => false,
    }
}

/// A number that fits a type of integers.
pub open spec fn fitting(n: i64, t: DataType) -> Option<i64> {
    match t {
        DataType::Int2 => if i16::MIN <= n <= i16::MAX {
            Some(n)
        } else {
            None
        },
        DataType::Int4 => if i32::MIN <= n <= i32::MAX {
            Some(n)
        } else {
            None
        },
        DataType::Int8 => Some(n),
        _ => None,
    }
}

/// The key that a value stands for.
pub open spec fn key_number(v: ValueModel, t: DataType) -> Option<i64> {
    match v {
        ValueModel::Int2(n) => fitting(n as i64, t),
        ValueModel::Int4(n) => fitting(n as i64, t),
        ValueModel::Int8(n) => fitting(n, t),
        ValueModel::String(s) => match text::spelled_i64(s) {
            Some(n) => fitting(n, t),
            None => None,
        },
        _ => None,
    }
}

fn fit(n: i64, t: &DataType) -> (r: Option<i64>)
    ensures
        r == fitting(n, *t),
{
    match t {
        DataType::Int2 => {
            if -32768 <= n && n <= 32767 {
                Some(n)
            } else {
                None
            }
        },
        DataType::Int4 => {
            if -2147483648 <= n && n <= 2147483647 {
                Some(n)
            } else {
                None
            }
        },
        DataType::Int8 => Some(n),
        _ => None,
    }
}

/// The key that a value stands for.
pub fn value_to_i64_for_pk_range(v: &Value, t: &DataType) -> (r: Option<i64>)
    ensures
        r == key_number(v@, *t),
{
    match v {
        Value::Int2(n) => fit(*n as i64, t),
        Value::Int4(n) => fit(*n as i64, t),
        Value::Int8(n) => fit(*n, t),
        Value::String(s) => match text::parse_i64(s.as_str()) {
            Some(n) => fit(n, t),
            None => None,
        },
        _ => None,
    }
}

/// The value of a constant; parameters count from 1, and 0 is the first too.
pub open spec fn constant_value(e: ExprModel, params: Seq<ValueModel>) -> Option<ValueModel> {
    match e {
        ExprModel::Literal(v) => Some(v),
        ExprModel::Parameter { index } => {
            let at = if index == 0 {
                0
            } else {
                index - 1
            };
            if at < params.len() {
                Some(params[at])
            } else {
                None
            }
        },
        _ => None,
    }
}

pub(crate) fn find_constant<'a>(e: &'a LogicalExpr, params: &'a Vec<Value>) -> (r: Option<&'a Value>)
    ensures
        match r {
            Some(v) => constant_value(e@, value::values_model(params@)) == Some(v@),
            None => constant_value(e@, value::values_model(params@)) is None,
        },
{
    match e {
        LogicalExpr::Literal(v) => Some(v),
        LogicalExpr::Parameter { index } => {
            let at: usize = if *index == 0 {
                0
            } else {
                *index - 1
            };
            if at < params.len() {
                assert(value::values_model(params@)[at as int] == params@[at as int]@);
                Some(&params[at])
            } else {
                None
            }
        },
        _ => None,
    }
}

/// The key that a constant stands for.
pub open spec fn constant_key(e: ExprModel, t: DataType, params: Seq<ValueModel>) -> Option<i64> {
    match constant_value(e, params) {
        Some(v) => key_number(v, t),
        None => None,
    }
}

pub fn bound_expr_to_i64(e: &LogicalExpr, t: &DataType, params: &Vec<Value>) -> (r: Option<i64>)
    ensures
        r == constant_key(e@, *t, value::values_model(params@)),
{
    match find_constant(e, params) {
        Some(v) => value_to_i64_for_pk_range(v, t),
        None => None,
    }
}

/// The range of `column op bound`.
pub open spec fn column_op_range(op: BinaryOperator, bound: i64) -> Option<IntRange> {
    match op {
        BinaryOperator::Eq => Some(
            IntRange { lower: Some((bound, true)), upper: Some((bound, true)) },
        ),
        BinaryOperator::Gt => Some(IntRange { lower: Some((bound, false)), upper: None }),
        BinaryOperator::GtEq => Some(IntRange { lower: Some((bound, true)), upper: None }),
        BinaryOperator::Lt => Some(IntRange { lower: None, upper: Some((bound, false)) }),
        BinaryOperator::LtEq => Some(IntRange { lower: None, upper: Some((bound, true)) }),
        _ => None,
    }
}

/// The range of `bound op column`.
pub open spec fn value_op_range(op: BinaryOperator, bound: i64) -> Option<IntRange> {
    match op {
        BinaryOperator::Eq => column_op_range(BinaryOperator::Eq, bound),
        BinaryOperator::Lt => column_op_range(BinaryOperator::Gt, bound),
        BinaryOperator::LtEq => column_op_range(BinaryOperator::GtEq, bound),
        BinaryOperator::Gt => column_op_range(BinaryOperator::Lt, bound),
        BinaryOperator::GtEq => column_op_range(BinaryOperator::LtEq, bound),
        _ => None,
    }
}

pub fn range_for_column_op(op: BinaryOperator, bound: i64) -> (r: Option<IntRange>)
    ensures
        r == column_op_range(op, bound),
{
    match op {
        BinaryOperator::Eq => Some(
            IntRange { lower: Some((bound, true)), upper: Some((bound, true)) },
        ),
        BinaryOperator::Gt => Some(IntRange { lower: Some((bound, false)), upper: None }),
        BinaryOperator::GtEq => Some(IntRange { lower: Some((bound, true)), upper: None }),
        BinaryOperator::Lt => Some(IntRange { lower: None, upper: Some((bound, false)) }),
        BinaryOperator::LtEq => Some(IntRange { lower: None, upper: Some((bound, true)) }),
        _ => None,
    }
}

pub fn range_for_value_op(op: BinaryOperator, bound: i64) -> (r: Option<IntRange>)
    ensures
        r == value_op_range(op, bound),
{
    match op {
        BinaryOperator::Eq => range_for_column_op(BinaryOperator::Eq, bound),
        BinaryOperator::Lt => range_for_column_op(BinaryOperator::Gt, bound),
        BinaryOperator::LtEq => range_for_column_op(BinaryOperator::GtEq, bound),
        BinaryOperator::Gt => range_for_column_op(BinaryOperator::Lt, bound),
        BinaryOperator::GtEq => range_for_column_op(BinaryOperator::LtEq, bound),
        _ => None,
    }
}

/// The range of keys that a predicate asks for, where it asks for nothing else.
pub open spec fn key_range(
    predicate: ExprModel,
    key: Seq<char>,
    t: DataType,
    params: Seq<ValueModel>,
) -> Option<IntRange>
    decreases predicate,
{
    match predicate {
        ExprModel::BinaryExpr { left, op, right } => if op == BinaryOperator::And {
            match (key_range(*left, key, t, params), key_range(*right, key, t, params)) {
                (Some(a), Some(b)) => Some(merged(a, b)),
                _ => None,
            }
        } else if names_column(*left, key) && !names_column(*right, key) {
            match constant_key(*right, t, params) {
                Some(n) => column_op_range(op, n),
                None => None,
            }
        } else if !names_column(*left, key) && names_column(*right, key) {
            match constant_key(*left, t, params) {
                Some(n) => value_op_range(op, n),
                None => None,
            }
        } else {
            None
        },
        ExprModel::Between { expr, low, high, negated } => if negated || !names_column(
            *expr,
            key,
        ) {
            None
        } else {
            match (constant_key(*low, t, params), constant_key(*high, t, params)) {
                (Some(a), Some(b)) => Some(
                    IntRange { lower: Some((a, true)), upper: Some((b, true)) },
                ),
                _ => None,
            }
        },
        _ => None,
    }
}

/// The range of keys that a predicate asks for, where it asks for nothing else.
pub fn pk_int_range_from_predicate(
    predicate: &LogicalExpr,
    key: &str,
    t: &DataType,
    params: &Vec<Value>,
) -> (r: Option<IntRange>)
    ensures
        r == key_range(predicate@, key@, *t, value::values_model(params@)),
    decreases predicate,
{
    match predicate {
        LogicalExpr::BinaryExpr { left, op, right } => {
            if matches!(op, BinaryOperator::And) {
                let a: IntRange = match pk_int_range_from_predicate(left, key, t, params) {
                    Some(a) => a,
                    None => {
                        return None;
                    },
                };
                return match pk_int_range_from_predicate(right, key, t, params) {
                    Some(b) => Some(merge_int_ranges(a, b)),
                    None => None,
                };
            }
            let on_left: bool = expr_matches_column(left, key);
            let on_right: bool = expr_matches_column(right, key);
            if on_left && !on_right {
                match bound_expr_to_i64(right, t, params) {
                    Some(n) => range_for_column_op(*op, n),
                    None => None,
                }
            } else if !on_left && on_right {
                match bound_expr_to_i64(left, t, params) {
                    Some(n) => range_for_value_op(*op, n),
                    None => None,
                }
            } else {
                None
            }
        },
        LogicalExpr::Between { expr, low, high, negated } => {
            if *negated || !expr_matches_column(expr, key) {
                return None;
            }
            let a: i64 = match bound_expr_to_i64(low, t, params) {
                Some(a) => a,
                None => {
                    return None;
                },
            };
            match bound_expr_to_i64(high, t, params) {
                Some(b) => Some(IntRange { lower: Some((a, true)), upper: Some((b, true)) }),
                None => None,
            }
        },
        _ => None,
    }
}

/// The number that a value is.
pub open spec fn integer_of(v: ValueModel) -> Option<int> {
    match v {
        ValueModel::Int2(n) => Some(n as int),
        ValueModel::Int4(n) => Some(n as int),
        ValueModel::Int8(n) => Some(n as int),
        _ => None,
    }
}

/// The key of a row, where it is a number.
pub open spec fn row_key(row: TupleModel, at: usize) -> Option<int> {
    if at < row.values.len() {
        integer_of(row.values[at as int])
    } else {
        None
    }
}

/// How many of the first `n` rows have a key in a range.
pub open spec fn count_within(rows: Seq<TupleModel>, n: nat, at: usize, range: IntRange) -> nat
    decreases n,
{
    if n == 0 || n > rows.len() {
        0
    } else {
        let before = count_within(rows, (n - 1) as nat, at, range);
        match row_key(rows[n - 1], at) {
            Some(k) => if admits(range, k) {
                before + 1
            } else {
                before
            },
            None => before,
        }
    }
}

fn find_integer(v: &Value) -> (r: Option<i64>)
    ensures
        match r {
            Some(n) => integer_of(v@) == Some(n as int),
            None => integer_of(v@) is None,
        },
{
    match v {
        Value::Int2(n) => Some(*n as i64),
        Value::Int4(n) => Some(*n as i64),
        Value::Int8(n) => Some(*n),
        _ => None,
    }
}

/// Whether a number is in a range.
pub fn range_admits(r: &IntRange, n: i64) -> (b: bool)
    ensures
        b == admits(*r, n as int),
{
    let above: bool = match r.lower {
        None => true,
        Some((bound, inclusive)) => bound < n || (inclusive && bound == n),
    };
    let below: bool = match r.upper {
        None => true,
        Some((bound, inclusive)) => n < bound || (inclusive && bound == n),
    };
    above && below
}

/// How many rows have a key in a range.
pub fn count_keys_within(rows: &Vec<Tuple>, at: usize, range: &IntRange) -> (r: usize)
    ensures
        r == count_within(schema::rows_model(rows@), rows@.len(), at, *range),
{
    let ghost model = schema::rows_model(rows@);
    let mut count: usize = 0;
    let mut i: usize = 0;
    while i < rows.len()
        invariant
            model == schema::rows_model(rows@),
            i <= rows@.len(),
            count <= i,
            count == count_within(model, i as nat, at, *range),
        decreases rows.len() - i,
    {
        assert(model[i as int] == rows@[i as int]@);
        if at < rows[i].values.len() {
            assert(model[i as int].values[at as int] == rows@[i as int].values@[at as int]@);
            if let Some(n) = find_integer(&rows[i].values[at]) {
                if range_admits(range, n) {
                    count += 1;
                }
            }
        }
        i += 1;
    }
    count
}

/// The one primary key column of a table.
pub open spec fn single_key(cols: Seq<ColumnModel>, from: nat) -> Option<usize>
    decreases cols.len() - from,
{
    if from >= cols.len() {
        None
    } else if cols[from as int].primary_key {
        if other_key(cols, from + 1) {
            None
        } else {
            Some(from as usize)
        }
    } else {
        single_key(cols, from + 1)
    }
}

/// Whether there is a primary key column from a position on.
pub open spec fn other_key(cols: Seq<ColumnModel>, from: nat) -> bool {
    exists|i: int| from <= i < cols.len() && (#[trigger] cols[i]).primary_key
}

fn has_other_key(schema: &Schema, from: usize) -> (r: bool)
    ensures
        r == other_key(schema@, from as nat),
{
    let mut i: usize = from;
    while i < schema.columns.len()
        invariant
            from <= i,
            forall|j: int| from <= j < i && j < schema@.len() ==> !(#[trigger] schema@[j]).primary_key,
        decreases schema.columns.len() - i,
    {
        assert(schema@[i as int] == schema.columns@[i as int]@);
        if schema.columns[i].primary_key {
            assert(schema@[i as int].primary_key);
            return true;
        }
        i += 1;
    }
    false
}

/// The one primary key column of a table.
pub fn find_single_key(schema: &Schema) -> (r: Option<usize>)
    ensures
        r == single_key(schema@, 0),
        r matches Some(i) ==> i < schema.columns.len(),
{
    let mut i: usize = 0;
    while i < schema.columns.len()
        invariant
            i <= schema.columns@.len(),
            single_key(schema@, 0) == single_key(schema@, i as nat),
        decreases schema.columns.len() - i,
    {
        assert(schema@[i as int] == schema.columns@[i as int]@);
        if schema.columns[i].primary_key {
            return if has_other_key(schema, i + 1) {
                None
            } else {
                Some(i)
            };
        }
        i += 1;
    }
    None
}

/// The key that an item of a list asks for: the outer option says whether it can
/// be told, the value may be NULL.
pub open spec fn listed_key(e: ExprModel, t: DataType, params: Seq<ValueModel>) -> Option<
    ValueModel,
> {
    match constant_value(e, params) {
        None => None,
        Some(v) => if v is Null {
            Some(ValueModel::Null)
        } else {
            match t {
                DataType::Int2 => match key_number(v, t) {
                    Some(n) => Some(ValueModel::Int2(n as i16)),
                    None => None,
                },
                DataType::Int4 => match key_number(v, t) {
                    Some(n) => Some(ValueModel::Int4(n as i32)),
                    None => None,
                },
                DataType::Int8 => match key_number(v, t) {
                    Some(n) => Some(ValueModel::Int8(n)),
                    None => None,
                },
                _ => Some(index_lookup::literal_for(v, t)),
            }
        },
    }
}

/// The key that an item of a list asks for.
pub fn pk_in_list_value(e: &LogicalExpr, t: &DataType, params: &Vec<Value>) -> (r: Option<Value>)
    ensures
        value::opt_value_model(r) == listed_key(e@, *t, value::values_model(params@)),
{
    let v: &Value = match find_constant(e, params) {
        Some(v) => v,
        None => {
            return None;
        },
    };
    if matches!(v, Value::Null) {
        return Some(Value::Null);
    }
    match t {
        DataType::Int2 => match value_to_i64_for_pk_range(v, t) {
            Some(n) => Some(Value::Int2(n as i16)),
            None => None,
        },
        DataType::Int4 => match value_to_i64_for_pk_range(v, t) {
            Some(n) => Some(Value::Int4(n as i32)),
            None => None,
        },
        DataType::Int8 => match value_to_i64_for_pk_range(v, t) {
            Some(n) => Some(Value::Int8(n)),
            None => None,
        },
        _ => Some(index_lookup::coerce_literal_to_column_type(v.clone(), t)),
    }
}

/// The keys that the first `n` items of a list ask for, each once, without NULL.
pub open spec fn listed_keys(
    list: Seq<ExprModel>,
    n: nat,
    t: DataType,
    params: Seq<ValueModel>,
) -> Option<Seq<ValueModel>>
    decreases n,
{
    if n == 0 || n > list.len() {
        Some(Seq::empty())
    } else {
        match listed_keys(list, (n - 1) as nat, t, params) {
            None => None,
            Some(s) => match listed_key(list[n - 1], t, params) {
                None => None,
                Some(v) => if v is Null || s.contains(v) {
                    Some(s)
                } else {
                    Some(s.push(v))
                },
            },
        }
    }
}

/// Whether a row has a key.
pub open spec fn has_key(rows: Seq<TupleModel>, at: usize, v: ValueModel) -> bool {
    exists|i: int|
        0 <= i < rows.len() && at < (#[trigger] rows[i]).values.len() && rows[i].values[at as int]
            == v
}

/// How many of the first `n` keys some row has.
pub open spec fn count_listed(keys: Seq<ValueModel>, n: nat, rows: Seq<TupleModel>, at: usize) -> nat
    decreases n,
{
    if n == 0 || n > keys.len() {
        0
    } else {
        count_listed(keys, (n - 1) as nat, rows, at) + (if has_key(rows, at, keys[n - 1]) {
            1nat
        } else {
            0nat
        })
    }
}

proof fn lemma_listed_keys_stop(
    list: Seq<ExprModel>,
    k: nat,
    n: nat,
    t: DataType,
    params: Seq<ValueModel>,
)
    requires
        k <= n <= list.len(),
        listed_keys(list, k, t, params) is None,
    ensures
        listed_keys(list, n, t, params) is None,
    decreases n,
{
    if k < n {
        lemma_listed_keys_stop(list, k, (n - 1) as nat, t, params);
    }
}

fn holds_value(v: &Vec<Value>, x: &Value) -> (r: bool)
    ensures
        r == value::values_model(v@).contains(x@),
{
    let ghost model = value::values_model(v@);
    let mut i: usize = 0;
    while i < v.len()
        invariant
            model == value::values_model(v@),
            i <= v@.len(),
            forall|j: int| 0 <= j < i ==> #[trigger] model[j] != x@,
        decreases v.len() - i,
    {
        assert(model[i as int] == v@[i as int]@);
        if value::same_value(&v[i], x) {
            assert(model[i as int] == x@);
            return true;
        }
        i += 1;
    }
    false
}

pub open spec fn opt_values(v: Option<Vec<Value>>) -> Option<Seq<ValueModel>> {
    match v {
        Some(x) => Some(value::values_model(x@)),
        None => None,
    }
}

/// The keys that a list asks for, each once, without NULL.
pub fn collect_listed_keys(list: &Vec<LogicalExpr>, t: &DataType, params: &Vec<Value>) -> (r: Option<
    Vec<Value>,
>)
    ensures
        opt_values(r) == listed_keys(
            logical_plan::exprs_model(list@),
            list@.len(),
            *t,
            value::values_model(params@),
        ),
{
    let ghost model = logical_plan::exprs_model(list@);
    proof {
        logical_plan::lemma_exprs_model(list@);
    }
    let mut out: Vec<Value> = Vec::new();
    assert(value::values_model(out@) =~= Seq::<ValueModel>::empty());
    let mut i: usize = 0;
    while i < list.len()
        invariant
            model == logical_plan::exprs_model(list@),
            model.len() == list@.len(),
            forall|j: int| 0 <= j < list@.len() ==> #[trigger] model[j] == list@[j]@,
            i <= list@.len(),
            listed_keys(model, i as nat, *t, value::values_model(params@)) == Some(
                value::values_model(out@),
            ),
        decreases list.len() - i,
    {
        assert(model[i as int] == list@[i as int]@);
        match pk_in_list_value(&list[i], t, params) {
            None => {
                proof {
                    lemma_listed_keys_stop(
                        model,
                        (i + 1) as nat,
                        model.len(),
                        *t,
                        value::values_model(params@),
                    );
                }
                return None;
            },
            Some(v) => {
                if !matches!(v, Value::Null) && !holds_value(&out, &v) {
                    let ghost was = value::values_model(out@);
                    out.push(v);
                    assert(value::values_model(out@) =~= was.push(v@));
                }
            },
        }
        i += 1;
    }
    Some(out)
}

fn find_key(rows: &Vec<Tuple>, at: usize, v: &Value) -> (r: bool)
    ensures
        r == has_key(schema::rows_model(rows@), at, v@),
{
    let ghost model = schema::rows_model(rows@);
    let mut i: usize = 0;
    while i < rows.len()
        invariant
            model == schema::rows_model(rows@),
            i <= rows@.len(),
            forall|j: int|
                0 <= j < i ==> !(at < (#[trigger] model[j]).values.len()
                    && model[j].values[at as int] == v@),
        decreases rows.len() - i,
    {
        assert(model[i as int] == rows@[i as int]@);
        if at < rows[i].values.len() {
            assert(model[i as int].values[at as int] == rows@[i as int].values@[at as int]@);
            if value::same_value(&rows[i].values[at], v) {
                assert(at < model[i as int].values.len());
                return true;
            }
        }
        i += 1;
    }
    false
}

/// How many of some keys some row has.
pub fn count_listed_keys(keys: &Vec<Value>, rows: &Vec<Tuple>, at: usize) -> (r: usize)
    ensures
        r == count_listed(
            value::values_model(keys@),
            keys@.len(),
            schema::rows_model(rows@),
            at,
        ),
{
    let ghost model = value::values_model(keys@);
    let mut count: usize = 0;
    let mut i: usize = 0;
    while i < keys.len()
        invariant
            model == value::values_model(keys@),
            i <= keys@.len(),
            count <= i,
            count == count_listed(model, i as nat, schema::rows_model(rows@), at),
        decreases keys.len() - i,
    {
        assert(model[i as int] == keys@[i as int]@);
        if find_key(rows, at, &keys[i]) {
            count += 1;
        }
        i += 1;
    }
    count
}

/// How many rows a predicate on the primary key asks for, where it asks for
/// nothing else.
pub open spec fn key_count(
    predicate: ExprModel,
    cols: Seq<ColumnModel>,
    at: usize,
    rows: Seq<TupleModel>,
    params: Seq<ValueModel>,
) -> Option<nat> {
    let key = cols[at as int];
    match key_range(predicate, key.name, key.data_type, params) {
        Some(range) => Some(count_within(rows, rows.len(), at, range)),
        None => match predicate {
            ExprModel::InList { expr, list, negated } => if negated || !names_column(
                *expr,
                key.name,
            ) {
                None
            } else {
                match listed_keys(list, list.len(), key.data_type, params) {
                    Some(keys) => Some(count_listed(keys, keys.len(), rows, at)),
                    None => None,
                }
            },
            _ => None,
        },
    }
}

/// How many rows a predicate on the primary key asks for.
pub fn count_by_key(
    predicate: &LogicalExpr,
    schema: &Schema,
    at: usize,
    rows: &Vec<Tuple>,
    params: &Vec<Value>,
) -> (r: Option<usize>)
    requires
        at < schema.columns.len(),
    ensures
        match r {
            Some(n) => key_count(
                predicate@,
                schema@,
                at,
                schema::rows_model(rows@),
                value::values_model(params@),
            ) == Some(n as nat),
            None => key_count(
                predicate@,
                schema@,
                at,
                schema::rows_model(rows@),
                value::values_model(params@),
            ) is None,
        },
{
    assert(schema@[at as int] == schema.columns@[at as int]@);
    let name: &str = schema.columns[at].name.as_str();
    let t: &DataType = &schema.columns[at].data_type;
    if let Some(range) = pk_int_range_from_predicate(predicate, name, t, params) {
        return Some(count_keys_within(rows, at, &range));
    }
    match predicate {
        LogicalExpr::InList { expr, list, negated } => {
            proof {
                logical_plan::lemma_exprs_model(list@);
            }
            if *negated || !expr_matches_column(expr, name) {
                return None;
            }
            match collect_listed_keys(list, t, params) {
                Some(keys) => Some(count_listed_keys(&keys, rows, at)),
                None => None,
            }
        },
        _ => None,
    }
}

/// Whether the constants of a predicate on the key are numbers, and the key is
/// read at a position of the row.
pub open spec fn plain_key_predicate(
    predicate: ExprModel,
    key: Seq<char>,
    cols: Seq<ColumnModel>,
    at: usize,
    params: Seq<ValueModel>,
) -> bool
    decreases predicate,
{
    match predicate {
        ExprModel::BinaryExpr { left, op, right } => if op == BinaryOperator::And {
            plain_key_predicate(*left, key, cols, at, params) && plain_key_predicate(
                *right,
                key,
                cols,
                at,
                params,
            )
        } else {
            plain_operand(*left, key, cols, at, params) && plain_operand(
                *right,
                key,
                cols,
                at,
                params,
            )
        },
        ExprModel::Between { expr, low, high, negated } => plain_operand(
            *expr,
            key,
            cols,
            at,
            params,
        ) && plain_operand(*low, key, cols, at, params) && plain_operand(
            *high,
            key,
            cols,
            at,
            params,
        ),
        _ => false,
    }
}

pub open spec fn plain_operand(
    e: ExprModel,
    key: Seq<char>,
    cols: Seq<ColumnModel>,
    at: usize,
    params: Seq<ValueModel>,
) -> bool {
    match e {
        ExprModel::Column { table, name } => names_column(e, key) ==> schema::qualified_index(
            cols,
            table,
            name,
        ) == Some(at),
        ExprModel::Literal(v) => integer_of(v) is Some,
        ExprModel::Parameter { index } => 0 < index <= params.len() && integer_of(
            params[index - 1],
        ) is Some,
        _ => true,
    }
}

proof fn lemma_operand(
    e: ExprModel,
    key: Seq<char>,
    t: DataType,
    cols: Seq<ColumnModel>,
    at: usize,
    params: Seq<ValueModel>,
    row: Seq<ValueModel>,
)
    requires
        plain_operand(e, key, cols, at, params),
        at < row.len(),
    ensures
        names_column(e, key) ==> evaluator::eval(e, cols, params, row) == Ok::<
            ValueModel,
            schema::ErrorModel,
        >(row[at as int]),
        constant_key(e, t, params) matches Some(n) ==> (evaluator::eval(e, cols, params, row)
            matches Ok(v) && integer_of(v) == Some(n as int)),
{
}

/// What a comparison says of two numbers.
pub open spec fn numbers_compare(op: BinaryOperator, a: int, b: int) -> bool {
    match op {
        BinaryOperator::Eq => a == b,
        BinaryOperator::Lt => a < b,
        BinaryOperator::LtEq => a <= b,
        BinaryOperator::Gt => a > b,
        BinaryOperator::GtEq => a >= b,
        _ => false,
    }
}

proof fn lemma_numbers_compare(a: ValueModel, op: BinaryOperator, b: ValueModel)
    requires
        integer_of(a) is Some,
        integer_of(b) is Some,
        column_op_range(op, 0) is Some,
    ensures
        evaluator::binary_value(a, op, b) == Ok::<ValueModel, schema::ErrorModel>(
            ValueModel::Boolean(
                numbers_compare(op, integer_of(a)->Some_0, integer_of(b)->Some_0),
            ),
        ),
{
}

proof fn lemma_comparison(
    left: ExprModel,
    op: BinaryOperator,
    right: ExprModel,
    key: Seq<char>,
    t: DataType,
    cols: Seq<ColumnModel>,
    at: usize,
    params: Seq<ValueModel>,
    row: Seq<ValueModel>,
    range: IntRange,
)
    requires
        plain_operand(left, key, cols, at, params),
        plain_operand(right, key, cols, at, params),
        at < row.len(),
        integer_of(row[at as int]) is Some,
        op != BinaryOperator::And,
        op != BinaryOperator::Or,
        (names_column(left, key) && !names_column(right, key) && (constant_key(right, t, params)
            matches Some(n) && column_op_range(op, n) == Some(range))) || (!names_column(left, key)
            && names_column(right, key) && (constant_key(left, t, params) matches Some(n)
            && value_op_range(op, n) == Some(range))),
    ensures
        ({
            let a = evaluator::eval(left, cols, params, row);
            let b = evaluator::eval(right, cols, params, row);
            &&& a is Ok
            &&& b is Ok
            &&& evaluator::binary_value(a->Ok_0, op, b->Ok_0) == Ok::<
                ValueModel,
                schema::ErrorModel,
            >(ValueModel::Boolean(admits(range, integer_of(row[at as int])->Some_0)))
        }),
{
    lemma_operand(left, key, t, cols, at, params, row);
    lemma_operand(right, key, t, cols, at, params, row);
    let a = evaluator::eval(left, cols, params, row)->Ok_0;
    let b = evaluator::eval(right, cols, params, row)->Ok_0;
    lemma_numbers_compare(a, op, b);
}

/// The range of keys that a predicate asks for holds the key of a row exactly
/// where the predicate is true on the row.
pub proof fn law_key_range_is_the_predicate(
    predicate: ExprModel,
    key: Seq<char>,
    t: DataType,
    cols: Seq<ColumnModel>,
    at: usize,
    params: Seq<ValueModel>,
    row: Seq<ValueModel>,
)
    requires
        plain_key_predicate(predicate, key, cols, at, params),
        at < row.len(),
        integer_of(row[at as int]) is Some,
        key_range(predicate, key, t, params) is Some,
    ensures
        evaluator::eval(predicate, cols, params, row) == Ok::<ValueModel, schema::ErrorModel>(
            ValueModel::Boolean(
                admits(
                    key_range(predicate, key, t, params)->Some_0,
                    integer_of(row[at as int])->Some_0,
                ),
            ),
        ),
    decreases predicate,
{
    match predicate {
        ExprModel::BinaryExpr { left, op, right } => {
            if op == BinaryOperator::And {
                law_key_range_is_the_predicate(*left, key, t, cols, at, params, row);
                law_key_range_is_the_predicate(*right, key, t, cols, at, params, row);
                law_merged_range_is_the_intersection(
                    key_range(*left, key, t, params)->Some_0,
                    key_range(*right, key, t, params)->Some_0,
                    integer_of(row[at as int])->Some_0,
                );
            } else {
                let range = key_range(predicate, key, t, params)->Some_0;
                lemma_comparison(*left, op, *right, key, t, cols, at, params, row, range);
            }
        },
        ExprModel::Between { expr, low, high, negated } => {
            lemma_operand(*expr, key, t, cols, at, params, row);
            lemma_operand(*low, key, t, cols, at, params, row);
            lemma_operand(*high, key, t, cols, at, params, row);
            let v = row[at as int];
            let lo = evaluator::eval(*low, cols, params, row)->Ok_0;
            let hi = evaluator::eval(*high, cols, params, row)->Ok_0;
            lemma_numbers_compare(v, BinaryOperator::GtEq, lo);
            lemma_numbers_compare(v, BinaryOperator::LtEq, hi);
        },
        _ => {},
    }
}

} // verus!
