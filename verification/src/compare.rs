//! How values compare: in predicates, and for sorting.

use crate::float_bits;
use crate::parsing;
use crate::text;
use crate::text::Order;
use crate::value;
use crate::value::{Interval, TimeOfDay, Timestamp, Value, ValueModel};
use vstd::prelude::*;

verus! {

/// A single-precision pattern that stands for no number.
pub open spec fn float4_is_nan(bits: u32) -> bool {
    bits % 0x8000_0000 > 0x7f80_0000
}

/// A double-precision pattern that stands for no number.
pub open spec fn float8_is_nan(bits: u64) -> bool {
    bits % 0x8000_0000_0000_0000 > 0x7ff0_0000_0000_0000
}

/// Where a single-precision number stands among all of them: the magnitude
/// bits, negated under the sign bit. Both zeros stand at zero.
pub open spec fn float4_rank(bits: u32) -> int {
    if bits >= 0x8000_0000 {
        -(bits - 0x8000_0000)
    } else {
        bits as int
    }
}

/// Where a double-precision number stands among all of them.
pub open spec fn float8_rank(bits: u64) -> int {
    if bits >= 0x8000_0000_0000_0000 {
        -(bits - 0x8000_0000_0000_0000)
    } else {
        bits as int
    }
}

/// How two single-precision numbers compare; a NaN compares with nothing.
pub open spec fn float4_order(a: u32, b: u32) -> Option<Order> {
    if float4_is_nan(a) || float4_is_nan(b) {
        None
    } else {
        Some(text::int_order(float4_rank(a), float4_rank(b)))
    }
}

/// How two double-precision numbers compare; a NaN compares with nothing.
pub open spec fn float8_order(a: u64, b: u64) -> Option<Order> {
    if float8_is_nan(a) || float8_is_nan(b) {
        None
    } else {
        Some(text::int_order(float8_rank(a), float8_rank(b)))
    }
}

pub fn compare_float4(a: u32, b: u32) -> (r: Option<Order>)
    ensures
        r == float4_order(a, b),
{
    if a % 0x8000_0000 > 0x7f80_0000 || b % 0x8000_0000 > 0x7f80_0000 {
        return None;
    }
    let x: i128 = if a >= 0x8000_0000 {
        -((a - 0x8000_0000) as i128)
    } else {
        a as i128
    };
    let y: i128 = if b >= 0x8000_0000 {
        -((b - 0x8000_0000) as i128)
    } else {
        b as i128
    };
    Some(text::compare_ints(x, y))
}

pub fn compare_float8(a: u64, b: u64) -> (r: Option<Order>)
    ensures
        r == float8_order(a, b),
{
    if a % 0x8000_0000_0000_0000 > 0x7ff0_0000_0000_0000 || b % 0x8000_0000_0000_0000
        > 0x7ff0_0000_0000_0000 {
        return None;
    }
    let x: i128 = if a >= 0x8000_0000_0000_0000 {
        -((a - 0x8000_0000_0000_0000) as i128)
    } else {
        a as i128
    };
    let y: i128 = if b >= 0x8000_0000_0000_0000 {
        -((b - 0x8000_0000_0000_0000) as i128)
    } else {
        b as i128
    };
    Some(text::compare_ints(x, y))
}

/// The integer that a value holds.
pub open spec fn int_value(v: ValueModel) -> Option<i64> {
    match v {
        ValueModel::Int2(n) => Some(n as i64),
        ValueModel::Int4(n) => Some(n as i64),
        ValueModel::Int8(n) => Some(n),
        _ => None,
    }
}

/// The integer that a value holds.
pub fn value_int(v: &Value) -> (r: Option<i64>)
    ensures
        r == int_value(v@),
{
    match v {
        Value::Int2(n) => Some(*n as i64),
        Value::Int4(n) => Some(*n as i64),
        Value::Int8(n) => Some(*n),
        _ => None,
    }
}

pub open spec fn bool_order(a: bool, b: bool) -> Order {
    if a == b {
        Order::Equal
    } else if b {
        Order::Less
    } else {
        Order::Greater
    }
}

fn compare_bools(a: bool, b: bool) -> (r: Order)
    ensures
        r == bool_order(a, b),
{
    if a == b {
        Order::Equal
    } else if b {
        Order::Less
    } else {
        Order::Greater
    }
}

pub open spec fn u128_order(a: u128, b: u128) -> Order {
    text::int_order(a as int, b as int)
}

fn compare_u128(a: u128, b: u128) -> (r: Order)
    ensures
        r == u128_order(a, b),
{
    if a < b {
        Order::Less
    } else if a == b {
        Order::Equal
    } else {
        Order::Greater
    }
}

/// The first difference decides.
pub open spec fn and_next(a: Order, b: Order) -> Order {
    if a == Order::Equal {
        b
    } else {
        a
    }
}

pub open spec fn timestamp_order(a: Timestamp, b: Timestamp) -> Order {
    and_next(
        text::int_order(a.secs as int, b.secs as int),
        text::int_order(a.nanos as int, b.nanos as int),
    )
}

pub open spec fn time_order(a: TimeOfDay, b: TimeOfDay) -> Order {
    and_next(
        text::int_order(a.secs as int, b.secs as int),
        text::int_order(a.nanos as int, b.nanos as int),
    )
}

pub open spec fn interval_order(a: Interval, b: Interval) -> Order {
    and_next(
        text::int_order(a.months as int, b.months as int),
        and_next(
            text::int_order(a.days as int, b.days as int),
            text::int_order(a.micros as int, b.micros as int),
        ),
    )
}

fn first_of(a: Order, b: Order) -> (r: Order)
    ensures
        r == and_next(a, b),
{
    match a {
        Order::Equal => b,
        _ => a,
    }
}

fn compare_timestamps(a: Timestamp, b: Timestamp) -> (r: Order)
    ensures
        r == timestamp_order(a, b),
{
    first_of(
        text::compare_ints(a.secs as i128, b.secs as i128),
        text::compare_ints(a.nanos as i128, b.nanos as i128),
    )
}

fn compare_times(a: TimeOfDay, b: TimeOfDay) -> (r: Order)
    ensures
        r == time_order(a, b),
{
    first_of(
        text::compare_ints(a.secs as i128, b.secs as i128),
        text::compare_ints(a.nanos as i128, b.nanos as i128),
    )
}

fn compare_intervals(a: Interval, b: Interval) -> (r: Order)
    ensures
        r == interval_order(a, b),
{
    first_of(
        text::compare_ints(a.months as i128, b.months as i128),
        first_of(
            text::compare_ints(a.days as i128, b.days as i128),
            text::compare_ints(a.micros as i128, b.micros as i128),
        ),
    )
}

/// How two values compare in a predicate, `None` where they do not: a NULL
/// compares with nothing, integers of any width compare as numbers, an integer
/// compares with a floating-point number as the next such number, and single
/// precision with double precision as a number of double precision. A text
/// compares with a UUID when it spells one.
pub open spec fn direct_order(a: ValueModel, b: ValueModel) -> Option<Order> {
    match (int_value(a), int_value(b)) {
        (Some(x), Some(y)) => Some(text::int_order(x as int, y as int)),
        (Some(x), None) => match b {
            ValueModel::Float4(y) => float4_order(float_bits::float4_of_int(x), y),
            ValueModel::Float8(y) => float8_order(float_bits::float8_of_int(x), y),
            _ => None,
        },
        (None, Some(y)) => match a {
            ValueModel::Float4(x) => float4_order(x, float_bits::float4_of_int(y)),
            ValueModel::Float8(x) => float8_order(x, float_bits::float8_of_int(y)),
            _ => None,
        },
        _ => match (a, b) {
            (ValueModel::Float4(x), ValueModel::Float4(y)) => float4_order(x, y),
            (ValueModel::Float8(x), ValueModel::Float8(y)) => float8_order(x, y),
            (ValueModel::Float4(x), ValueModel::Float8(y)) => float8_order(
                float_bits::float8_of_float4(x),
                y,
            ),
            (ValueModel::Float8(x), ValueModel::Float4(y)) => float8_order(
                x,
                float_bits::float8_of_float4(y),
            ),
            (ValueModel::String(x), ValueModel::String(y)) => Some(text::text_order(x, y)),
            (ValueModel::Boolean(x), ValueModel::Boolean(y)) => Some(bool_order(x, y)),
            (ValueModel::Uuid(x), ValueModel::Uuid(y)) => Some(u128_order(x, y)),
            (ValueModel::Uuid(x), ValueModel::String(y)) => match parsing::uuid_spelled(y) {
                Some(u) => Some(u128_order(x, u)),
                None => None,
            },
            (ValueModel::String(x), ValueModel::Uuid(y)) => match parsing::uuid_spelled(x) {
                Some(u) => Some(u128_order(u, y)),
                None => None,
            },
            (ValueModel::Timestamp(x), ValueModel::Timestamp(y)) => Some(timestamp_order(x, y)),
            (ValueModel::Date(x), ValueModel::Date(y)) => Some(
                text::int_order(x as int, y as int),
            ),
            (ValueModel::Time(x), ValueModel::Time(y)) => Some(time_order(x, y)),
            _ => None,
        },
    }
}

/// Compares two values for a predicate.
pub fn compare_direct_values(left: &Value, right: &Value) -> (r: Option<Order>)
    ensures
        r == direct_order(left@, right@),
{
    match (value_int(left), value_int(right)) {
        (Some(x), Some(y)) => {
            return Some(text::compare_ints(x as i128, y as i128));
        },
        (Some(x), None) => {
            return match right {
                Value::Float4(y) => compare_float4(float_bits::int_to_float4(x), *y),
                Value::Float8(y) => compare_float8(float_bits::int_to_float8(x), *y),
                _ => None,
            };
        },
        (None, Some(y)) => {
            return match left {
                Value::Float4(x) => compare_float4(*x, float_bits::int_to_float4(y)),
                Value::Float8(x) => compare_float8(*x, float_bits::int_to_float8(y)),
                _ => None,
            };
        },
        _ => {},
    }
    match (left, right) {
        (Value::Float4(x), Value::Float4(y)) => compare_float4(*x, *y),
        (Value::Float8(x), Value::Float8(y)) => compare_float8(*x, *y),
        (Value::Float4(x), Value::Float8(y)) => compare_float8(
            float_bits::float4_to_float8(*x),
            *y,
        ),
        (Value::Float8(x), Value::Float4(y)) => compare_float8(
            *x,
            float_bits::float4_to_float8(*y),
        ),
        (Value::String(x), Value::String(y)) => Some(text::compare_text(x.as_str(), y.as_str())),
        (Value::Boolean(x), Value::Boolean(y)) => Some(compare_bools(*x, *y)),
        (Value::Uuid(x), Value::Uuid(y)) => Some(compare_u128(*x, *y)),
        (Value::Uuid(x), Value::String(y)) => match parsing::parse_uuid(y.as_str()) {
            Some(u) => Some(compare_u128(*x, u)),
            None => None,
        },
        (Value::String(x), Value::Uuid(y)) => match parsing::parse_uuid(x.as_str()) {
            Some(u) => Some(compare_u128(u, *y)),
            None => None,
        },
        (Value::Timestamp(x), Value::Timestamp(y)) => Some(compare_timestamps(*x, *y)),
        (Value::Date(x), Value::Date(y)) => Some(text::compare_ints(*x as i128, *y as i128)),
        (Value::Time(x), Value::Time(y)) => Some(compare_times(*x, *y)),
        _ => None,
    }
}

/// Which kinds of values sort before which.
pub open spec fn type_priority(v: ValueModel) -> int {
    match v {
        ValueModel::Null => 0,
        ValueModel::Boolean(_) => 1,
        ValueModel::Int2(_) => 2,
        ValueModel::Int4(_) => 3,
        ValueModel::Int8(_) => 4,
        ValueModel::Float4(_) => 5,
        ValueModel::Float8(_) => 6,
        ValueModel::Numeric(_) => 7,
        ValueModel::String(_) => 8,
        ValueModel::Bytes(_) => 9,
        ValueModel::Uuid(_) => 10,
        ValueModel::Timestamp(_) => 11,
        ValueModel::Date(_) => 12,
        ValueModel::Time(_) => 13,
        ValueModel::Json(_) => 14,
        ValueModel::Array(_) => 15,
        ValueModel::Vector(_) => 16,
        ValueModel::DictRef { .. } => 17,
        ValueModel::CasRef { .. } => 18,
        ValueModel::ColumnarRef => 19,
        ValueModel::Interval(_) => 20,
    }
}

fn priority(v: &Value) -> (r: i128)
    ensures
        r == type_priority(v@),
{
    match v {
        Value::Null => 0,
        Value::Boolean(_) => 1,
        Value::Int2(_) => 2,
        Value::Int4(_) => 3,
        Value::Int8(_) => 4,
        Value::Float4(_) => 5,
        Value::Float8(_) => 6,
        Value::Numeric(_) => 7,
        Value::String(_) => 8,
        Value::Bytes(_) => 9,
        Value::Uuid(_) => 10,
        Value::Timestamp(_) => 11,
        Value::Date(_) => 12,
        Value::Time(_) => 13,
        Value::Json(_) => 14,
        Value::Array(_) => 15,
        Value::Vector(_) => 16,
        Value::DictRef { .. } => 17,
        Value::CasRef { .. } => 18,
        Value::ColumnarRef => 19,
        Value::Interval(_) => 20,
    }
}

/// A comparison that may fail, a failure counting as equal.
pub open spec fn or_equal(o: Option<Order>) -> Order {
    match o {
        Some(x) => x,
        None => Order::Equal,
    }
}

fn unwrap_or_equal(o: Option<Order>) -> (r: Order)
    ensures
        r == or_equal(o),
{
    match o {
        Some(x) => x,
        None => Order::Equal,
    }
}

/// How two values sort. NULL sorts first, values of different kinds sort by
/// kind, arrays and vectors by length and then item by item.
pub open spec fn sort_order(a: ValueModel, b: ValueModel) -> Order
    decreases a,
{
    match (a, b) {
        (ValueModel::Boolean(x), ValueModel::Boolean(y)) => bool_order(x, y),
        (ValueModel::Int2(x), ValueModel::Int2(y)) => text::int_order(x as int, y as int),
        (ValueModel::Int4(x), ValueModel::Int4(y)) => text::int_order(x as int, y as int),
        (ValueModel::Int8(x), ValueModel::Int8(y)) => text::int_order(x as int, y as int),
        (ValueModel::Float4(x), ValueModel::Float4(y)) => or_equal(float4_order(x, y)),
        (ValueModel::Float8(x), ValueModel::Float8(y)) => or_equal(float8_order(x, y)),
        (ValueModel::String(x), ValueModel::String(y)) => text::text_order(x, y),
        (ValueModel::Bytes(x), ValueModel::Bytes(y)) => text::bytes_order(x, y),
        (ValueModel::Uuid(x), ValueModel::Uuid(y)) => u128_order(x, y),
        (ValueModel::Timestamp(x), ValueModel::Timestamp(y)) => timestamp_order(x, y),
        (ValueModel::Date(x), ValueModel::Date(y)) => text::int_order(x as int, y as int),
        (ValueModel::Time(x), ValueModel::Time(y)) => time_order(x, y),
        (ValueModel::Interval(x), ValueModel::Interval(y)) => interval_order(x, y),
        (ValueModel::Numeric(x), ValueModel::Numeric(y)) => text::text_order(x, y),
        (ValueModel::Json(x), ValueModel::Json(y)) => text::text_order(x, y),
        (ValueModel::Array(x), ValueModel::Array(y)) => and_next(
            text::int_order(x.len() as int, y.len() as int),
            items_order(x, y),
        ),
        (ValueModel::Vector(x), ValueModel::Vector(y)) => and_next(
            text::int_order(x.len() as int, y.len() as int),
            floats_order(x, y),
        ),
        _ => text::int_order(type_priority(a), type_priority(b)),
    }
}

/// How two lists of values sort, item by item.
pub open spec fn items_order(a: Seq<ValueModel>, b: Seq<ValueModel>) -> Order
    decreases a,
{
    if a.len() == 0 || b.len() == 0 {
        Order::Equal
    } else {
        and_next(items_order(a.drop_last(), b.take(a.len() - 1)), if a.len() <= b.len() {
            sort_order(a.last(), b[a.len() - 1])
        } else {
            Order::Equal
        })
    }
}

/// How two lists of single-precision numbers sort, item by item.
pub open spec fn floats_order(a: Seq<u32>, b: Seq<u32>) -> Order
    decreases a.len(),
{
    if a.len() == 0 || b.len() == 0 {
        Order::Equal
    } else {
        and_next(or_equal(float4_order(a[0], b[0])), floats_order(a.drop_first(), b.drop_first()))
    }
}

fn compare_vectors(a: &Vec<u32>, b: &Vec<u32>) -> (r: Order)
    requires
        a.len() == b.len(),
    ensures
        r == floats_order(a@, b@),
{
    let mut i: usize = 0;
    assert(a@.skip(0) =~= a@);
    assert(b@.skip(0) =~= b@);
    while i < a.len()
        invariant
            a.len() == b.len(),
            i <= a.len(),
            floats_order(a@.skip(i as int), b@.skip(i as int)) == floats_order(a@, b@),
        decreases a.len() - i,
    {
        let o: Order = unwrap_or_equal(compare_float4(a[i], b[i]));
        assert(a@.skip(i as int)[0] == a@[i as int]);
        assert(b@.skip(i as int)[0] == b@[i as int]);
        assert(a@.skip(i as int).drop_first() =~= a@.skip(i + 1));
        assert(b@.skip(i as int).drop_first() =~= b@.skip(i + 1));
        match o {
            Order::Equal => {},
            _ => {
                return o;
            },
        }
        i = i + 1;
    }
    Order::Equal
}

proof fn lemma_items_order_prefix(a: Seq<ValueModel>, b: Seq<ValueModel>, n: int)
    requires
        0 <= n <= a.len(),
        a.len() == b.len(),
        items_order(a.take(n), b.take(n)) != Order::Equal,
    ensures
        items_order(a, b) == items_order(a.take(n), b.take(n)),
    decreases a.len(),
{
    if n == a.len() {
        assert(a.take(n) =~= a);
        assert(b.take(n) =~= b);
    } else {
        assert(a.drop_last().take(n) =~= a.take(n));
        assert(b.take(a.len() - 1).take(n) =~= b.take(n));
        lemma_items_order_prefix(a.drop_last(), b.take(a.len() - 1), n);
    }
}

/// Compares two values for sorting.
pub fn compare_values(a: &Value, b: &Value) -> (r: Order)
    ensures
        r == sort_order(a@, b@),
    decreases a,
{
    match (a, b) {
        (Value::Boolean(x), Value::Boolean(y)) => compare_bools(*x, *y),
        (Value::Int2(x), Value::Int2(y)) => text::compare_ints(*x as i128, *y as i128),
        (Value::Int4(x), Value::Int4(y)) => text::compare_ints(*x as i128, *y as i128),
        (Value::Int8(x), Value::Int8(y)) => text::compare_ints(*x as i128, *y as i128),
        (Value::Float4(x), Value::Float4(y)) => unwrap_or_equal(compare_float4(*x, *y)),
        (Value::Float8(x), Value::Float8(y)) => unwrap_or_equal(compare_float8(*x, *y)),
        (Value::String(x), Value::String(y)) => text::compare_text(x.as_str(), y.as_str()),
        (Value::Bytes(x), Value::Bytes(y)) => text::compare_bytes(x, y),
        (Value::Uuid(x), Value::Uuid(y)) => compare_u128(*x, *y),
        (Value::Timestamp(x), Value::Timestamp(y)) => compare_timestamps(*x, *y),
        (Value::Date(x), Value::Date(y)) => text::compare_ints(*x as i128, *y as i128),
        (Value::Time(x), Value::Time(y)) => compare_times(*x, *y),
        (Value::Interval(x), Value::Interval(y)) => compare_intervals(*x, *y),
        (Value::Numeric(x), Value::Numeric(y)) => text::compare_text(x.as_str(), y.as_str()),
        (Value::Json(x), Value::Json(y)) => text::compare_text(x.as_str(), y.as_str()),
        (Value::Array(x), Value::Array(y)) => {
            let ghost mx = value::values_model(x@);
            let ghost my = value::values_model(y@);
            proof {
                value::lemma_values_model(x@);
                value::lemma_values_model(y@);
            }
            if x.len() < y.len() {
                return Order::Less;
            }
            if x.len() > y.len() {
                return Order::Greater;
            }
            let mut i: usize = 0;
            assert(items_order(mx.take(0), my.take(0)) == Order::Equal);
            while i < x.len()
                invariant
                    *a is Array,
                    *b is Array,
                    x == a->Array_0,
                    y == b->Array_0,
                    a@ == ValueModel::Array(mx),
                    b@ == ValueModel::Array(my),
                    mx.len() == x.len(),
                    my.len() == y.len(),
                    forall|j: int| 0 <= j < x.len() ==> #[trigger] mx[j] == x@[j]@,
                    forall|j: int| 0 <= j < y.len() ==> #[trigger] my[j] == y@[j]@,
                    x.len() == y.len(),
                    i <= x.len(),
                    items_order(mx.take(i as int), my.take(i as int)) == Order::Equal,
                decreases x.len() - i,
            {
                let o: Order = compare_values(&x[i], &y[i]);
                let ghost p = mx.take(i + 1);
                let ghost q = my.take(i + 1);
                assert(p.drop_last() =~= mx.take(i as int));
                assert(q.take(p.len() - 1) =~= my.take(i as int));
                assert(p.last() == mx[i as int]);
                assert(q[p.len() - 1] == my[i as int]);
                assert(items_order(p, q) == o);
                match o {
                    Order::Equal => {},
                    _ => {
                        proof {
                            lemma_items_order_prefix(mx, my, i + 1);
                        }
                        return o;
                    },
                }
                i = i + 1;
            }
            assert(mx.take(i as int) =~= mx);
            assert(my.take(i as int) =~= my);
            Order::Equal
        },
        (Value::Vector(x), Value::Vector(y)) => {
            if x.len() < y.len() {
                Order::Less
            } else if x.len() > y.len() {
                Order::Greater
            } else {
                compare_vectors(x, y)
            }
        },
        _ => text::compare_ints(priority(a), priority(b)),
    }
}

proof fn lemma_floats_flip(a: Seq<u32>, b: Seq<u32>)
    ensures
        floats_order(b, a) == text::flip(floats_order(a, b)),
    decreases a.len(),
{
    if a.len() != 0 && b.len() != 0 {
        lemma_floats_flip(a.drop_first(), b.drop_first());
    }
}

proof fn lemma_items_flip(a: Seq<ValueModel>, b: Seq<ValueModel>)
    requires
        a.len() == b.len(),
    ensures
        items_order(b, a) == text::flip(items_order(a, b)),
    decreases a,
{
    if a.len() != 0 {
        assert(b.take(a.len() - 1) =~= b.drop_last());
        assert(a.take(b.len() - 1) =~= a.drop_last());
        lemma_items_flip(a.drop_last(), b.drop_last());
        law_sort_order_is_antisymmetric(a.last(), b.last());
    }
}

/// Sorting two values the other way round gives the opposite answer.
pub proof fn law_sort_order_is_antisymmetric(a: ValueModel, b: ValueModel)
    ensures
        sort_order(b, a) == text::flip(sort_order(a, b)),
    decreases a,
{
    match (a, b) {
        (ValueModel::String(x), ValueModel::String(y)) => {
            text::lemma_lex_flip(text::codes(x), text::codes(y));
        },
        (ValueModel::Numeric(x), ValueModel::Numeric(y)) => {
            text::lemma_lex_flip(text::codes(x), text::codes(y));
        },
        (ValueModel::Json(x), ValueModel::Json(y)) => {
            text::lemma_lex_flip(text::codes(x), text::codes(y));
        },
        (ValueModel::Bytes(x), ValueModel::Bytes(y)) => {
            text::lemma_lex_flip(text::octets(x), text::octets(y));
        },
        (ValueModel::Vector(x), ValueModel::Vector(y)) => {
            lemma_floats_flip(x, y);
        },
        (ValueModel::Array(x), ValueModel::Array(y)) => {
            if x.len() == y.len() {
                lemma_items_flip(x, y);
            }
        },
        _ => {},
    }
}

proof fn lemma_items_equal(a: Seq<ValueModel>)
    ensures
        items_order(a, a) == Order::Equal,
    decreases a,
{
    if a.len() != 0 {
        assert(a.take(a.len() - 1) =~= a.drop_last());
        lemma_items_equal(a.drop_last());
        law_sort_order_is_reflexive(a.last());
    }
}

proof fn lemma_floats_equal(a: Seq<u32>)
    ensures
        floats_order(a, a) == Order::Equal,
    decreases a.len(),
{
    if a.len() != 0 {
        lemma_floats_equal(a.drop_first());
    }
}

/// A value sorts equal to itself.
pub proof fn law_sort_order_is_reflexive(a: ValueModel)
    ensures
        sort_order(a, a) == Order::Equal,
    decreases a,
{
    match a {
        ValueModel::String(x) => text::lemma_lex_equal(text::codes(x), text::codes(x)),
        ValueModel::Numeric(x) => text::lemma_lex_equal(text::codes(x), text::codes(x)),
        ValueModel::Json(x) => text::lemma_lex_equal(text::codes(x), text::codes(x)),
        ValueModel::Bytes(x) => text::lemma_lex_equal(text::octets(x), text::octets(x)),
        ValueModel::Vector(x) => lemma_floats_equal(x),
        ValueModel::Array(x) => lemma_items_equal(x),
        _ => {},
    }
}

/// A value that holds no NaN, at any depth.
pub open spec fn nan_free(v: ValueModel) -> bool
    decreases v,
{
    match v {
        ValueModel::Float4(b) => !float4_is_nan(b),
        ValueModel::Float8(b) => !float8_is_nan(b),
        ValueModel::Vector(xs) => forall|i: int| 0 <= i < xs.len() ==> !float4_is_nan(#[trigger] xs[i]),
        ValueModel::Array(items) => forall|i: int|
            0 <= i < items.len() ==> nan_free(#[trigger] items[i]),
        _ => true,
    }
}

proof fn lemma_floats_transitive(a: Seq<u32>, b: Seq<u32>, c: Seq<u32>)
    requires
        a.len() == b.len(),
        b.len() == c.len(),
        forall|i: int| 0 <= i < a.len() ==> !float4_is_nan(#[trigger] a[i]),
        forall|i: int| 0 <= i < b.len() ==> !float4_is_nan(#[trigger] b[i]),
        forall|i: int| 0 <= i < c.len() ==> !float4_is_nan(#[trigger] c[i]),
        floats_order(a, b) != Order::Greater,
        floats_order(b, c) != Order::Greater,
    ensures
        floats_order(a, c) != Order::Greater,
        floats_order(a, c) == Order::Equal ==> floats_order(a, b) == Order::Equal && floats_order(
            b,
            c,
        ) == Order::Equal,
    decreases a.len(),
{
    if a.len() != 0 {
        assert(!float4_is_nan(a[0]) && !float4_is_nan(b[0]) && !float4_is_nan(c[0]));
        if floats_order(a.drop_first(), b.drop_first()) != Order::Greater && floats_order(
            b.drop_first(),
            c.drop_first(),
        ) != Order::Greater {
            lemma_floats_transitive(a.drop_first(), b.drop_first(), c.drop_first());
        }
    }
}

proof fn lemma_items_transitive(a: Seq<ValueModel>, b: Seq<ValueModel>, c: Seq<ValueModel>)
    requires
        a.len() == b.len(),
        b.len() == c.len(),
        forall|i: int| 0 <= i < a.len() ==> nan_free(#[trigger] a[i]),
        forall|i: int| 0 <= i < b.len() ==> nan_free(#[trigger] b[i]),
        forall|i: int| 0 <= i < c.len() ==> nan_free(#[trigger] c[i]),
        items_order(a, b) != Order::Greater,
        items_order(b, c) != Order::Greater,
    ensures
        items_order(a, c) != Order::Greater,
        items_order(a, c) == Order::Equal ==> items_order(a, b) == Order::Equal && items_order(b, c)
            == Order::Equal,
    decreases a,
{
    if a.len() != 0 {
        let n = a.len() - 1;
        assert(b.take(n) =~= b.drop_last());
        assert(c.take(n) =~= c.drop_last());
        lemma_items_transitive(a.drop_last(), b.drop_last(), c.drop_last());
        assert(nan_free(a[n]) && nan_free(b[n]) && nan_free(c[n]));
        if items_order(a.drop_last(), b.drop_last()) == Order::Equal && items_order(
            b.drop_last(),
            c.drop_last(),
        ) == Order::Equal {
            law_sort_order_is_transitive(a.last(), b.last(), c.last());
        }
    }
}

proof fn lemma_kinds_sort_by_priority(a: ValueModel, b: ValueModel)
    ensures
        type_priority(a) != type_priority(b) ==> sort_order(a, b) == text::int_order(
            type_priority(a),
            type_priority(b),
        ),
{
}

/// Values without a NaN are sorted by a total order: what sorts no later than
/// something that sorts no later than a third sorts no later than the third.
#[verifier::spinoff_prover]
#[verifier::rlimit(60)]
pub proof fn law_sort_order_is_transitive(a: ValueModel, b: ValueModel, c: ValueModel)
    requires
        nan_free(a),
        nan_free(b),
        nan_free(c),
        sort_order(a, b) != Order::Greater,
        sort_order(b, c) != Order::Greater,
    ensures
        sort_order(a, c) != Order::Greater,
        sort_order(a, c) == Order::Equal ==> sort_order(a, b) == Order::Equal && sort_order(b, c)
            == Order::Equal,
    decreases a,
{
    if type_priority(a) != type_priority(b) || type_priority(b) != type_priority(c) {
        lemma_kinds_sort_by_priority(a, b);
        lemma_kinds_sort_by_priority(b, c);
        lemma_kinds_sort_by_priority(a, c);
    } else {
        match a {
            ValueModel::String(x) => {
                text::lemma_lex_transitive(
                    text::codes(x),
                    text::codes(b->String_0),
                    text::codes(c->String_0),
                );
            },
            ValueModel::Numeric(x) => {
                text::lemma_lex_transitive(
                    text::codes(x),
                    text::codes(b->Numeric_0),
                    text::codes(c->Numeric_0),
                );
            },
            ValueModel::Json(x) => {
                text::lemma_lex_transitive(
                    text::codes(x),
                    text::codes(b->Json_0),
                    text::codes(c->Json_0),
                );
            },
            ValueModel::Bytes(x) => {
                text::lemma_lex_transitive(
                    text::octets(x),
                    text::octets(b->Bytes_0),
                    text::octets(c->Bytes_0),
                );
            },
            ValueModel::Vector(x) => {
                let (y, z) = (b->Vector_0, c->Vector_0);
                if x.len() == y.len() && y.len() == z.len() {
                    lemma_floats_transitive(x, y, z);
                }
            },
            ValueModel::Array(x) => {
                let (y, z) = (b->Array_0, c->Array_0);
                if x.len() == y.len() && y.len() == z.len() {
                    lemma_items_transitive(x, y, z);
                }
            },
            _ => {},
        }
    }
}

/// NULL sorts before everything else.
pub proof fn law_null_sorts_first(v: ValueModel)
    ensures
        sort_order(ValueModel::Null, v) == (if v is Null {
            Order::Equal
        } else {
            Order::Less
        }),
{
}

/// Comparing two values the other way round gives the opposite answer, and no
/// answer exactly when there was none.
pub proof fn law_direct_order_is_antisymmetric(a: ValueModel, b: ValueModel)
    ensures
        direct_order(b, a) == (match direct_order(a, b) {
            Some(o) => Some(text::flip(o)),
            None => None,
        }),
{
    match (a, b) {
        (ValueModel::String(x), ValueModel::String(y)) => {
            text::lemma_lex_flip(text::codes(x), text::codes(y));
        },
        _ => {},
    }
}

} // verus!
