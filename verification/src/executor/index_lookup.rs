//! Index lookups: the point or the range of an index that a predicate asks for.

use crate::compare;
use crate::float_bits;
use crate::logical_plan::{BinaryOperator, ExprModel, LogicalExpr};
use crate::parsing;
use crate::schema;
use crate::schema::{ColumnModel, Schema};
use crate::text;
use crate::text::Order;
use crate::value;
use crate::value::{DataType, TimeOfDay, Timestamp, Value, ValueModel};
use vstd::prelude::*;
use vstd::string::*;

verus! {

/// An index on one column.
pub struct ColumnIndex {
    pub table: String,
    pub column: String,
    pub name: String,
}

pub struct IndexModel {
    pub table: Seq<char>,
    pub column: Seq<char>,
    pub name: Seq<char>,
}

impl View for ColumnIndex {
    type V = IndexModel;

    open spec fn view(&self) -> IndexModel {
        IndexModel { table: self.table@, column: self.column@, name: self.name@ }
    }
}

pub open spec fn indexes_model(s: Seq<ColumnIndex>) -> Seq<IndexModel> {
    Seq::new(s.len(), |i: int| s[i]@)
}

/// The name of the first index from `from` on that is on a column of a table.
pub open spec fn index_on(
    s: Seq<IndexModel>,
    table: Seq<char>,
    column: Seq<char>,
    from: int,
) -> Option<Seq<char>>
    decreases s.len() - from,
{
    if from < 0 || from >= s.len() {
        None
    } else if s[from].table == table && s[from].column == column {
        Some(s[from].name)
    } else {
        index_on(s, table, column, from + 1)
    }
}

/// Finds the index on a column of a table.
pub fn find_column_index(indexes: &Vec<ColumnIndex>, table: &str, column: &str) -> (r: Option<String>)
    ensures
        schema::opt_text(r) == index_on(indexes_model(indexes@), table@, column@, 0),
{
    let ghost all = indexes_model(indexes@);
    let mut i: usize = 0;
    while i < indexes.len()
        invariant
            all == indexes_model(indexes@),
            i <= indexes.len(),
            index_on(all, table@, column@, 0) == index_on(all, table@, column@, i as int),
        decreases indexes.len() - i,
    {
        assert(all[i as int] == indexes@[i as int]@);
        if text::same_text(indexes[i].table.as_str(), table) && text::same_text(
            indexes[i].column.as_str(),
            column,
        ) {
            return Some(indexes[i].name.clone());
        }
        i = i + 1;
    }
    None
}

/// The constant that an expression is: a literal or a parameter, under casts.
pub open spec fn constant(e: ExprModel, params: Seq<ValueModel>) -> Option<ValueModel>
    decreases e,
{
    match e {
        ExprModel::Literal(v) => Some(v),
        ExprModel::Parameter { index } => if 0 < index <= params.len() {
            Some(params[index - 1])
        } else {
            None
        },
        ExprModel::Cast { expr, data_type } => constant(*expr, params),
        _ => None,
    }
}

/// The constant that an expression is.
pub fn lookup_bound_value(expr: &LogicalExpr, parameters: &Vec<Value>) -> (r: Option<Value>)
    ensures
        value::opt_value_model(r) == constant(expr@, value::values_model(parameters@)),
    decreases expr,
{
    match expr {
        LogicalExpr::Literal(v) => Some(v.clone()),
        LogicalExpr::Parameter { index } => {
            proof {
                value::lemma_values_model(parameters@);
            }
            if *index > 0 && *index <= parameters.len() {
                Some(parameters[*index - 1].clone())
            } else {
                None
            }
        },
        LogicalExpr::Cast { expr: inner, data_type } => lookup_bound_value(inner, parameters),
        _ => None,
    }
}

/// What a text spells, as far as a column type asks for it.
pub struct Spelled {
    pub uuid: Option<u128>,
    pub day: Option<i32>,
    pub moment: Option<Timestamp>,
    pub time: Option<TimeOfDay>,
}

/// The time that a text spells: as RFC 3339, as a date and a time of day, or as
/// a date alone, whose midnight it then is.
pub open spec fn moment_of(
    rfc3339: Option<Timestamp>,
    date_time: Option<Timestamp>,
    date: Option<i32>,
) -> Option<Timestamp> {
    match rfc3339 {
        Some(t) => Some(t),
        None => match date_time {
            Some(t) => Some(t),
            None => match date {
                Some(d) => Some(parsing::midnight_of(d)),
                None => None,
            },
        },
    }
}

pub open spec fn timestamp_spelled(s: Seq<char>) -> Option<Timestamp> {
    moment_of(
        parsing::rfc3339_spelled(s),
        parsing::moment_spelled(s, "%Y-%m-%d %H:%M:%S%.f"@),
        parsing::date_spelled(s, "%Y-%m-%d"@),
    )
}

/// The day that a text spells: as a date, or as a time that falls on it.
pub open spec fn day_from(date: Option<i32>, moment: Option<Timestamp>) -> Option<i32> {
    match date {
        Some(d) => Some(d),
        None => match moment {
            Some(t) => parsing::day_of(t),
            None => None,
        },
    }
}

pub open spec fn day_spelled(s: Seq<char>) -> Option<i32> {
    day_from(parsing::date_spelled(s, "%Y-%m-%d"@), timestamp_spelled(s))
}

pub open spec fn all_spelled(s: Seq<char>) -> Spelled {
    Spelled {
        uuid: parsing::uuid_spelled(s),
        day: day_spelled(s),
        moment: timestamp_spelled(s),
        time: parsing::time_spelled(s, "%H:%M:%S%.f"@),
    }
}

/// Decides the time that a text spells from the ways in which it was read.
pub fn moment_from(
    rfc3339: Option<Timestamp>,
    date_time: Option<Timestamp>,
    date: Option<i32>,
) -> (r: Option<Timestamp>)
    ensures
        r == moment_of(rfc3339, date_time, date),
{
    match rfc3339 {
        Some(t) => Some(t),
        None => match date_time {
            Some(t) => Some(t),
            None => match date {
                Some(d) => Some(parsing::day_midnight(d)),
                None => None,
            },
        },
    }
}

/// The time that a text spells.
pub fn parse_timestamp_for_index(s: &str) -> (r: Option<Timestamp>)
    ensures
        r == timestamp_spelled(s@),
{
    moment_from(
        parsing::parse_rfc3339(s),
        parsing::parse_moment(s, "%Y-%m-%d %H:%M:%S%.f"),
        parsing::parse_date(s, "%Y-%m-%d"),
    )
}

/// Decides the day that a text spells from the ways in which it was read.
pub fn day_given(date: Option<i32>, moment: Option<Timestamp>) -> (r: Option<i32>)
    ensures
        r == day_from(date, moment),
{
    match date {
        Some(d) => Some(d),
        None => match moment {
            Some(t) => parsing::timestamp_day(t),
            None => None,
        },
    }
}

/// The day that a text spells.
pub fn parse_date_for_index(s: &str) -> (r: Option<i32>)
    ensures
        r == day_spelled(s@),
{
    day_given(parsing::parse_date(s, "%Y-%m-%d"), parse_timestamp_for_index(s))
}

/// The whole number that a value is or spells.
pub open spec fn whole_number(v: ValueModel) -> Option<i64> {
    match v {
        ValueModel::String(s) => text::spelled_i64(s),
        _ => compare::int_value(v),
    }
}

/// The whole number that a value is or spells.
pub fn value_to_i64(v: &Value) -> (r: Option<i64>)
    ensures
        r == whole_number(v@),
{
    match v {
        Value::String(s) => text::parse_i64(s.as_str()),
        _ => compare::value_int(v),
    }
}

/// The texts that stand for true; every other text stands for false.
pub open spec fn spells_true(s: Seq<char>) -> bool {
    s == "1"@ || s == "true"@ || s == "TRUE"@ || s == "t"@ || s == "yes"@
}

/// The single-precision number that a predicate compares a number as with numbers
/// of single precision.
pub open spec fn float4_given(v: ValueModel) -> Option<u32> {
    match v {
        ValueModel::Float4(b) => Some(b),
        _ => match compare::int_value(v) {
            Some(n) => Some(float_bits::float4_of_int(n)),
            None => None,
        },
    }
}

/// The double-precision number that a predicate compares a number as with numbers
/// of double precision.
pub open spec fn float8_given(v: ValueModel) -> Option<u64> {
    match v {
        ValueModel::Float8(b) => Some(b),
        ValueModel::Float4(b) => Some(float_bits::float8_of_float4(b)),
        _ => match compare::int_value(v) {
            Some(n) => Some(float_bits::float8_of_int(n)),
            None => None,
        },
    }
}

fn find_float4(v: &Value) -> (r: Option<u32>)
    ensures
        r == float4_given(v@),
{
    match v {
        Value::Float4(b) => Some(*b),
        _ => match compare::value_int(v) {
            Some(n) => Some(float_bits::int_to_float4(n)),
            None => None,
        },
    }
}

fn find_float8(v: &Value) -> (r: Option<u64>)
    ensures
        r == float8_given(v@),
{
    match v {
        Value::Float8(b) => Some(*b),
        Value::Float4(b) => Some(float_bits::float4_to_float8(*b)),
        _ => match compare::value_int(v) {
            Some(n) => Some(float_bits::int_to_float8(n)),
            None => None,
        },
    }
}

/// A value as an index on a column of some type holds it; `None` where it
/// cannot be looked up there. A float column is looked up by the number that a
/// predicate compares its values with; a double-precision number would have to be
/// rounded for a column of single precision, and a text read as a number.
pub open spec fn coerced(v: ValueModel, data_type: DataType, spelled: Spelled) -> Option<ValueModel> {
    if v == ValueModel::Null {
        Some(ValueModel::Null)
    } else {
        match data_type {
            DataType::Int2 => match whole_number(v) {
                Some(n) => if i16::MIN <= n <= i16::MAX {
                    Some(ValueModel::Int2(n as i16))
                } else {
                    None
                },
                None => None,
            },
            DataType::Int4 => match whole_number(v) {
                Some(n) => if i32::MIN <= n <= i32::MAX {
                    Some(ValueModel::Int4(n as i32))
                } else {
                    None
                },
                None => None,
            },
            DataType::Int8 => match whole_number(v) {
                Some(n) => Some(ValueModel::Int8(n)),
                None => None,
            },
            DataType::Float4 => match float4_given(v) {
                Some(b) => Some(ValueModel::Float4(b)),
                None => None,
            },
            DataType::Float8 => match float8_given(v) {
                Some(b) => Some(ValueModel::Float8(b)),
                None => None,
            },
            DataType::Text => if v is String {
                Some(v)
            } else {
                None
            },
            DataType::Varchar(_) => if v is String {
                Some(v)
            } else {
                None
            },
            DataType::Char(_) => if v is String {
                Some(v)
            } else {
                None
            },
            DataType::Boolean => match v {
                ValueModel::Boolean(_) => Some(v),
                ValueModel::String(s) => Some(ValueModel::Boolean(spells_true(s))),
                _ => None,
            },
            DataType::Uuid => match v {
                ValueModel::Uuid(_) => Some(v),
                ValueModel::String(_) => match spelled.uuid {
                    Some(u) => Some(ValueModel::Uuid(u)),
                    None => None,
                },
                _ => None,
            },
            DataType::Date => match v {
                ValueModel::Date(_) => Some(v),
                ValueModel::Timestamp(t) => match parsing::day_of(t) {
                    Some(d) => Some(ValueModel::Date(d)),
                    None => None,
                },
                ValueModel::String(_) => match spelled.day {
                    Some(d) => Some(ValueModel::Date(d)),
                    None => None,
                },
                _ => None,
            },
            DataType::Timestamp => coerced_moment(v, spelled),
            DataType::Timestamptz => coerced_moment(v, spelled),
            DataType::Time => match v {
                ValueModel::Time(_) => Some(v),
                ValueModel::String(_) => match spelled.time {
                    Some(t) => Some(ValueModel::Time(t)),
                    None => None,
                },
                _ => None,
            },
            DataType::Bytea => if v is Bytes {
                Some(v)
            } else {
                None
            },
            DataType::Interval => if v is Interval {
                Some(v)
            } else {
                None
            },
            DataType::Numeric => if v is Numeric {
                Some(v)
            } else {
                None
            },
            DataType::Json => if v is Json {
                Some(v)
            } else {
                None
            },
            DataType::Jsonb => if v is Json {
                Some(v)
            } else {
                None
            },
            DataType::Vector(_) => if v is Vector {
                Some(v)
            } else {
                None
            },
            DataType::Array(_) => if v is Array {
                Some(v)
            } else {
                None
            },
        }
    }
}

pub open spec fn coerced_moment(v: ValueModel, spelled: Spelled) -> Option<ValueModel> {
    match v {
        ValueModel::Timestamp(_) => Some(v),
        ValueModel::Date(d) => Some(ValueModel::Timestamp(parsing::midnight_of(d))),
        ValueModel::String(_) => match spelled.moment {
            Some(t) => Some(ValueModel::Timestamp(t)),
            None => None,
        },
        _ => None,
    }
}

/// What a value spells where it is a text.
pub open spec fn spelled_by(v: ValueModel) -> Spelled {
    match v {
        ValueModel::String(s) => all_spelled(s),
        _ => Spelled { uuid: None, day: None, moment: None, time: None },
    }
}

fn is_true_text(s: &str) -> (r: bool)
    ensures
        r == spells_true(s@),
{
    text::same_text(s, "1") || text::same_text(s, "true") || text::same_text(s, "TRUE")
        || text::same_text(s, "t") || text::same_text(s, "yes")
}

fn moment_value(v: &Value, spelled: &Spelled) -> (r: Option<Value>)
    ensures
        value::opt_value_model(r) == coerced_moment(v@, *spelled),
{
    match v {
        Value::Timestamp(_) => Some(v.clone()),
        Value::Date(d) => Some(Value::Timestamp(parsing::day_midnight(*d))),
        Value::String(_) => match spelled.moment {
            Some(t) => Some(Value::Timestamp(t)),
            None => None,
        },
        _ => None,
    }
}

/// A value as an index on a column of some type holds it, given what the value
/// spells where it is a text.
pub fn coerce_spelled(v: &Value, data_type: &DataType, spelled: &Spelled) -> (r: Option<Value>)
    ensures
        value::opt_value_model(r) == coerced(v@, *data_type, *spelled),
{
    if let Value::Null = v {
        return Some(Value::Null);
    }
    match data_type {
        DataType::Int2 => match value_to_i64(v) {
            Some(n) => if -32768 <= n && n <= 32767 {
                Some(Value::Int2(n as i16))
            } else {
                None
            },
            None => None,
        },
        DataType::Int4 => match value_to_i64(v) {
            Some(n) => if -2147483648 <= n && n <= 2147483647 {
                Some(Value::Int4(n as i32))
            } else {
                None
            },
            None => None,
        },
        DataType::Int8 => match value_to_i64(v) {
            Some(n) => Some(Value::Int8(n)),
            None => None,
        },
        DataType::Float4 => match find_float4(v) {
            Some(b) => Some(Value::Float4(b)),
            None => None,
        },
        DataType::Float8 => match find_float8(v) {
            Some(b) => Some(Value::Float8(b)),
            None => None,
        },
        DataType::Text | DataType::Varchar(_) | DataType::Char(_) => match v {
            Value::String(_) => Some(v.clone()),
            _ => None,
        },
        DataType::Boolean => match v {
            Value::Boolean(_) => Some(v.clone()),
            Value::String(s) => Some(Value::Boolean(is_true_text(s.as_str()))),
            _ => None,
        },
        DataType::Uuid => match v {
            Value::Uuid(_) => Some(v.clone()),
            Value::String(_) => match spelled.uuid {
                Some(u) => Some(Value::Uuid(u)),
                None => None,
            },
            _ => None,
        },
        DataType::Date => match v {
            Value::Date(_) => Some(v.clone()),
            Value::Timestamp(t) => match parsing::timestamp_day(*t) {
                Some(d) => Some(Value::Date(d)),
                None => None,
            },
            Value::String(_) => match spelled.day {
                Some(d) => Some(Value::Date(d)),
                None => None,
            },
            _ => None,
        },
        DataType::Timestamp | DataType::Timestamptz => moment_value(v, spelled),
        DataType::Time => match v {
            Value::Time(_) => Some(v.clone()),
            Value::String(_) => match spelled.time {
                Some(t) => Some(Value::Time(t)),
                None => None,
            },
            _ => None,
        },
        DataType::Bytea => match v {
            Value::Bytes(_) => Some(v.clone()),
            _ => None,
        },
        DataType::Interval => match v {
            Value::Interval(_) => Some(v.clone()),
            _ => None,
        },
        DataType::Numeric => match v {
            Value::Numeric(_) => Some(v.clone()),
            _ => None,
        },
        DataType::Json | DataType::Jsonb => match v {
            Value::Json(_) => Some(v.clone()),
            _ => None,
        },
        DataType::Vector(_) => match v {
            Value::Vector(_) => Some(v.clone()),
            _ => None,
        },
        DataType::Array(_) => match v {
            Value::Array(_) => Some(v.clone()),
            _ => None,
        },
    }
}

/// A value as an index on a column of some type holds it.
pub fn coerce_index_lookup_value(v: &Value, data_type: &DataType) -> (r: Option<Value>)
    ensures
        value::opt_value_model(r) == coerced(v@, *data_type, spelled_by(v@)),
{
    let mut spelled: Spelled = Spelled { uuid: None, day: None, moment: None, time: None };
    if let Value::String(s) = v {
        match data_type {
            DataType::Uuid => {
                spelled.uuid = parsing::parse_uuid(s.as_str());
            },
            DataType::Date => {
                spelled.day = parse_date_for_index(s.as_str());
            },
            DataType::Timestamp | DataType::Timestamptz => {
                spelled.moment = parse_timestamp_for_index(s.as_str());
            },
            DataType::Time => {
                spelled.time = parsing::parse_time(s.as_str(), "%H:%M:%S%.f");
            },
            _ => {},
        }
    }
    coerce_spelled(v, data_type, &spelled)
}

/// A literal as its column's type asks for it: a text that spells a UUID, a
/// date or a time becomes one where the column holds such, and all else stays.
pub open spec fn literal_as(
    v: ValueModel,
    data_type: DataType,
    uuid: Option<u128>,
    day: Option<i32>,
    moment: Option<Timestamp>,
) -> ValueModel {
    if v is String {
        match data_type {
            DataType::Uuid => match uuid {
                Some(u) => ValueModel::Uuid(u),
                None => v,
            },
            DataType::Date => match day {
                Some(d) => ValueModel::Date(d),
                None => v,
            },
            DataType::Timestamp => match moment {
                Some(t) => ValueModel::Timestamp(t),
                None => v,
            },
            _ => v,
        }
    } else {
        v
    }
}

/// A literal as its column's type asks for it, given what it spells.
pub fn literal_given(
    v: Value,
    data_type: &DataType,
    uuid: Option<u128>,
    day: Option<i32>,
    moment: Option<Timestamp>,
) -> (r: Value)
    ensures
        r@ == literal_as(v@, *data_type, uuid, day, moment),
{
    if let Value::String(_) = &v {
        match data_type {
            DataType::Uuid => match uuid {
                Some(u) => Value::Uuid(u),
                None => v,
            },
            DataType::Date => match day {
                Some(d) => Value::Date(d),
                None => v,
            },
            DataType::Timestamp => match moment {
                Some(t) => Value::Timestamp(t),
                None => v,
            },
            _ => v,
        }
    } else {
        v
    }
}

/// A literal as its column's type asks for it, with what it spells.
pub open spec fn literal_for(v: ValueModel, data_type: DataType) -> ValueModel {
    match v {
        ValueModel::String(s) => literal_as(
            v,
            data_type,
            parsing::uuid_spelled(s),
            parsing::date_spelled_plainly(s),
            parsing::rfc3339_spelled(s),
        ),
        _ => v,
    }
}

/// A literal as its column's type asks for it.
pub fn coerce_literal_to_column_type(v: Value, col_type: &DataType) -> (r: Value)
    ensures
        r@ == literal_for(v@, *col_type),
{
    let mut uuid: Option<u128> = None;
    let mut day: Option<i32> = None;
    let mut moment: Option<Timestamp> = None;
    if let Value::String(s) = &v {
        match col_type {
            DataType::Uuid => {
                uuid = parsing::parse_uuid(s.as_str());
            },
            DataType::Date => {
                day = parsing::parse_date_plainly(s.as_str());
            },
            DataType::Timestamp => {
                moment = parsing::parse_rfc3339(s.as_str());
            },
            _ => {},
        }
    }
    literal_given(v, col_type, uuid, day, moment)
}

/// The column types whose index keys are ordered as their values are.
pub open spec fn ordered_type(t: DataType) -> bool {
    match t {
        DataType::Int2 => true,
        DataType::Int4 => true,
        DataType::Int8 => true,
        DataType::Float4 => true,
        DataType::Float8 => true,
        DataType::Text => true,
        DataType::Varchar(_) => true,
        DataType::Char(_) => true,
        _ => false,
    }
}

/// Whether ranges of a column of some type can be read off an index.
pub fn range_scannable_type(t: &DataType) -> (r: bool)
    ensures
        r == ordered_type(*t),
{
    match t {
        DataType::Int2 => true,
        DataType::Int4 => true,
        DataType::Int8 => true,
        DataType::Float4 => true,
        DataType::Float8 => true,
        DataType::Text => true,
        DataType::Varchar(_) => true,
        DataType::Char(_) => true,
        _ => false,
    }
}

/// Where a float stands among all floats by its sign and magnitude: the bits of
/// a negative one turned round, and those of a positive one behind them.
pub open spec fn float4_key(bits: u32) -> int {
    if bits >= 0x8000_0000 {
        0xFFFF_FFFF - bits
    } else {
        bits + 0x8000_0000
    }
}

pub open spec fn float8_key(bits: u64) -> int {
    if bits >= 0x8000_0000_0000_0000 {
        0xFFFF_FFFF_FFFF_FFFF - bits
    } else {
        bits + 0x8000_0000_0000_0000
    }
}

/// Which kind of key an index holds for a value. An index holds one kind.
pub open spec fn key_kind(v: ValueModel) -> int {
    match v {
        ValueModel::Int2(_) => 0,
        ValueModel::Int4(_) => 0,
        ValueModel::Int8(_) => 0,
        ValueModel::Float4(_) => 1,
        ValueModel::Float8(_) => 2,
        ValueModel::String(_) => 3,
        _ => 4,
    }
}

/// Where a value stands among those of its kind.
pub open spec fn key_place(v: ValueModel) -> Seq<int> {
    match v {
        ValueModel::Int2(n) => seq![n as int],
        ValueModel::Int4(n) => seq![n as int],
        ValueModel::Int8(n) => seq![n as int],
        ValueModel::Float4(b) => seq![float4_key(b)],
        ValueModel::Float8(b) => seq![float8_key(b)],
        ValueModel::String(s) => text::codes(s),
        _ => Seq::empty(),
    }
}

/// The key by which an index orders a value.
pub open spec fn order_key(v: ValueModel) -> Seq<int> {
    seq![key_kind(v)] + key_place(v)
}

/// How an index orders two values of its column.
pub open spec fn key_order(a: ValueModel, b: ValueModel) -> Order {
    text::lex_order(order_key(a), order_key(b))
}

fn kind_of_key(v: &Value) -> (r: i128)
    ensures
        r == key_kind(v@),
{
    match v {
        Value::Int2(_) => 0,
        Value::Int4(_) => 0,
        Value::Int8(_) => 0,
        Value::Float4(_) => 1,
        Value::Float8(_) => 2,
        Value::String(_) => 3,
        _ => 4,
    }
}

fn number_of_key(v: &Value) -> (r: i128)
    requires
        key_kind(v@) < 3,
    ensures
        key_place(v@) == seq![r as int],
{
    match v {
        Value::Int2(n) => *n as i128,
        Value::Int4(n) => *n as i128,
        Value::Int8(n) => *n as i128,
        Value::Float4(b) => {
            let n: i128 = *b as i128;
            if n >= 0x8000_0000 {
                0xFFFF_FFFF - n
            } else {
                n + 0x8000_0000
            }
        },
        Value::Float8(b) => {
            let n: i128 = *b as i128;
            if n >= 0x8000_0000_0000_0000 {
                0xFFFF_FFFF_FFFF_FFFF - n
            } else {
                n + 0x8000_0000_0000_0000
            }
        },
        _ => 0,
    }
}

proof fn lemma_key_order(a: ValueModel, b: ValueModel)
    ensures
        key_order(a, b) == if key_kind(a) != key_kind(b) {
            text::int_order(key_kind(a), key_kind(b))
        } else {
            text::lex_order(key_place(a), key_place(b))
        },
{
    assert(order_key(a).drop_first() =~= key_place(a));
    assert(order_key(b).drop_first() =~= key_place(b));
}

/// How an index orders two values of its column.
pub fn compare_keys(a: &Value, b: &Value) -> (r: Order)
    ensures
        r == key_order(a@, b@),
{
    proof {
        lemma_key_order(a@, b@);
        reveal_with_fuel(text::lex_order, 2);
    }
    let x: i128 = kind_of_key(a);
    let y: i128 = kind_of_key(b);
    if x != y {
        return text::compare_ints(x, y);
    }
    if x < 3 {
        let m: i128 = number_of_key(a);
        let n: i128 = number_of_key(b);
        return text::compare_ints(m, n);
    }
    match (a, b) {
        (Value::String(s), Value::String(t)) => text::compare_text(s.as_str(), t.as_str()),
        _ => Order::Equal,
    }
}

/// One side of a range: a value, and whether it belongs to the range.
pub type Bound = (ValueModel, bool);

/// What one term of a predicate asks of a column.
#[verifier::ext_equal]
pub struct Asked {
    pub column: Seq<char>,
    pub is_lower: bool,
    pub bound: Bound,
}

/// The column that an expression is.
pub open spec fn column_of(e: ExprModel, cols: Seq<ColumnModel>) -> Option<usize> {
    match e {
        ExprModel::Column { table, name } => schema::qualified_or_bare_index(cols, table, name),
        _ => None,
    }
}

/// A comparison with its operands swapped.
pub open spec fn swapped(op: BinaryOperator) -> BinaryOperator {
    match op {
        BinaryOperator::Lt => BinaryOperator::Gt,
        BinaryOperator::LtEq => BinaryOperator::GtEq,
        BinaryOperator::Gt => BinaryOperator::Lt,
        BinaryOperator::GtEq => BinaryOperator::LtEq,
        _ => op,
    }
}

/// What `column op value` asks.
pub open spec fn asked_by(column: Seq<char>, op: BinaryOperator, v: ValueModel) -> Seq<Asked> {
    match op {
        BinaryOperator::Gt => seq![Asked { column, is_lower: true, bound: (v, false) }],
        BinaryOperator::GtEq => seq![Asked { column, is_lower: true, bound: (v, true) }],
        BinaryOperator::Lt => seq![Asked { column, is_lower: false, bound: (v, false) }],
        BinaryOperator::LtEq => seq![Asked { column, is_lower: false, bound: (v, true) }],
        _ => Seq::empty(),
    }
}

pub open spec fn asked_of(
    column: usize,
    op: BinaryOperator,
    bound: ExprModel,
    cols: Seq<ColumnModel>,
    params: Seq<ValueModel>,
) -> Seq<Asked> {
    match constant(bound, params) {
        Some(v) => if v == ValueModel::Null {
            Seq::empty()
        } else {
            asked_by(cols[column as int].name, op, v)
        },
        None => Seq::empty(),
    }
}

/// What one term of a predicate asks of a column: a comparison with a constant,
/// or `BETWEEN` two of them. NULL asks nothing.
pub open spec fn term_asks(e: ExprModel, cols: Seq<ColumnModel>, params: Seq<ValueModel>) -> Seq<
    Asked,
> {
    match e {
        ExprModel::BinaryExpr { left, op, right } => match column_of(*left, cols) {
            Some(c) => asked_of(c, op, *right, cols, params),
            None => match column_of(*right, cols) {
                Some(c) => asked_of(c, swapped(op), *left, cols, params),
                None => Seq::empty(),
            },
        },
        ExprModel::Between { expr, low, high, negated } => if negated {
            Seq::empty()
        } else {
            match (column_of(*expr, cols), constant(*low, params), constant(*high, params)) {
                (Some(c), Some(a), Some(b)) => if a == ValueModel::Null || b == ValueModel::Null {
                    Seq::empty()
                } else {
                    seq![
                        Asked { column: cols[c as int].name, is_lower: true, bound: (a, true) },
                        Asked { column: cols[c as int].name, is_lower: false, bound: (b, true) },
                    ]
                },
                _ => Seq::empty(),
            }
        },
        _ => Seq::empty(),
    }
}

/// What the terms of a predicate ask, in order.
pub open spec fn predicate_asks(
    e: ExprModel,
    cols: Seq<ColumnModel>,
    params: Seq<ValueModel>,
) -> Seq<Asked>
    decreases e,
{
    match e {
        ExprModel::BinaryExpr { left, op: BinaryOperator::And, right } => predicate_asks(
            *left,
            cols,
            params,
        ) + predicate_asks(*right, cols, params),
        _ => term_asks(e, cols, params),
    }
}

struct RawAsked {
    column: String,
    is_lower: bool,
    value: Value,
    inclusive: bool,
}

spec fn raw_model(s: Seq<RawAsked>) -> Seq<Asked> {
    Seq::new(
        s.len(),
        |i: int|
            Asked {
                column: s[i].column@,
                is_lower: s[i].is_lower,
                bound: (s[i].value@, s[i].inclusive),
            },
    )
}

fn range_column_ref(schema: &Schema, expr: &LogicalExpr) -> (r: Option<usize>)
    ensures
        r == column_of(expr@, schema@),
        r matches Some(i) ==> i < schema.columns.len(),
{
    match expr {
        LogicalExpr::Column { table, name } => schema.find_column(table, name.as_str()),
        _ => None,
    }
}

fn swap_comparison(op: BinaryOperator) -> (r: BinaryOperator)
    ensures
        r == swapped(op),
{
    match op {
        BinaryOperator::Lt => BinaryOperator::Gt,
        BinaryOperator::LtEq => BinaryOperator::GtEq,
        BinaryOperator::Gt => BinaryOperator::Lt,
        BinaryOperator::GtEq => BinaryOperator::LtEq,
        _ => op,
    }
}

fn push_asked(
    schema: &Schema,
    column: usize,
    op: BinaryOperator,
    bound: &LogicalExpr,
    parameters: &Vec<Value>,
    out: &mut Vec<RawAsked>,
)
    requires
        column < schema.columns.len(),
    ensures
        raw_model(final(out)@) == raw_model(old(out)@) + asked_of(
            column,
            op,
            bound@,
            schema@,
            value::values_model(parameters@),
        ),
{
    let ghost before = raw_model(out@);
    assert(schema@[column as int] == schema.columns@[column as int]@);
    assert(before + Seq::<Asked>::empty() =~= before);
    let v: Value = match lookup_bound_value(bound, parameters) {
        Some(v) => v,
        None => {
            return;
        },
    };
    if let Value::Null = v {
        return;
    }
    let (is_lower, inclusive): (bool, bool) = match op {
        BinaryOperator::Gt => (true, false),
        BinaryOperator::GtEq => (true, true),
        BinaryOperator::Lt => (false, false),
        BinaryOperator::LtEq => (false, true),
        _ => {
            return;
        },
    };
    out.push(
        RawAsked { column: schema.columns[column].name.clone(), is_lower, value: v, inclusive },
    );
    assert(raw_model(out@) =~= before + asked_of(
        column,
        op,
        bound@,
        schema@,
        value::values_model(parameters@),
    ));
}

fn collect_term(
    schema: &Schema,
    e: &LogicalExpr,
    parameters: &Vec<Value>,
    out: &mut Vec<RawAsked>,
)
    ensures
        raw_model(final(out)@) == raw_model(old(out)@) + term_asks(
            e@,
            schema@,
            value::values_model(parameters@),
        ),
{
    let ghost before = raw_model(out@);
    assert(before + Seq::<Asked>::empty() =~= before);
    match e {
        LogicalExpr::BinaryExpr { left, op, right } => {
            match range_column_ref(schema, left) {
                Some(c) => {
                    push_asked(schema, c, *op, right, parameters, out);
                },
                None => match range_column_ref(schema, right) {
                    Some(c) => {
                        push_asked(schema, c, swap_comparison(*op), left, parameters, out);
                    },
                    None => {},
                },
            }
        },
        LogicalExpr::Between { expr, low, high, negated } => {
            if *negated {
                return;
            }
            let c: usize = match range_column_ref(schema, expr) {
                Some(c) => c,
                None => {
                    return;
                },
            };
            assert(schema@[c as int] == schema.columns@[c as int]@);
            let a: Value = match lookup_bound_value(low, parameters) {
                Some(v) => v,
                None => {
                    return;
                },
            };
            let b: Value = match lookup_bound_value(high, parameters) {
                Some(v) => v,
                None => {
                    return;
                },
            };
            if let Value::Null = a {
                return;
            }
            if let Value::Null = b {
                return;
            }
            out.push(
                RawAsked {
                    column: schema.columns[c].name.clone(),
                    is_lower: true,
                    value: a,
                    inclusive: true,
                },
            );
            out.push(
                RawAsked {
                    column: schema.columns[c].name.clone(),
                    is_lower: false,
                    value: b,
                    inclusive: true,
                },
            );
            assert(raw_model(out@) =~= before + term_asks(
                e@,
                schema@,
                value::values_model(parameters@),
            ));
        },
        _ => {},
    }
}

fn collect_asked(
    schema: &Schema,
    e: &LogicalExpr,
    parameters: &Vec<Value>,
    out: &mut Vec<RawAsked>,
)
    ensures
        raw_model(final(out)@) == raw_model(old(out)@) + predicate_asks(
            e@,
            schema@,
            value::values_model(parameters@),
        ),
    decreases e,
{
    let ghost before = raw_model(out@);
    match e {
        LogicalExpr::BinaryExpr { left, op: BinaryOperator::And, right } => {
            collect_asked(schema, left, parameters, out);
            collect_asked(schema, right, parameters, out);
            assert(raw_model(out@) =~= before + predicate_asks(
                e@,
                schema@,
                value::values_model(parameters@),
            ));
        },
        _ => {
            collect_term(schema, e, parameters, out);
        },
    }
}

/// The coerced bounds that are asked of a column on one side; `None` where one
/// of them cannot be looked up.
pub open spec fn side_bounds(
    asked: Seq<Asked>,
    column: Seq<char>,
    t: DataType,
    is_lower: bool,
) -> Option<Seq<Bound>>
    decreases asked.len(),
{
    if asked.len() == 0 {
        Some(Seq::empty())
    } else {
        let a = asked.last();
        let before = side_bounds(asked.drop_last(), column, t, is_lower);
        if a.column != column || a.is_lower != is_lower {
            before
        } else {
            match (before, coerced(a.bound.0, t, spelled_by(a.bound.0))) {
                (Some(s), Some(v)) => if v == ValueModel::Null {
                    None
                } else {
                    Some(s.push((v, a.bound.1)))
                },
                _ => None,
            }
        }
    }
}

/// Whether `a` is at least as tight a lower bound as `b`.
pub open spec fn tighter_lower(a: Bound, b: Bound) -> bool {
    match key_order(a.0, b.0) {
        Order::Greater => true,
        Order::Equal => !a.1 || b.1,
        Order::Less => false,
    }
}

/// Whether `a` is at least as tight an upper bound as `b`.
pub open spec fn tighter_upper(a: Bound, b: Bound) -> bool {
    match key_order(a.0, b.0) {
        Order::Less => true,
        Order::Equal => !a.1 || b.1,
        Order::Greater => false,
    }
}

/// The tightest of several bounds.
pub open spec fn tightest(s: Seq<Bound>, is_lower: bool) -> Option<Bound>
    decreases s.len(),
{
    if s.len() == 0 {
        None
    } else {
        match tightest(s.drop_last(), is_lower) {
            None => Some(s.last()),
            Some(b) => if is_lower && tighter_lower(s.last(), b) || !is_lower && tighter_upper(
                s.last(),
                b,
            ) {
                Some(s.last())
            } else {
                Some(b)
            },
        }
    }
}

/// Whether a value lies within a bound.
pub open spec fn within(v: ValueModel, b: Bound, is_lower: bool) -> bool {
    match key_order(v, b.0) {
        Order::Equal => b.1,
        Order::Greater => is_lower,
        Order::Less => !is_lower,
    }
}

proof fn lemma_keys_chain(a: Seq<int>, b: Seq<int>, c: Seq<int>)
    ensures
        text::lex_order(b, a) == text::flip(text::lex_order(a, b)),
        text::lex_order(a, b) == Order::Equal <==> a == b,
        text::lex_order(a, b) != Order::Greater && text::lex_order(b, c) != Order::Greater
            ==> text::lex_order(a, c) != Order::Greater,
{
    text::lemma_lex_flip(a, b);
    text::lemma_lex_equal(a, b);
    if text::lex_order(a, b) != Order::Greater && text::lex_order(b, c) != Order::Greater {
        text::lemma_lex_transitive(a, b, c);
    }
}

/// The tightest of several bounds admits exactly the values that all of them
/// admit.
pub proof fn law_tightest_bound_is_all_of_them(s: Seq<Bound>, is_lower: bool, v: ValueModel)
    ensures
        tightest(s, is_lower) is None == (s.len() == 0),
        tightest(s, is_lower) matches Some(b) ==> (within(v, b, is_lower) <==> forall|i: int|
            0 <= i < s.len() ==> within(v, #[trigger] s[i], is_lower)),
    decreases s.len(),
{
    if s.len() > 0 {
        let prior = s.drop_last();
        law_tightest_bound_is_all_of_them(prior, is_lower, v);
        let x = s.last();
        assert forall|i: int| 0 <= i < prior.len() implies prior[i] == s[i] by {}
        match tightest(prior, is_lower) {
            None => {
                assert(s[0] == x);
            },
            Some(b) => {
                let kv = order_key(v);
                let kx = order_key(x.0);
                let kb = order_key(b.0);
                lemma_keys_chain(kv, kx, kb);
                lemma_keys_chain(kv, kb, kx);
                lemma_keys_chain(kx, kv, kb);
                lemma_keys_chain(kb, kv, kx);
                lemma_keys_chain(kx, kb, kv);
                lemma_keys_chain(kb, kx, kv);
                let all = forall|i: int|
                    0 <= i < s.len() ==> within(v, #[trigger] s[i], is_lower);
                let some = forall|i: int|
                    0 <= i < prior.len() ==> within(v, #[trigger] prior[i], is_lower);
                assert(all == (some && within(v, x, is_lower))) by {
                    if all {
                        assert forall|i: int| 0 <= i < prior.len() implies within(
                            v,
                            #[trigger] prior[i],
                            is_lower,
                        ) by {
                            assert(within(v, s[i], is_lower));
                        }
                        assert(within(v, s[s.len() - 1], is_lower));
                    }
                    if some && within(v, x, is_lower) {
                        assert forall|i: int| 0 <= i < s.len() implies within(
                            v,
                            #[trigger] s[i],
                            is_lower,
                        ) by {
                            if i < prior.len() {
                                assert(within(v, prior[i], is_lower));
                            }
                        }
                    }
                }
            },
        }
    }
}

/// One end of an index range.
pub enum RangeBound {
    /// A value, and whether it belongs to the range.
    At(Value, bool),
    /// The smallest key of a type whose keys are this many bytes wide. NULL has
    /// a shorter key and lies below it.
    Lowest(usize),
}

pub enum RangeBoundModel {
    At(ValueModel, bool),
    Lowest(usize),
}

impl View for RangeBound {
    type V = RangeBoundModel;

    open spec fn view(&self) -> RangeBoundModel {
        match *self {
            RangeBound::At(v, b) => RangeBoundModel::At(v@, b),
            RangeBound::Lowest(n) => RangeBoundModel::Lowest(n),
        }
    }
}

impl Clone for RangeBound {
    fn clone(&self) -> (r: RangeBound)
        ensures
            r@ == self@,
    {
        match self {
            RangeBound::At(v, b) => RangeBound::At(v.clone(), *b),
            RangeBound::Lowest(n) => RangeBound::Lowest(*n),
        }
    }
}

pub open spec fn opt_range_bound(b: Option<RangeBound>) -> Option<RangeBoundModel> {
    match b {
        Some(x) => Some(x@),
        None => None,
    }
}

/// A range of an index.
pub struct IndexRangeSpec {
    pub index_name: String,
    pub column_name: String,
    pub lower: Option<RangeBound>,
    pub upper: Option<RangeBound>,
}

#[verifier::ext_equal]
pub struct RangeModel {
    pub index_name: Seq<char>,
    pub column_name: Seq<char>,
    pub lower: Option<RangeBoundModel>,
    pub upper: Option<RangeBoundModel>,
}

impl View for IndexRangeSpec {
    type V = RangeModel;

    open spec fn view(&self) -> RangeModel {
        RangeModel {
            index_name: self.index_name@,
            column_name: self.column_name@,
            lower: opt_range_bound(self.lower),
            upper: opt_range_bound(self.upper),
        }
    }
}

/// How wide the keys of a type are, where all are equally wide.
pub open spec fn key_width(t: DataType) -> Option<usize> {
    match t {
        DataType::Int2 => Some(2),
        DataType::Int4 => Some(4),
        DataType::Int8 => Some(8),
        DataType::Float4 => Some(4),
        DataType::Float8 => Some(8),
        _ => None,
    }
}

fn width_of_key(t: &DataType) -> (r: Option<usize>)
    ensures
        r == key_width(*t),
{
    match t {
        DataType::Int2 => Some(2),
        DataType::Int4 => Some(4),
        DataType::Int8 => Some(8),
        DataType::Float4 => Some(4),
        DataType::Float8 => Some(8),
        _ => None,
    }
}

/// The range that is asked of one column, where an index on it can serve it.
pub open spec fn column_range(
    asked: Seq<Asked>,
    column: ColumnModel,
    index: Option<Seq<char>>,
) -> Option<RangeModel> {
    let t = column.data_type;
    match (
        index,
        side_bounds(asked, column.name, t, true),
        side_bounds(asked, column.name, t, false),
    ) {
        (Some(name), Some(lowers), Some(uppers)) => if !ordered_type(t) || (lowers.len() == 0
            && uppers.len() == 0) {
            None
        } else {
            Some(
                RangeModel {
                    index_name: name,
                    column_name: column.name,
                    lower: match tightest(lowers, true) {
                        Some(b) => Some(RangeBoundModel::At(b.0, b.1)),
                        None => match key_width(t) {
                            Some(w) => Some(RangeBoundModel::Lowest(w)),
                            None => None,
                        },
                    },
                    upper: match tightest(uppers, false) {
                        Some(b) => Some(RangeBoundModel::At(b.0, b.1)),
                        None => None,
                    },
                },
            )
        },
        _ => None,
    }
}

/// The range of the first column from `from` on that an index can serve.
pub open spec fn first_range(
    asked: Seq<Asked>,
    cols: Seq<ColumnModel>,
    indexes: Seq<IndexModel>,
    table: Seq<char>,
    from: int,
) -> Option<RangeModel>
    decreases cols.len() - from,
{
    if from < 0 || from >= cols.len() {
        None
    } else {
        match column_range(asked, cols[from], index_on(indexes, table, cols[from].name, 0)) {
            Some(r) => Some(r),
            None => first_range(asked, cols, indexes, table, from + 1),
        }
    }
}

/// The index range that a predicate asks for.
pub open spec fn index_range(
    predicate: ExprModel,
    cols: Seq<ColumnModel>,
    params: Seq<ValueModel>,
    indexes: Seq<IndexModel>,
    table: Seq<char>,
) -> Option<RangeModel> {
    first_range(predicate_asks(predicate, cols, params), cols, indexes, table, 0)
}

spec fn opt_bound(b: Option<(Value, bool)>) -> Option<Bound> {
    match b {
        Some(x) => Some((x.0@, x.1)),
        None => None,
    }
}

proof fn lemma_side_bounds_stop(
    asked: Seq<Asked>,
    n: int,
    column: Seq<char>,
    t: DataType,
    is_lower: bool,
)
    requires
        0 <= n <= asked.len(),
        side_bounds(asked.take(n), column, t, is_lower) is None,
    ensures
        side_bounds(asked, column, t, is_lower) is None,
    decreases asked.len() - n,
{
    if n < asked.len() {
        assert(asked.take(n + 1).drop_last() =~= asked.take(n));
        lemma_side_bounds_stop(asked, n + 1, column, t, is_lower);
    } else {
        assert(asked.take(n) =~= asked);
    }
}

/// The tightest bound on one side, and whether there is one at all; `None`
/// where a bound cannot be looked up.
fn tighten(raw: &Vec<RawAsked>, column: &str, t: &DataType, is_lower: bool) -> (r: Option<
    Option<(Value, bool)>,
>)
    requires
        ordered_type(*t),
    ensures
        match r {
            Some(b) => side_bounds(raw_model(raw@), column@, *t, is_lower) matches Some(s)
                && opt_bound(b) == tightest(s, is_lower),
            None => side_bounds(raw_model(raw@), column@, *t, is_lower) is None,
        },
{
    let ghost all = raw_model(raw@);
    let mut found: Option<(Value, bool)> = None;
    assert(all.take(0) =~= Seq::<Asked>::empty());
    for i in 0..raw.len()
        invariant
            all == raw_model(raw@),
            ordered_type(*t),
            side_bounds(all.take(i as int), column@, *t, is_lower) is Some,
            opt_bound(found) == tightest(
                side_bounds(all.take(i as int), column@, *t, is_lower)->Some_0,
                is_lower,
            ),
    {
        let ghost next = all.take(i + 1);
        let ghost before = side_bounds(all.take(i as int), column@, *t, is_lower)->Some_0;
        assert(next.drop_last() =~= all.take(i as int));
        assert(next.last() == all[i as int]);
        if raw[i].is_lower == is_lower && text::same_text(raw[i].column.as_str(), column) {
            let v: Value = match coerce_index_lookup_value(&raw[i].value, t) {
                Some(v) => v,
                None => {
                    proof {
                        lemma_side_bounds_stop(all, i + 1, column@, *t, is_lower);
                    }
                    return None;
                },
            };
            if let Value::Null = v {
                proof {
                    lemma_side_bounds_stop(all, i + 1, column@, *t, is_lower);
                }
                return None;
            }
            let inclusive: bool = raw[i].inclusive;
            let ghost now = before.push((v@, inclusive));
            assert(side_bounds(next, column@, *t, is_lower) == Some(now));
            assert(now.drop_last() =~= before);
            let replaces: bool = match &found {
                None => true,
                Some(b) => match compare_keys(&v, &b.0) {
                    Order::Greater => is_lower,
                    Order::Less => !is_lower,
                    Order::Equal => !inclusive || b.1,
                },
            };
            if replaces {
                found = Some((v, inclusive));
            }
        }
    }
    assert(all.take(raw.len() as int) =~= all);
    Some(found)
}

/// Finds the index range that a predicate asks for: of the first column, in the
/// table's order, that is compared with constants, has an index, and whose keys
/// are ordered as its values are.
pub fn indexed_range_lookup(
    indexes: &Vec<ColumnIndex>,
    table_name: &str,
    schema: &Schema,
    predicate: &LogicalExpr,
    parameters: &Vec<Value>,
) -> (r: Option<IndexRangeSpec>)
    ensures
        match r {
            Some(s) => index_range(
                predicate@,
                schema@,
                value::values_model(parameters@),
                indexes_model(indexes@),
                table_name@,
            ) == Some(s@),
            None => index_range(
                predicate@,
                schema@,
                value::values_model(parameters@),
                indexes_model(indexes@),
                table_name@,
            ) is None,
        },
{
    let mut raw: Vec<RawAsked> = Vec::new();
    collect_asked(schema, predicate, parameters, &mut raw);
    let ghost asked = predicate_asks(predicate@, schema@, value::values_model(parameters@));
    let ghost ix = indexes_model(indexes@);
    assert(raw_model(raw@) =~= asked);
    let mut i: usize = 0;
    while i < schema.columns.len()
        invariant
            i <= schema.columns.len(),
            ix == indexes_model(indexes@),
            raw_model(raw@) == asked,
            asked == predicate_asks(predicate@, schema@, value::values_model(parameters@)),
            first_range(asked, schema@, ix, table_name@, 0) == first_range(
                asked,
                schema@,
                ix,
                table_name@,
                i as int,
            ),
        decreases schema.columns.len() - i,
    {
        assert(schema@[i as int] == schema.columns@[i as int]@);
        let name: &str = schema.columns[i].name.as_str();
        let t: &DataType = &schema.columns[i].data_type;
        let index: Option<String> = find_column_index(indexes, table_name, name);
        if range_scannable_type(t) {
            if let Some(index_name) = index {
                let lower: Option<Option<(Value, bool)>> = tighten(&raw, name, t, true);
                let upper: Option<Option<(Value, bool)>> = tighten(&raw, name, t, false);
                match (lower, upper) {
                    (Some(lo), Some(hi)) => {
                        proof {
                            let lowers = side_bounds(asked, name@, *t, true)->Some_0;
                            let uppers = side_bounds(asked, name@, *t, false)->Some_0;
                            law_tightest_bound_is_all_of_them(lowers, true, ValueModel::Null);
                            law_tightest_bound_is_all_of_them(uppers, false, ValueModel::Null);
                        }
                        if lo.is_some() || hi.is_some() {
                            let lower: Option<RangeBound> = match lo {
                                Some(b) => Some(RangeBound::At(b.0, b.1)),
                                None => match width_of_key(t) {
                                    Some(w) => Some(RangeBound::Lowest(w)),
                                    None => None,
                                },
                            };
                            let upper: Option<RangeBound> = match hi {
                                Some(b) => Some(RangeBound::At(b.0, b.1)),
                                None => None,
                            };
                            return Some(
                                IndexRangeSpec {
                                    index_name,
                                    column_name: schema.columns[i].name.clone(),
                                    lower,
                                    upper,
                                },
                            );
                        }
                    },
                    _ => {},
                }
            }
        }
        i = i + 1;
    }
    None
}

/// How a range is shown, given the texts of its bounds.
pub open spec fn range_text(
    column: Seq<char>,
    lower: Option<(Seq<char>, bool)>,
    upper: Option<(Seq<char>, bool)>,
) -> Seq<char> {
    let lo = match lower {
        Some(b) => column + " "@ + (if b.1 {
            ">="@
        } else {
            ">"@
        }) + " "@ + b.0,
        None => Seq::empty(),
    };
    let hi = match upper {
        Some(b) => column + " "@ + (if b.1 {
            "<="@
        } else {
            "<"@
        }) + " "@ + b.0,
        None => Seq::empty(),
    };
    if lower is Some && upper is Some {
        lo + " AND "@ + hi
    } else {
        lo + hi
    }
}

pub open spec fn shown_bound(b: Option<(&str, bool)>) -> Option<(Seq<char>, bool)> {
    match b {
        Some(x) => Some((x.0@, x.1)),
        None => None,
    }
}

/// Shows a range, given the texts of its bounds.
pub fn range_display(column: &str, lower: Option<(&str, bool)>, upper: Option<(&str, bool)>) -> (r:
    String)
    ensures
        r@ == range_text(column@, shown_bound(lower), shown_bound(upper)),
{
    let mut lo: String = String::new();
    match lower {
        Some(b) => {
            lo.append(column);
            lo.append(" ");
            if b.1 {
                lo.append(">=");
            } else {
                lo.append(">");
            }
            lo.append(" ");
            lo.append(b.0);
        },
        None => {},
    }
    let mut hi: String = String::new();
    match upper {
        Some(b) => {
            hi.append(column);
            hi.append(" ");
            if b.1 {
                hi.append("<=");
            } else {
                hi.append("<");
            }
            hi.append(" ");
            hi.append(b.0);
        },
        None => {},
    }
    if lower.is_some() && upper.is_some() {
        lo.append(" AND ");
    }
    lo.append(hi.as_str());
    assert(lo@ =~= range_text(column@, shown_bound(lower), shown_bound(upper)));
    lo
}

/// Whether a range with some number of entries is worth its lookups.
pub fn range_pays(total: u64, found: usize) -> (r: bool)
    ensures
        r == !(total > 0 && found * 4 > total),
{
    !(total > 0 && found as u128 * 4 > total as u128)
}

/// How many rows a lookup fetches at least before it may be given up.
pub const ABORT_MIN_ROWS: usize = 256;

/// Whether fetching rows one by one is given up: at every sixty-fourth row of a
/// large fetch that has taken more than a tenth of a second.
pub fn fetch_is_too_slow(rows: usize, fetched: usize, elapsed_nanos: u128) -> (r: bool)
    ensures
        r == (rows >= ABORT_MIN_ROWS && fetched % 64 == 63 && elapsed_nanos > 100_000_000),
{
    rows >= ABORT_MIN_ROWS && fetched % 64 == 63 && elapsed_nanos > 100_000_000
}

/// The index point that `column = constant` asks for.
pub open spec fn equality_point(
    column: ExprModel,
    bound: ExprModel,
    cols: Seq<ColumnModel>,
    params: Seq<ValueModel>,
    indexes: Seq<IndexModel>,
    table: Seq<char>,
) -> Option<(Seq<char>, ValueModel)> {
    match column_of(column, cols) {
        None => None,
        Some(c) => match (
            index_on(indexes, table, cols[c as int].name, 0),
            constant(bound, params),
        ) {
            (Some(name), Some(v)) => match coerced(v, cols[c as int].data_type, spelled_by(v)) {
                Some(x) => Some((name, x)),
                None => None,
            },
            _ => None,
        },
    }
}

/// The index point that a predicate asks for: that of its first equality of an
/// indexed column with a constant.
pub open spec fn index_point(
    e: ExprModel,
    cols: Seq<ColumnModel>,
    params: Seq<ValueModel>,
    indexes: Seq<IndexModel>,
    table: Seq<char>,
) -> Option<(Seq<char>, ValueModel)>
    decreases e,
{
    match e {
        ExprModel::BinaryExpr { left, op: BinaryOperator::And, right } => match index_point(
            *left,
            cols,
            params,
            indexes,
            table,
        ) {
            Some(p) => Some(p),
            None => index_point(*right, cols, params, indexes, table),
        },
        ExprModel::BinaryExpr { left, op: BinaryOperator::Eq, right } => match equality_point(
            *left,
            *right,
            cols,
            params,
            indexes,
            table,
        ) {
            Some(p) => Some(p),
            None => equality_point(*right, *left, cols, params, indexes, table),
        },
        _ => None,
    }
}

pub open spec fn opt_point(p: Option<(String, Value)>) -> Option<(Seq<char>, ValueModel)> {
    match p {
        Some(x) => Some((x.0@, x.1@)),
        None => None,
    }
}

fn equality_lookup_from_sides(
    indexes: &Vec<ColumnIndex>,
    table_name: &str,
    schema: &Schema,
    column_expr: &LogicalExpr,
    value_expr: &LogicalExpr,
    parameters: &Vec<Value>,
) -> (r: Option<(String, Value)>)
    ensures
        opt_point(r) == equality_point(
            column_expr@,
            value_expr@,
            schema@,
            value::values_model(parameters@),
            indexes_model(indexes@),
            table_name@,
        ),
{
    let c: usize = match range_column_ref(schema, column_expr) {
        Some(c) => c,
        None => {
            return None;
        },
    };
    assert(schema@[c as int] == schema.columns@[c as int]@);
    let name: String = match find_column_index(
        indexes,
        table_name,
        schema.columns[c].name.as_str(),
    ) {
        Some(n) => n,
        None => {
            return None;
        },
    };
    let v: Value = match lookup_bound_value(value_expr, parameters) {
        Some(v) => v,
        None => {
            return None;
        },
    };
    match coerce_index_lookup_value(&v, &schema.columns[c].data_type) {
        Some(x) => Some((name, x)),
        None => None,
    }
}

/// Finds the index point that a predicate asks for.
pub fn indexed_equality_lookup(
    indexes: &Vec<ColumnIndex>,
    table_name: &str,
    schema: &Schema,
    predicate: &LogicalExpr,
    parameters: &Vec<Value>,
) -> (r: Option<(String, Value)>)
    ensures
        opt_point(r) == index_point(
            predicate@,
            schema@,
            value::values_model(parameters@),
            indexes_model(indexes@),
            table_name@,
        ),
    decreases predicate,
{
    match predicate {
        LogicalExpr::BinaryExpr { left, op: BinaryOperator::And, right } => {
            match indexed_equality_lookup(indexes, table_name, schema, left, parameters) {
                Some(p) => Some(p),
                None => indexed_equality_lookup(indexes, table_name, schema, right, parameters),
            }
        },
        LogicalExpr::BinaryExpr { left, op: BinaryOperator::Eq, right } => {
            match equality_lookup_from_sides(indexes, table_name, schema, left, right, parameters) {
                Some(p) => Some(p),
                None => equality_lookup_from_sides(
                    indexes,
                    table_name,
                    schema,
                    right,
                    left,
                    parameters,
                ),
            }
        },
        _ => None,
    }
}

} // verus!
