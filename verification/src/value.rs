//! Column values and data types.

use vstd::prelude::*;
use vstd::string::*;

verus! {

/// A point in time: whole seconds since 1970-01-01 UTC and nanoseconds.
#[derive(Clone, Copy, Debug, PartialEq, Eq, Structural)]
pub struct Timestamp {
    pub secs: i64,
    pub nanos: u32,
}

/// A time of day: whole seconds since midnight and nanoseconds.
#[derive(Clone, Copy, Debug, PartialEq, Eq, Structural)]
pub struct TimeOfDay {
    pub secs: u32,
    pub nanos: u32,
}

/// A span of time, kept in its three independent parts.
#[derive(Clone, Copy, Debug, PartialEq, Eq, Structural)]
pub struct Interval {
    pub months: i32,
    pub days: i32,
    pub micros: i64,
}

/// A column value.
///
/// Floating-point numbers are held by their IEEE 754 bit patterns, a UUID by
/// the number its sixteen bytes spell, a date by its day number (day 1 is
/// 0001-01-01).
#[derive(Debug)]
pub enum Value {
    Null,
    Boolean(bool),
    Int2(i16),
    Int4(i32),
    Int8(i64),
    Float4(u32),
    Float8(u64),
    Numeric(String),
    String(String),
    Bytes(Vec<u8>),
    Uuid(u128),
    Timestamp(Timestamp),
    Date(i32),
    Time(TimeOfDay),
    Interval(Interval),
    Json(String),
    Array(Vec<Value>),
    Vector(Vec<u32>),
    DictRef { dict_id: u32 },
    CasRef { hash: u128 },
    ColumnarRef,
}

/// What a `Value` stands for.
pub enum ValueModel {
    Null,
    Boolean(bool),
    Int2(i16),
    Int4(i32),
    Int8(i64),
    Float4(u32),
    Float8(u64),
    Numeric(Seq<char>),
    String(Seq<char>),
    Bytes(Seq<u8>),
    Uuid(u128),
    Timestamp(Timestamp),
    Date(i32),
    Time(TimeOfDay),
    Interval(Interval),
    Json(Seq<char>),
    Array(Seq<ValueModel>),
    Vector(Seq<u32>),
    DictRef { dict_id: u32 },
    CasRef { hash: u128 },
    ColumnarRef,
}

pub open spec fn value_model(v: Value) -> ValueModel
    decreases v,
{
    match v {
        Value::Null => ValueModel::Null,
        Value::Boolean(b) => ValueModel::Boolean(b),
        Value::Int2(n) => ValueModel::Int2(n),
        Value::Int4(n) => ValueModel::Int4(n),
        Value::Int8(n) => ValueModel::Int8(n),
        Value::Float4(n) => ValueModel::Float4(n),
        Value::Float8(n) => ValueModel::Float8(n),
        Value::Numeric(s) => ValueModel::Numeric(s@),
        Value::String(s) => ValueModel::String(s@),
        Value::Bytes(b) => ValueModel::Bytes(b@),
        Value::Uuid(u) => ValueModel::Uuid(u),
        Value::Timestamp(t) => ValueModel::Timestamp(t),
        Value::Date(d) => ValueModel::Date(d),
        Value::Time(t) => ValueModel::Time(t),
        Value::Interval(i) => ValueModel::Interval(i),
        Value::Json(s) => ValueModel::Json(s@),
        Value::Array(items) => ValueModel::Array(values_model(items@)),
        Value::Vector(xs) => ValueModel::Vector(xs@),
        Value::DictRef { dict_id } => ValueModel::DictRef { dict_id },
        Value::CasRef { hash } => ValueModel::CasRef { hash },
        Value::ColumnarRef => ValueModel::ColumnarRef,
    }
}

/// What a sequence of values stands for, item by item.
pub open spec fn values_model(s: Seq<Value>) -> Seq<ValueModel>
    decreases s,
{
    Seq::new(
        s.len(),
        |i: int|
            if 0 <= i < s.len() {
                value_model(s[i])
            } else {
                arbitrary()
            },
    )
}

pub open spec fn opt_value_model(v: Option<Value>) -> Option<ValueModel> {
    match v {
        Some(x) => Some(x@),
        None => None,
    }
}

impl View for Value {
    type V = ValueModel;

    open spec fn view(&self) -> ValueModel {
        value_model(*self)
    }
}

pub proof fn lemma_values_model(s: Seq<Value>)
    ensures
        values_model(s).len() == s.len(),
        forall|i: int| 0 <= i < s.len() ==> #[trigger] values_model(s)[i] == s[i]@,
{
}

pub proof fn lemma_values_model_push(s: Seq<Value>, v: Value)
    ensures
        values_model(s.push(v)) == values_model(s).push(v@),
{
    assert(values_model(s.push(v)) =~= values_model(s).push(v@));
}

impl Clone for Value {
    fn clone(&self) -> (r: Value)
        ensures
            r@ == self@,
        decreases self,
    {
        match self {
            Value::Null => Value::Null,
            Value::Boolean(b) => Value::Boolean(*b),
            Value::Int2(n) => Value::Int2(*n),
            Value::Int4(n) => Value::Int4(*n),
            Value::Int8(n) => Value::Int8(*n),
            Value::Float4(n) => Value::Float4(*n),
            Value::Float8(n) => Value::Float8(*n),
            Value::Numeric(s) => Value::Numeric(s.clone()),
            Value::String(s) => Value::String(s.clone()),
            Value::Bytes(b) => {
                let c: Vec<u8> = b.clone();
                assert(c@ =~= b@);
                Value::Bytes(c)
            },
            Value::Uuid(u) => Value::Uuid(*u),
            Value::Timestamp(t) => Value::Timestamp(*t),
            Value::Date(d) => Value::Date(*d),
            Value::Time(t) => Value::Time(*t),
            Value::Interval(i) => Value::Interval(*i),
            Value::Json(s) => Value::Json(s.clone()),
            Value::Array(items) => {
                let mut out: Vec<Value> = Vec::new();
                for i in 0..items.len()
                    invariant
                        *self is Array,
                        items == self->Array_0,
                        out.len() == i,
                        forall|j: int| 0 <= j < i ==> (#[trigger] out@[j])@ == items@[j]@,
                {
                    out.push(items[i].clone());
                }
                assert(values_model(out@) =~= values_model(items@));
                Value::Array(out)
            },
            Value::Vector(xs) => {
                let c: Vec<u32> = xs.clone();
                assert(c@ =~= xs@);
                Value::Vector(c)
            },
            Value::DictRef { dict_id } => Value::DictRef { dict_id: *dict_id },
            Value::CasRef { hash } => Value::CasRef { hash: *hash },
            Value::ColumnarRef => Value::ColumnarRef,
        }
    }
}

/// Clones a list of values.
pub fn clone_values(v: &Vec<Value>) -> (r: Vec<Value>)
    ensures
        values_model(r@) == values_model(v@),
        r.len() == v.len(),
{
    let mut out: Vec<Value> = Vec::new();
    for i in 0..v.len()
        invariant
            out.len() == i,
            forall|j: int| 0 <= j < i ==> (#[trigger] out@[j])@ == v@[j]@,
    {
        out.push(v[i].clone());
    }
    assert(values_model(out@) =~= values_model(v@));
    out
}

fn same_u8s(a: &Vec<u8>, b: &Vec<u8>) -> (r: bool)
    ensures
        r == (a@ == b@),
{
    if a.len() != b.len() {
        return false;
    }
    for i in 0..a.len()
        invariant
            a.len() == b.len(),
            forall|j: int| 0 <= j < i ==> a@[j] == b@[j],
    {
        if a[i] != b[i] {
            return false;
        }
    }
    assert(a@ =~= b@);
    true
}

fn same_u32s(a: &Vec<u32>, b: &Vec<u32>) -> (r: bool)
    ensures
        r == (a@ == b@),
{
    if a.len() != b.len() {
        return false;
    }
    for i in 0..a.len()
        invariant
            a.len() == b.len(),
            forall|j: int| 0 <= j < i ==> a@[j] == b@[j],
    {
        if a[i] != b[i] {
            return false;
        }
    }
    assert(a@ =~= b@);
    true
}

/// Whether two values are the same: same kind, same contents.
pub fn same_value(a: &Value, b: &Value) -> (r: bool)
    ensures
        r == (a@ == b@),
    decreases a,
{
    match (a, b) {
        (Value::Null, Value::Null) => true,
        (Value::Boolean(x), Value::Boolean(y)) => *x == *y,
        (Value::Int2(x), Value::Int2(y)) => *x == *y,
        (Value::Int4(x), Value::Int4(y)) => *x == *y,
        (Value::Int8(x), Value::Int8(y)) => *x == *y,
        (Value::Float4(x), Value::Float4(y)) => *x == *y,
        (Value::Float8(x), Value::Float8(y)) => *x == *y,
        (Value::Numeric(x), Value::Numeric(y)) => *x == *y,
        (Value::String(x), Value::String(y)) => *x == *y,
        (Value::Bytes(x), Value::Bytes(y)) => same_u8s(x, y),
        (Value::Uuid(x), Value::Uuid(y)) => *x == *y,
        (Value::Timestamp(x), Value::Timestamp(y)) => *x == *y,
        (Value::Date(x), Value::Date(y)) => *x == *y,
        (Value::Time(x), Value::Time(y)) => *x == *y,
        (Value::Interval(x), Value::Interval(y)) => *x == *y,
        (Value::Json(x), Value::Json(y)) => *x == *y,
        (Value::Array(x), Value::Array(y)) => {
            proof {
                lemma_values_model(x@);
                lemma_values_model(y@);
            }
            if x.len() != y.len() {
                return false;
            }
            for i in 0..x.len()
                invariant
                    *a is Array,
                    *b is Array,
                    x == a->Array_0,
                    y == b->Array_0,
                    x.len() == y.len(),
                    values_model(x@).len() == x.len(),
                    values_model(y@).len() == y.len(),
                    forall|j: int| 0 <= j < x.len() ==> #[trigger] values_model(x@)[j] == x@[j]@,
                    forall|j: int| 0 <= j < y.len() ==> #[trigger] values_model(y@)[j] == y@[j]@,
                    forall|j: int| 0 <= j < i ==> (#[trigger] x@[j])@ == y@[j]@,
            {
                if !same_value(&x[i], &y[i]) {
                    assert(values_model(x@)[i as int] != values_model(y@)[i as int]);
                    return false;
                }
            }
            assert(values_model(x@) =~= values_model(y@));
            true
        },
        (Value::Vector(x), Value::Vector(y)) => same_u32s(x, y),
        (Value::DictRef { dict_id: x }, Value::DictRef { dict_id: y }) => *x == *y,
        (Value::CasRef { hash: x }, Value::CasRef { hash: y }) => *x == *y,
        (Value::ColumnarRef, Value::ColumnarRef) => true,
        _ => false,
    }
}

/// Whether two lists of values are the same, item by item.
pub fn same_values(a: &Vec<Value>, b: &Vec<Value>) -> (r: bool)
    ensures
        r == (values_model(a@) == values_model(b@)),
{
    proof {
        lemma_values_model(a@);
        lemma_values_model(b@);
    }
    if a.len() != b.len() {
        return false;
    }
    for i in 0..a.len()
        invariant
            a.len() == b.len(),
            forall|j: int| 0 <= j < i ==> (#[trigger] a@[j])@ == b@[j]@,
    {
        if !same_value(&a[i], &b[i]) {
            assert(values_model(a@)[i as int] != values_model(b@)[i as int]);
            return false;
        }
    }
    assert(values_model(a@) =~= values_model(b@));
    true
}

impl PartialEq for Value {
    fn eq(&self, other: &Value) -> (r: bool) {
        same_value(self, other)
    }
}

impl vstd::std_specs::cmp::PartialEqSpecImpl for Value {
    open spec fn obeys_eq_spec() -> bool {
        true
    }

    open spec fn eq_spec(&self, other: &Value) -> bool {
        self@ == other@
    }
}

/// The name of a value's kind.
pub open spec fn kind_text(v: ValueModel) -> Seq<char> {
    match v {
        ValueModel::Null => "Null"@,
        ValueModel::Boolean(_) => "Boolean"@,
        ValueModel::Int2(_) => "Int2"@,
        ValueModel::Int4(_) => "Int4"@,
        ValueModel::Int8(_) => "Int8"@,
        ValueModel::Float4(_) => "Float4"@,
        ValueModel::Float8(_) => "Float8"@,
        ValueModel::Numeric(_) => "Numeric"@,
        ValueModel::String(_) => "String"@,
        ValueModel::Bytes(_) => "Bytes"@,
        ValueModel::Uuid(_) => "Uuid"@,
        ValueModel::Timestamp(_) => "Timestamp"@,
        ValueModel::Date(_) => "Date"@,
        ValueModel::Time(_) => "Time"@,
        ValueModel::Interval(_) => "Interval"@,
        ValueModel::Json(_) => "Json"@,
        ValueModel::Array(_) => "Array"@,
        ValueModel::Vector(_) => "Vector"@,
        ValueModel::DictRef { .. } => "DictRef"@,
        ValueModel::CasRef { .. } => "CasRef"@,
        ValueModel::ColumnarRef => "ColumnarRef"@,
    }
}

/// The name of a value's kind.
pub fn kind_name(v: &Value) -> (r: &'static str)
    ensures
        r@ == kind_text(v@),
{
    match v {
        Value::Null => "Null",
        Value::Boolean(_) => "Boolean",
        Value::Int2(_) => "Int2",
        Value::Int4(_) => "Int4",
        Value::Int8(_) => "Int8",
        Value::Float4(_) => "Float4",
        Value::Float8(_) => "Float8",
        Value::Numeric(_) => "Numeric",
        Value::String(_) => "String",
        Value::Bytes(_) => "Bytes",
        Value::Uuid(_) => "Uuid",
        Value::Timestamp(_) => "Timestamp",
        Value::Date(_) => "Date",
        Value::Time(_) => "Time",
        Value::Interval(_) => "Interval",
        Value::Json(_) => "Json",
        Value::Array(_) => "Array",
        Value::Vector(_) => "Vector",
        Value::DictRef { .. } => "DictRef",
        Value::CasRef { .. } => "CasRef",
        Value::ColumnarRef => "ColumnarRef",
    }
}

/// A column type.
#[derive(Debug)]
pub enum DataType {
    Boolean,
    Int2,
    Int4,
    Int8,
    Float4,
    Float8,
    Numeric,
    Text,
    Varchar(Option<usize>),
    Char(usize),
    Bytea,
    Uuid,
    Date,
    Time,
    Timestamp,
    Timestamptz,
    Interval,
    Json,
    Jsonb,
    Vector(usize),
    Array(Box<DataType>),
}

impl Clone for DataType {
    fn clone(&self) -> (r: DataType)
        ensures
            r == *self,
        decreases self,
    {
        match self {
            DataType::Boolean => DataType::Boolean,
            DataType::Int2 => DataType::Int2,
            DataType::Int4 => DataType::Int4,
            DataType::Int8 => DataType::Int8,
            DataType::Float4 => DataType::Float4,
            DataType::Float8 => DataType::Float8,
            DataType::Numeric => DataType::Numeric,
            DataType::Text => DataType::Text,
            DataType::Varchar(n) => DataType::Varchar(*n),
            DataType::Char(n) => DataType::Char(*n),
            DataType::Bytea => DataType::Bytea,
            DataType::Uuid => DataType::Uuid,
            DataType::Date => DataType::Date,
            DataType::Time => DataType::Time,
            DataType::Timestamp => DataType::Timestamp,
            DataType::Timestamptz => DataType::Timestamptz,
            DataType::Interval => DataType::Interval,
            DataType::Json => DataType::Json,
            DataType::Jsonb => DataType::Jsonb,
            DataType::Vector(n) => DataType::Vector(*n),
            DataType::Array(inner) => DataType::Array(Box::new((&**inner).clone())),
        }
    }
}

} // verus!
