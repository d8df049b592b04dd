//! Values, rows and columns as messages for people show them.

use crate::logical_plan::{AsOfClause, AsOfModel};
use crate::parsing;
use crate::schema;
use crate::schema::{Column, ColumnModel, ColumnStorageMode, Schema, Tuple, TupleModel};
use crate::text;
use crate::value;
use crate::value::{DataType, Interval, TimeOfDay, Timestamp, Value, ValueModel};
use vstd::prelude::*;

verus! {

/// The text that `{:?}` gives for a text: quoted, with escapes.
pub uninterp spec fn str_debug_text(s: Seq<char>) -> Seq<char>;

/// `std::fmt::format` with `{:?}` on a text: the text comes back in quotes, with
/// escapes where they are needed, and so depends on it alone. Which characters
/// are escaped how is left unsaid.
#[verifier::external_body]
pub(crate) fn debug_str(s: &str) -> (r: String)
    ensures
        r@ == str_debug_text(s@),
{
    format!("{:?}", s)
}

/// A text in the brackets of a name.
pub open spec fn bracketed(name: Seq<char>, inner: Seq<char>) -> Seq<char> {
    name + "("@ + inner + ")"@
}

pub(crate) fn bracket(name: &str, inner: &str) -> (r: String)
    ensures
        r@ == bracketed(name@, inner@),
{
    let mut m: String = text::concat3(name, "(", inner);
    m.append(")");
    m
}

pub open spec fn bool_text(b: bool) -> Seq<char> {
    if b {
        "true"@
    } else {
        "false"@
    }
}

pub(crate) fn show_bool(b: bool) -> (r: String)
    ensures
        r@ == bool_text(b),
{
    if b {
        "true".to_owned()
    } else {
        "false".to_owned()
    }
}

/// The digits of a whole number, behind a minus sign where it is below zero.
pub open spec fn integer_text(n: int) -> Seq<char> {
    if n < 0 {
        "-"@ + text::decimal((-n) as nat)
    } else {
        text::decimal(n as nat)
    }
}

fn show_integer(n: i64) -> (r: String)
    ensures
        r@ == integer_text(n as int),
{
    if n < 0 {
        let mut m: String = "-".to_owned();
        text::append_decimal(&mut m, (-(n as i128)) as u128);
        m
    } else {
        show_number(n as u128)
    }
}

pub(crate) fn show_number(n: u128) -> (r: String)
    ensures
        r@ == text::decimal(n as nat),
{
    let mut m: String = String::new();
    text::append_decimal(&mut m, n);
    assert(m@ =~= text::decimal(n as nat));
    m
}

/// A text that more follows, separated from it by a comma, unless it is the first.
pub open spec fn and_then_text(before: Seq<char>, first: bool, more: Seq<char>) -> Seq<char> {
    if first {
        more
    } else {
        before + ", "@ + more
    }
}

pub(crate) fn add_item(out: String, first: bool, more: String) -> (r: String)
    ensures
        r@ == and_then_text(out@, first, more@),
{
    if first {
        more
    } else {
        text::concat3(out.as_str(), ", ", more.as_str())
    }
}

/// The first `n` numbers, separated by commas.
pub open spec fn numbers_text(s: Seq<nat>, n: nat) -> Seq<char>
    decreases n,
{
    if n == 0 || n > s.len() {
        Seq::empty()
    } else {
        and_then_text(numbers_text(s, (n - 1) as nat), n == 1, text::decimal(s[n - 1]))
    }
}

pub open spec fn octet_numbers(s: Seq<u8>) -> Seq<nat> {
    Seq::new(s.len(), |i: int| s[i] as nat)
}

pub open spec fn word_numbers(s: Seq<u32>) -> Seq<nat> {
    Seq::new(s.len(), |i: int| s[i] as nat)
}

fn show_octets(v: &Vec<u8>) -> (r: String)
    ensures
        r@ == numbers_text(octet_numbers(v@), v@.len()),
{
    let mut out: String = String::new();
    assert(out@ =~= numbers_text(octet_numbers(v@), 0));
    for i in 0..v.len()
        invariant
            out@ == numbers_text(octet_numbers(v@), i as nat),
    {
        out = add_item(out, i == 0, show_number(v[i] as u128));
    }
    out
}

fn show_words(v: &Vec<u32>) -> (r: String)
    ensures
        r@ == numbers_text(word_numbers(v@), v@.len()),
{
    let mut out: String = String::new();
    assert(out@ =~= numbers_text(word_numbers(v@), 0));
    for i in 0..v.len()
        invariant
            out@ == numbers_text(word_numbers(v@), i as nat),
    {
        out = add_item(out, i == 0, show_number(v[i] as u128));
    }
    out
}

/// A moment: as it is spelled in UTC, or its parts where it has no spelling.
pub open spec fn timestamp_text(t: Timestamp) -> Seq<char> {
    match parsing::moment_text(t) {
        Some(s) => s,
        None => "Timestamp { secs: "@ + integer_text(t.secs as int) + ", nanos: "@ + text::decimal(
            t.nanos as nat,
        ) + " }"@,
    }
}

/// A time of day: as it is spelled, or its parts where it is none.
pub open spec fn time_of_day_text(t: TimeOfDay) -> Seq<char> {
    match parsing::time_text(t) {
        Some(s) => s,
        None => "TimeOfDay { secs: "@ + text::decimal(t.secs as nat) + ", nanos: "@ + text::decimal(
            t.nanos as nat,
        ) + " }"@,
    }
}

/// A day: as it is spelled, or its number where it has no spelling.
pub open spec fn day_text(n: i32) -> Seq<char> {
    match parsing::date_text(n) {
        Some(s) => s,
        None => integer_text(n as int),
    }
}

pub open spec fn interval_text(i: Interval) -> Seq<char> {
    "Interval { months: "@ + integer_text(i.months as int) + ", days: "@ + integer_text(
        i.days as int,
    ) + ", micros: "@ + integer_text(i.micros as int) + " }"@
}

fn show_timestamp(t: Timestamp) -> (r: String)
    ensures
        r@ == timestamp_text(t),
{
    match parsing::show_moment(t) {
        Some(s) => s,
        None => {
            let mut m: String = text::concat3(
                "Timestamp { secs: ",
                show_integer(t.secs).as_str(),
                ", nanos: ",
            );
            m.append(show_number(t.nanos as u128).as_str());
            m.append(" }");
            m
        },
    }
}

fn show_time_of_day(t: TimeOfDay) -> (r: String)
    ensures
        r@ == time_of_day_text(t),
{
    match parsing::show_time(t) {
        Some(s) => s,
        None => {
            let mut m: String = text::concat3(
                "TimeOfDay { secs: ",
                show_number(t.secs as u128).as_str(),
                ", nanos: ",
            );
            m.append(show_number(t.nanos as u128).as_str());
            m.append(" }");
            m
        },
    }
}

fn show_day(n: i32) -> (r: String)
    ensures
        r@ == day_text(n),
{
    match parsing::show_date(n) {
        Some(s) => s,
        None => show_integer(n as i64),
    }
}

fn show_interval(i: Interval) -> (r: String)
    ensures
        r@ == interval_text(i),
{
    let mut m: String = text::concat3(
        "Interval { months: ",
        show_integer(i.months as i64).as_str(),
        ", days: ",
    );
    m.append(show_integer(i.days as i64).as_str());
    m.append(", micros: ");
    m.append(show_integer(i.micros).as_str());
    m.append(" }");
    m
}

/// A value as messages show it: the name of its kind and what it holds. Times and UUIDs
/// are spelled, floats are shown as their bits.
pub open spec fn value_text(v: ValueModel) -> Seq<char>
    decreases v, 0nat,
{
    match v {
        ValueModel::Null => "Null"@,
        ValueModel::Boolean(b) => bracketed("Boolean"@, bool_text(b)),
        ValueModel::Int2(n) => bracketed("Int2"@, integer_text(n as int)),
        ValueModel::Int4(n) => bracketed("Int4"@, integer_text(n as int)),
        ValueModel::Int8(n) => bracketed("Int8"@, integer_text(n as int)),
        ValueModel::Float4(n) => bracketed("Float4"@, text::decimal(n as nat)),
        ValueModel::Float8(n) => bracketed("Float8"@, text::decimal(n as nat)),
        ValueModel::Numeric(s) => bracketed("Numeric"@, str_debug_text(s)),
        ValueModel::String(s) => bracketed("String"@, str_debug_text(s)),
        ValueModel::Bytes(b) => bracketed(
            "Bytes"@,
            "["@ + numbers_text(octet_numbers(b), b.len()) + "]"@,
        ),
        ValueModel::Uuid(n) => bracketed("Uuid"@, parsing::uuid_text(n)),
        ValueModel::Timestamp(t) => bracketed("Timestamp"@, timestamp_text(t)),
        ValueModel::Date(n) => bracketed("Date"@, day_text(n)),
        ValueModel::Time(t) => bracketed("Time"@, time_of_day_text(t)),
        ValueModel::Interval(i) => bracketed("Interval"@, interval_text(i)),
        ValueModel::Json(s) => bracketed("Json"@, str_debug_text(s)),
        ValueModel::Array(items) => bracketed(
            "Array"@,
            "["@ + values_text(items, items.len()) + "]"@,
        ),
        ValueModel::Vector(w) => bracketed(
            "Vector"@,
            "["@ + numbers_text(word_numbers(w), w.len()) + "]"@,
        ),
        ValueModel::DictRef { dict_id } => "DictRef { dict_id: "@ + text::decimal(dict_id as nat)
            + " }"@,
        ValueModel::CasRef { hash } => "CasRef { hash: "@ + text::decimal(hash as nat) + " }"@,
        ValueModel::ColumnarRef => "ColumnarRef"@,
    }
}

/// The first `n` values, separated by commas.
pub open spec fn values_text(s: Seq<ValueModel>, n: nat) -> Seq<char>
    decreases s, n,
{
    if n == 0 || n > s.len() {
        Seq::empty()
    } else {
        and_then_text(values_text(s, (n - 1) as nat), n == 1, value_text(s[n - 1]))
    }
}

/// Shows a value in a message.
pub fn show_value(v: &Value) -> (r: String)
    ensures
        r@ == value_text(v@),
    decreases v, 0nat,
{
    match v {
        Value::Null => "Null".to_owned(),
        Value::Boolean(b) => bracket("Boolean", show_bool(*b).as_str()),
        Value::Int2(n) => bracket("Int2", show_integer(*n as i64).as_str()),
        Value::Int4(n) => bracket("Int4", show_integer(*n as i64).as_str()),
        Value::Int8(n) => bracket("Int8", show_integer(*n).as_str()),
        Value::Float4(n) => bracket("Float4", show_number(*n as u128).as_str()),
        Value::Float8(n) => bracket("Float8", show_number(*n as u128).as_str()),
        Value::Numeric(s) => bracket("Numeric", debug_str(s.as_str()).as_str()),
        Value::String(s) => bracket("String", debug_str(s.as_str()).as_str()),
        Value::Bytes(b) => bracket(
            "Bytes",
            text::concat3("[", show_octets(b).as_str(), "]").as_str(),
        ),
        Value::Uuid(n) => bracket("Uuid", parsing::show_uuid(*n).as_str()),
        Value::Timestamp(t) => bracket("Timestamp", show_timestamp(*t).as_str()),
        Value::Date(n) => bracket("Date", show_day(*n).as_str()),
        Value::Time(t) => bracket("Time", show_time_of_day(*t).as_str()),
        Value::Interval(i) => bracket("Interval", show_interval(*i).as_str()),
        Value::Json(s) => bracket("Json", debug_str(s.as_str()).as_str()),
        Value::Array(items) => bracket(
            "Array",
            text::concat3("[", show_values(items).as_str(), "]").as_str(),
        ),
        Value::Vector(w) => bracket(
            "Vector",
            text::concat3("[", show_words(w).as_str(), "]").as_str(),
        ),
        Value::DictRef { dict_id } => text::concat3(
            "DictRef { dict_id: ",
            show_number(*dict_id as u128).as_str(),
            " }",
        ),
        Value::CasRef { hash } => text::concat3(
            "CasRef { hash: ",
            show_number(*hash).as_str(),
            " }",
        ),
        Value::ColumnarRef => "ColumnarRef".to_owned(),
    }
}

pub(crate) fn show_values(v: &Vec<Value>) -> (r: String)
    ensures
        r@ == values_text(value::values_model(v@), v@.len()),
    decreases v, 1nat,
{
    let ghost s = value::values_model(v@);
    proof {
        value::lemma_values_model(v@);
    }
    let mut out: String = String::new();
    assert(out@ =~= values_text(s, 0));
    for i in 0..v.len()
        invariant
            s == value::values_model(v@),
            s.len() == v@.len(),
            forall|j: int| 0 <= j < v@.len() ==> (#[trigger] s[j]) == v@[j]@,
            out@ == values_text(s, i as nat),
    {
        assert(s[i as int] == v@[i as int]@);
        out = add_item(out, i == 0, show_value(&v[i]));
    }
    out
}

/// A point in time as plans show it.
pub open spec fn as_of_text(a: AsOfModel) -> Seq<char> {
    match a {
        AsOfModel::Timestamp(t) => bracketed("Timestamp"@, str_debug_text(t)),
        AsOfModel::Transaction(n) => bracketed("Transaction"@, text::decimal(n as nat)),
        AsOfModel::Scn(n) => bracketed("Scn"@, text::decimal(n as nat)),
        AsOfModel::VersionsBetween { start, end } => "VersionsBetween { start: "@ + str_debug_text(
            start,
        ) + ", end: "@ + str_debug_text(end) + " }"@,
    }
}

/// Shows a point in time.
pub fn show_as_of(a: &AsOfClause) -> (r: String)
    ensures
        r@ == as_of_text(a@),
{
    match a {
        AsOfClause::Timestamp(t) => bracket("Timestamp", debug_str(t.as_str()).as_str()),
        AsOfClause::Transaction(n) => bracket("Transaction", show_number(*n as u128).as_str()),
        AsOfClause::Scn(n) => bracket("Scn", show_number(*n as u128).as_str()),
        AsOfClause::VersionsBetween { start, end } => {
            let mut m: String = text::concat3(
                "VersionsBetween { start: ",
                debug_str(start.as_str()).as_str(),
                ", end: ",
            );
            m.append(debug_str(end.as_str()).as_str());
            m.append(" }");
            m
        },
    }
}

pub open spec fn data_type_text(t: DataType) -> Seq<char>
    decreases t,
{
    match t {
        DataType::Boolean => "Boolean"@,
        DataType::Int2 => "Int2"@,
        DataType::Int4 => "Int4"@,
        DataType::Int8 => "Int8"@,
        DataType::Float4 => "Float4"@,
        DataType::Float8 => "Float8"@,
        DataType::Numeric => "Numeric"@,
        DataType::Text => "Text"@,
        DataType::Bytea => "Bytea"@,
        DataType::Uuid => "Uuid"@,
        DataType::Date => "Date"@,
        DataType::Time => "Time"@,
        DataType::Timestamp => "Timestamp"@,
        DataType::Timestamptz => "Timestamptz"@,
        DataType::Interval => "Interval"@,
        DataType::Json => "Json"@,
        DataType::Jsonb => "Jsonb"@,
        DataType::Varchar(n) => bracketed("Varchar"@, opt_number_text(n)),
        DataType::Char(n) => bracketed("Char"@, text::decimal(n as nat)),
        DataType::Vector(n) => bracketed("Vector"@, text::decimal(n as nat)),
        DataType::Array(inner) => bracketed("Array"@, data_type_text(*inner)),
    }
}

pub(crate) fn show_data_type(t: &DataType) -> (r: String)
    ensures
        r@ == data_type_text(*t),
    decreases t,
{
    match t {
        DataType::Boolean => "Boolean".to_owned(),
        DataType::Int2 => "Int2".to_owned(),
        DataType::Int4 => "Int4".to_owned(),
        DataType::Int8 => "Int8".to_owned(),
        DataType::Float4 => "Float4".to_owned(),
        DataType::Float8 => "Float8".to_owned(),
        DataType::Numeric => "Numeric".to_owned(),
        DataType::Text => "Text".to_owned(),
        DataType::Bytea => "Bytea".to_owned(),
        DataType::Uuid => "Uuid".to_owned(),
        DataType::Date => "Date".to_owned(),
        DataType::Time => "Time".to_owned(),
        DataType::Timestamp => "Timestamp".to_owned(),
        DataType::Timestamptz => "Timestamptz".to_owned(),
        DataType::Interval => "Interval".to_owned(),
        DataType::Json => "Json".to_owned(),
        DataType::Jsonb => "Jsonb".to_owned(),
        DataType::Varchar(n) => bracket("Varchar", show_opt_number(*n).as_str()),
        DataType::Char(n) => bracket("Char", show_number(*n as u128).as_str()),
        DataType::Vector(n) => bracket("Vector", show_number(*n as u128).as_str()),
        DataType::Array(inner) => bracket("Array", show_data_type(inner).as_str()),
    }
}

pub open spec fn opt_number_text(n: Option<usize>) -> Seq<char> {
    match n {
        Some(n) => bracketed("Some"@, text::decimal(n as nat)),
        None => "None"@,
    }
}

pub(crate) fn show_opt_number(n: Option<usize>) -> (r: String)
    ensures
        r@ == opt_number_text(n),
{
    match n {
        Some(n) => bracket("Some", show_number(n as u128).as_str()),
        None => "None".to_owned(),
    }
}

pub open spec fn opt_id_text(n: Option<u64>) -> Seq<char> {
    match n {
        Some(n) => bracketed("Some"@, text::decimal(n as nat)),
        None => "None"@,
    }
}

fn show_opt_id(n: Option<u64>) -> (r: String)
    ensures
        r@ == opt_id_text(n),
{
    match n {
        Some(n) => bracket("Some", show_number(n as u128).as_str()),
        None => "None".to_owned(),
    }
}

pub open spec fn opt_text_text(s: Option<Seq<char>>) -> Seq<char> {
    match s {
        Some(t) => bracketed("Some"@, str_debug_text(t)),
        None => "None"@,
    }
}

pub(crate) fn show_opt_text(s: &Option<String>) -> (r: String)
    ensures
        r@ == opt_text_text(schema::opt_text(*s)),
{
    match s {
        Some(t) => bracket("Some", debug_str(t.as_str()).as_str()),
        None => "None".to_owned(),
    }
}

/// What stands between the brackets of a list.
pub open spec fn listed(s: Seq<char>) -> Seq<char> {
    "["@ + s + "]"@
}

pub(crate) fn show_listed(s: String) -> (r: String)
    ensures
        r@ == listed(s@),
{
    text::concat3("[", s.as_str(), "]")
}

/// The first `n` texts, separated by commas.
pub open spec fn texts_text(s: Seq<Seq<char>>, n: nat) -> Seq<char>
    decreases n,
{
    if n == 0 || n > s.len() {
        Seq::empty()
    } else {
        and_then_text(texts_text(s, (n - 1) as nat), n == 1, str_debug_text(s[n - 1]))
    }
}

pub(crate) fn show_texts(v: &Vec<String>) -> (r: String)
    ensures
        r@ == listed(texts_text(schema::texts(v@), schema::texts(v@).len())),
{
    let ghost s = schema::texts(v@);
    let mut out: String = String::new();
    assert(out@ =~= texts_text(s, 0));
    for i in 0..v.len()
        invariant
            s == schema::texts(v@),
            s.len() == v@.len(),
            out@ == texts_text(s, i as nat),
    {
        assert(s[i as int] == v@[i as int]@);
        out = add_item(out, i == 0, debug_str(v[i].as_str()));
    }
    show_listed(out)
}

pub open spec fn storage_mode_text(x: ColumnStorageMode) -> Seq<char> {
    match x {
        ColumnStorageMode::Default => "Default"@,
        ColumnStorageMode::Dictionary => "Dictionary"@,
        ColumnStorageMode::ContentAddressed => "ContentAddressed"@,
        ColumnStorageMode::Columnar => "Columnar"@,
    }
}

fn show_storage_mode(x: ColumnStorageMode) -> (r: String)
    ensures
        r@ == storage_mode_text(x),
{
    match x {
        ColumnStorageMode::Default => "Default".to_owned(),
        ColumnStorageMode::Dictionary => "Dictionary".to_owned(),
        ColumnStorageMode::ContentAddressed => "ContentAddressed".to_owned(),
        ColumnStorageMode::Columnar => "Columnar".to_owned(),
    }
}

pub open spec fn column_text(x: ColumnModel) -> Seq<char> {
    "Column { name: "@ + str_debug_text(x.name) + ", data_type: "@ + data_type_text(x.data_type)
            + ", nullable: "@ + bool_text(x.nullable) + ", primary_key: "@
            + bool_text(x.primary_key) + ", source_table: "@ + opt_text_text(x.source_table)
            + ", source_table_name: "@ + opt_text_text(x.source_table_name) + ", default_expr: "@
            + opt_text_text(x.default_expr) + ", unique: "@ + bool_text(x.unique)
            + ", storage_mode: "@ + storage_mode_text(x.storage_mode) + " }"@
}

fn show_column(x: &Column) -> (r: String)
    ensures
        r@ == column_text(x@),
{
    let mut m: String = text::concat3(
        "Column { name: ",
        debug_str(x.name.as_str()).as_str(),
        ", data_type: ",
    );
    m.append(show_data_type(&x.data_type).as_str());
    m.append(", nullable: ");
    m.append(show_bool(x.nullable).as_str());
    m.append(", primary_key: ");
    m.append(show_bool(x.primary_key).as_str());
    m.append(", source_table: ");
    m.append(show_opt_text(&x.source_table).as_str());
    m.append(", source_table_name: ");
    m.append(show_opt_text(&x.source_table_name).as_str());
    m.append(", default_expr: ");
    m.append(show_opt_text(&x.default_expr).as_str());
    m.append(", unique: ");
    m.append(show_bool(x.unique).as_str());
    m.append(", storage_mode: ");
    m.append(show_storage_mode(x.storage_mode).as_str());
    m.append(" }");
    m
}

/// The first `n` columns, separated by commas.
pub open spec fn columns_text(s: Seq<ColumnModel>, n: nat) -> Seq<char>
    decreases n,
{
    if n == 0 || n > s.len() {
        Seq::empty()
    } else {
        and_then_text(columns_text(s, (n - 1) as nat), n == 1, column_text(s[n - 1]))
    }
}

fn show_columns(v: &Vec<Column>) -> (r: String)
    ensures
        r@ == listed(columns_text(schema::columns_model(v@), schema::columns_model(v@).len())),
{
    let ghost s = schema::columns_model(v@);
    let mut out: String = String::new();
    assert(out@ =~= columns_text(s, 0));
    for i in 0..v.len()
        invariant
            s == schema::columns_model(v@),
            s.len() == v@.len(),
            out@ == columns_text(s, i as nat),
    {
        assert(s[i as int] == v@[i as int]@);
        out = add_item(out, i == 0, show_column(&v[i]));
    }
    show_listed(out)
}

pub open spec fn schema_text(s: Seq<ColumnModel>) -> Seq<char> {
    "Schema { columns: "@ + listed(columns_text(s, s.len())) + " }"@
}

pub(crate) fn show_schema(s: &Schema) -> (r: String)
    ensures
        r@ == schema_text(s@),
{
    text::concat3("Schema { columns: ", show_columns(&s.columns).as_str(), " }")
}

fn show_value_list(v: &Vec<Value>) -> (r: String)
    ensures
        r@ == listed(values_text(value::values_model(v@), value::values_model(v@).len())),
{
    proof {
        value::lemma_values_model(v@);
    }
    show_listed(show_values(v))
}

pub open spec fn row_text(x: TupleModel) -> Seq<char> {
    "Tuple { values: "@ + listed(values_text(x.values, x.values.len())) + ", row_id: "@
            + opt_id_text(x.row_id) + ", branch_id: "@ + opt_id_text(x.branch_id) + " }"@
}

fn show_row(x: &Tuple) -> (r: String)
    ensures
        r@ == row_text(x@),
{
    let mut m: String = text::concat3(
        "Tuple { values: ",
        show_value_list(&x.values).as_str(),
        ", row_id: ",
    );
    m.append(show_opt_id(x.row_id).as_str());
    m.append(", branch_id: ");
    m.append(show_opt_id(x.branch_id).as_str());
    m.append(" }");
    m
}

/// The first `n` rows, separated by commas.
pub open spec fn rows_text(s: Seq<TupleModel>, n: nat) -> Seq<char>
    decreases n,
{
    if n == 0 || n > s.len() {
        Seq::empty()
    } else {
        and_then_text(rows_text(s, (n - 1) as nat), n == 1, row_text(s[n - 1]))
    }
}

pub(crate) fn show_rows(v: &Vec<Tuple>) -> (r: String)
    ensures
        r@ == listed(rows_text(schema::rows_model(v@), schema::rows_model(v@).len())),
{
    let ghost s = schema::rows_model(v@);
    let mut out: String = String::new();
    assert(out@ =~= rows_text(s, 0));
    for i in 0..v.len()
        invariant
            s == schema::rows_model(v@),
            s.len() == v@.len(),
            out@ == rows_text(s, i as nat),
    {
        assert(s[i as int] == v@[i as int]@);
        out = add_item(out, i == 0, show_row(&v[i]));
    }
    show_listed(out)
}

} // verus!
