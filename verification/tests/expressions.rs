use helios_exec::compare::compare_direct_values;
use helios_exec::debug_text::show_value;
use helios_exec::evaluator::Evaluator;
use helios_exec::executor::join_table::values_equal_for_join;
use helios_exec::float_bits::{float4_to_float8, int_to_float4, int_to_float8};
use helios_exec::logical_plan::{BinaryOperator, LogicalExpr, UnaryOperator};
use helios_exec::operators::{apply_arithmetic, concatenate, match_pattern, negate, number_or_null};
use helios_exec::schema::{Column, Schema, Tuple};
use helios_exec::text::Order;
use helios_exec::value::{DataType, TimeOfDay, Timestamp, Value};
use std::sync::Arc;

fn text(s: &str) -> Value {
    Value::String(s.to_string())
}

fn lit(v: Value) -> LogicalExpr {
    LogicalExpr::Literal(v)
}

fn num(n: i32) -> LogicalExpr {
    lit(Value::Int4(n))
}

fn col(name: &str) -> LogicalExpr {
    LogicalExpr::Column { table: None, name: name.to_string() }
}

fn bin(left: LogicalExpr, op: BinaryOperator, right: LogicalExpr) -> LogicalExpr {
    LogicalExpr::BinaryExpr { left: Box::new(left), op, right: Box::new(right) }
}

/// What an expression is on the row (7, 'pq').
fn value_of(e: &LogicalExpr) -> String {
    let schema = Arc::new(Schema {
        columns: vec![Column::new("a", DataType::Int4), Column::new("b", DataType::Text)],
    });
    match Evaluator::new(schema).evaluate(e, &Tuple::new(vec![Value::Int4(7), text("pq")])) {
        Ok(v) => format!("{:?}", v),
        Err(e) => e.to_string(),
    }
}

fn arithmetic(a: Value, op: BinaryOperator, b: Value) -> String {
    match apply_arithmetic(&a, op, &b) {
        Some(Ok(v)) => format!("{:?}", v),
        Some(Err(e)) => e.to_string(),
        None => "none".to_string(),
    }
}

fn float(x: f64) -> Value {
    Value::Float8(x.to_bits())
}

fn short(x: f32) -> Value {
    Value::Float4(x.to_bits())
}

#[test]
fn integers_are_computed_in_the_wider_width() {
    assert_eq!(arithmetic(Value::Int4(2), BinaryOperator::Plus, Value::Int4(3)), "Int4(5)");
    assert_eq!(arithmetic(Value::Int2(2), BinaryOperator::Minus, Value::Int8(3)), "Int8(-1)");
    assert_eq!(arithmetic(Value::Int2(6), BinaryOperator::Multiply, Value::Int2(7)), "Int2(42)");
    assert_eq!(arithmetic(Value::Int4(-7), BinaryOperator::Divide, Value::Int4(2)), "Int4(-3)");
    assert_eq!(arithmetic(Value::Int4(-7), BinaryOperator::Modulo, Value::Int4(2)), "Int4(-1)");
    assert_eq!(arithmetic(Value::Null, BinaryOperator::Plus, Value::Int4(2)), "Null");
    assert_eq!(arithmetic(Value::Int4(i32::MAX), BinaryOperator::Plus, Value::Int4(1)), "integer out of range");
    assert_eq!(arithmetic(Value::Int8(i64::MIN), BinaryOperator::Divide, Value::Int8(-1)), "integer out of range");
    assert_eq!(arithmetic(Value::Int4(1), BinaryOperator::Divide, Value::Int4(0)), "division by zero");
    assert_eq!(arithmetic(Value::Int4(1), BinaryOperator::Modulo, Value::Int4(0)), "division by zero");
    assert_eq!(arithmetic(text("x"), BinaryOperator::Plus, Value::Int4(1)), "none");
    assert_eq!(value_of(&bin(col("a"), BinaryOperator::Plus, num(1))), "Int4(8)");
    assert_eq!(value_of(&bin(bin(col("a"), BinaryOperator::Multiply, num(2)), BinaryOperator::Minus, num(1))), "Int4(13)");
}

#[test]
fn signs_turn_numbers_and_leave_null() {
    assert!(matches!(negate(&Value::Int4(5)), Some(Ok(Value::Int4(-5)))));
    assert!(matches!(negate(&Value::Null), Some(Ok(Value::Null))));
    assert!(matches!(negate(&Value::Int2(i16::MIN)), Some(Err(_))));
    assert_eq!(negate(&float(1.5)).unwrap().unwrap(), float(-1.5));
    assert_eq!(negate(&short(-0.25)).unwrap().unwrap(), short(0.25));
    assert!(negate(&text("x")).is_none());
    assert!(number_or_null(&Value::Null) && number_or_null(&short(1.0)) && !number_or_null(&text("1")));
    let minus = LogicalExpr::UnaryExpr { op: UnaryOperator::Minus, expr: Box::new(col("a")) };
    assert_eq!(value_of(&minus), "Int4(-7)");
    let plus = LogicalExpr::UnaryExpr { op: UnaryOperator::Plus, expr: Box::new(col("a")) };
    assert_eq!(value_of(&plus), "Int4(7)");
}

#[test]
fn texts_are_put_together_and_matched() {
    assert_eq!(concatenate(&text("ab"), &text("c")), Some(text("abc")));
    assert_eq!(concatenate(&text("ab"), &Value::Null), Some(Value::Null));
    assert_eq!(concatenate(&text("ab"), &Value::Int4(1)), None);
    assert_eq!(value_of(&bin(col("b"), BinaryOperator::Concat, lit(text("!")))), "String(\"pq!\")");
    let like = |s: &str, p: &str| match_pattern(&text(s), &text(p), false);
    assert_eq!(like("abc", "a%"), Some(Value::Boolean(true)));
    assert_eq!(like("abc", "_b_"), Some(Value::Boolean(true)));
    assert_eq!(like("abc", "b%"), Some(Value::Boolean(false)));
    assert_eq!(like("a%c", "a\\%c"), Some(Value::Boolean(true)));
    assert_eq!(like("abc", "a\\%c"), Some(Value::Boolean(false)));
    assert_eq!(match_pattern(&text("abc"), &text("a%"), true), Some(Value::Boolean(false)));
    assert_eq!(match_pattern(&Value::Null, &text("a%"), false), Some(Value::Null));
    assert_eq!(value_of(&bin(col("b"), BinaryOperator::Like, lit(text("p_")))), "Boolean(true)");
}

#[test]
fn a_case_takes_its_first_true_branch() {
    let searched = |n: i32| LogicalExpr::Case {
        expr: None,
        when_then: vec![
            (bin(col("a"), BinaryOperator::Eq, lit(Value::Null)), num(1)),
            (bin(col("a"), BinaryOperator::Gt, num(n)), num(2)),
            (lit(Value::Boolean(true)), num(3)),
        ],
        else_result: None,
    };
    assert_eq!(value_of(&searched(5)), "Int4(2)");
    assert_eq!(value_of(&searched(9)), "Int4(3)");
    let simple = |on: i32, other: Option<Box<LogicalExpr>>| LogicalExpr::Case {
        expr: Some(Box::new(col("a"))),
        when_then: vec![(num(on), lit(text("hit")))],
        else_result: other,
    };
    assert_eq!(value_of(&simple(7, None)), "String(\"hit\")");
    assert_eq!(value_of(&simple(8, None)), "Null");
    assert_eq!(value_of(&simple(8, Some(Box::new(num(0))))), "Int4(0)");
}

#[test]
fn an_array_is_counted_from_one() {
    let at = |i: i32| LogicalExpr::ArraySubscript {
        array: Box::new(lit(Value::Array(vec![text("x"), text("y")]))),
        index: Box::new(num(i)),
    };
    assert_eq!(value_of(&at(2)), "String(\"y\")");
    assert_eq!(value_of(&at(0)), "Null");
    assert_eq!(value_of(&at(3)), "Null");
}

#[test]
fn what_is_not_computed_is_an_error() {
    let cast = LogicalExpr::Cast { expr: Box::new(col("a")), data_type: DataType::Text };
    let function = LogicalExpr::ScalarFunction { fun: "abs".to_string(), args: vec![col("a")] };
    for e in [cast, function, bin(col("b"), BinaryOperator::Plus, num(1))] {
        assert_eq!(value_of(&e), "Expression cannot be evaluated on a row");
    }
}

#[test]
fn integers_become_the_nearest_floats() {
    let near = [
        0,
        1,
        -1,
        3,
        (1i64 << 53) - 1,
        1i64 << 53,
        (1i64 << 53) + 1,
        (1i64 << 53) + 3,
        -(1i64 << 53) - 1,
        (1i64 << 24) + 1,
        (1i64 << 24) + 3,
        i64::MAX,
        i64::MIN,
        1_234_567_890_123_456_789,
    ];
    for n in near {
        assert_eq!(int_to_float8(n), (n as f64).to_bits(), "{n}");
        assert_eq!(int_to_float4(n), (n as f32).to_bits(), "{n}");
    }
    assert_eq!(int_to_float8(1), 0x3ff0_0000_0000_0000);
    assert_eq!(int_to_float4(-2), 0xc000_0000);
}

#[test]
fn short_floats_become_long_ones_of_the_same_number() {
    for x in [0.0f32, -0.0, 1.0, -1.5, 0.1, f32::MAX, f32::MIN_POSITIVE, f32::MIN_POSITIVE / 8.0, f32::INFINITY] {
        assert_eq!(float4_to_float8(x.to_bits()), (x as f64).to_bits(), "{x}");
    }
    assert!(f64::from_bits(float4_to_float8(f32::NAN.to_bits())).is_nan());
}

#[test]
fn numbers_of_different_types_compare_by_size() {
    let order = |a: &Value, b: &Value| compare_direct_values(a, b);
    assert!(matches!(order(&Value::Int4(1), &float(1.0)), Some(Order::Equal)));
    assert!(matches!(order(&Value::Int8(2), &float(2.5)), Some(Order::Less)));
    assert!(matches!(order(&short(2.5), &Value::Int2(2)), Some(Order::Greater)));
    assert!(matches!(order(&short(0.5), &float(0.5)), Some(Order::Equal)));
    assert!(matches!(order(&short(0.1), &float(0.1)), Some(Order::Greater)));
    assert!(order(&Value::Int4(1), &float(f64::NAN)).is_none());
    assert_eq!(value_of(&bin(col("a"), BinaryOperator::Lt, lit(float(7.5)))), "Boolean(true)");
    assert_eq!(value_of(&bin(col("a"), BinaryOperator::Eq, lit(float(7.0)))), "Boolean(true)");
}

#[test]
fn float_keys_meet_as_numbers() {
    assert!(values_equal_for_join(&float(0.0), &float(-0.0)));
    assert!(!values_equal_for_join(&float(f64::NAN), &float(f64::NAN)));
    assert!(values_equal_for_join(&short(1.5), &short(1.5)));
    let vector = |x: f32| Value::Vector(vec![x.to_bits()]);
    assert!(values_equal_for_join(&vector(0.0), &vector(-0.0)));
    assert!(!values_equal_for_join(&vector(f32::NAN), &vector(f32::NAN)));
}

#[test]
fn messages_spell_uuids_and_times() {
    let uuid = Value::Uuid(0x0123_4567_89ab_cdef_0123_4567_89ab_cdef);
    assert_eq!(show_value(&uuid), "Uuid(01234567-89ab-cdef-0123-456789abcdef)");
    assert_eq!(show_value(&Value::Date(2)), "Date(0001-01-02)");
    assert_eq!(show_value(&Value::Date(i32::MAX)), "Date(2147483647)");
    assert_eq!(show_value(&Value::Time(TimeOfDay { secs: 3723, nanos: 0 })), "Time(01:02:03)");
    let times = [
        (0, 0, "00:00:00"),
        (86_399, 0, "23:59:59"),
        (45_296, 120_000_000, "12:34:56.120"),
        (45_296, 120_500, "12:34:56.000120500"),
        (45_296, 7_000, "12:34:56.000007"),
        (86_399, 1_500_000_000, "23:59:60.500"),
    ];
    for (secs, nanos, shown) in times {
        assert_eq!(show_value(&Value::Time(TimeOfDay { secs, nanos })), format!("Time({})", shown));
    }
    for (secs, nanos) in [(86_400, 0), (0, 2_000_000_000), (0, 1_000_000_000)] {
        let t = Value::Time(TimeOfDay { secs, nanos });
        assert_eq!(show_value(&t), format!("{:?}", t));
    }
    assert_eq!(
        show_value(&Value::Timestamp(Timestamp { secs: 7, nanos: 0 })),
        "Timestamp(1970-01-01T00:00:07Z)"
    );
    assert_eq!(show_value(&text("a")), "String(\"a\")");
}
