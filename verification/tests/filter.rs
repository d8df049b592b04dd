use helios_exec::executor::filter::FilterOperator;
use helios_exec::executor::operator::PhysicalOperator;
use helios_exec::executor::scan::ScanOperator;
use helios_exec::logical_plan::{BinaryOperator, LogicalExpr};
use helios_exec::schema::{Column, ColumnStorageMode, Schema, Tuple};
use helios_exec::value::{DataType, Value};
use std::sync::Arc;

fn test_column(name: &str) -> Column {
    Column {
        name: name.to_string(),
        data_type: DataType::Int4,
        nullable: true,
        primary_key: false,
        source_table: Some("t".to_string()),
        source_table_name: Some("t".to_string()),
        default_expr: None,
        unique: false,
        storage_mode: ColumnStorageMode::Default,
    }
}

fn test_scan() -> ScanOperator {
    let schema = Arc::new(Schema {
        columns: vec![test_column("id"), test_column("age")],
    });
    ScanOperator::new(
        "t".to_string(),
        schema,
        None,
        vec![
            Tuple::new(vec![Value::Int4(1), Value::Int4(25)]),
            Tuple::new(vec![Value::Int4(2), Value::Int4(42)]),
            Tuple::new(vec![Value::Int4(3), Value::Null]),
        ],
        Vec::new(),
    )
}

fn column(name: &str) -> LogicalExpr {
    LogicalExpr::Column {
        table: Some("t".to_string()),
        name: name.to_string(),
    }
}

fn binary(left: LogicalExpr, op: BinaryOperator, right: LogicalExpr) -> LogicalExpr {
    LogicalExpr::BinaryExpr {
        left: Box::new(left),
        op,
        right: Box::new(right),
    }
}

#[test]
fn filter_operator_uses_direct_comparisons_for_and_predicate() {
    let predicate = binary(
        binary(column("id"), BinaryOperator::Gt, LogicalExpr::Literal(Value::Int4(1))),
        BinaryOperator::And,
        binary(column("age"), BinaryOperator::Eq, LogicalExpr::Parameter { index: 1 }),
    );
    let mut filter = FilterOperator::new(Box::new(test_scan()), predicate, vec![Value::Int4(42)]);

    assert!(filter.direct_filter().is_some());
    let row = filter.next().unwrap().unwrap();
    assert_eq!(row.values, vec![Value::Int4(2), Value::Int4(42)]);
    assert!(filter.next().unwrap().is_none());
}

#[test]
fn filter_operator_uses_direct_is_null() {
    let predicate = LogicalExpr::IsNull {
        expr: Box::new(column("age")),
        is_null: true,
    };
    let mut filter = FilterOperator::new(Box::new(test_scan()), predicate, Vec::new());

    assert!(filter.direct_filter().is_some());
    let row = filter.next().unwrap().unwrap();
    assert_eq!(row.values, vec![Value::Int4(3), Value::Null]);
    assert!(filter.next().unwrap().is_none());
}

#[test]
fn a_filter_that_is_no_truth_value_is_an_error() {
    let mut filter = FilterOperator::new(Box::new(test_scan()), column("age"), Vec::new());
    assert!(filter.direct_filter().is_none());
    let message = filter.next().err().unwrap().to_string();
    assert!(message.contains("Filter predicate must evaluate to boolean"), "{message}");
}
