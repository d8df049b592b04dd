use helios_exec::executor::operator::PhysicalOperator;
use helios_exec::executor::project::{LimitOperator, ProjectOperator};
use helios_exec::executor::scan::ScanOperator;
use helios_exec::logical_plan::LogicalExpr;
use helios_exec::schema::{Column, ColumnStorageMode, Schema, Tuple};
use helios_exec::value::{DataType, Value};
use std::sync::Arc;

fn test_column(name: &str, source: Option<&str>) -> Column {
    Column {
        name: name.to_string(),
        data_type: DataType::Int4,
        nullable: false,
        primary_key: false,
        source_table: source.map(str::to_string),
        source_table_name: source.map(str::to_string),
        default_expr: None,
        unique: false,
        storage_mode: ColumnStorageMode::Default,
    }
}

fn numbers(values: &[i32]) -> ScanOperator {
    ScanOperator::new(
        "t".to_string(),
        Arc::new(Schema {
            columns: vec![test_column("n", Some("t"))],
        }),
        None,
        values.iter().map(|v| Tuple::new(vec![Value::Int4(*v)])).collect(),
        Vec::new(),
    )
}

#[test]
fn project_operator_uses_direct_indices_for_plain_columns() {
    let schema = Arc::new(Schema {
        columns: vec![
            test_column("id", Some("u")),
            test_column("age", Some("u")),
            test_column("amount", Some("o")),
        ],
    });
    let scan = ScanOperator::new(
        "joined".to_string(),
        schema,
        None,
        vec![Tuple::new(vec![Value::Int4(1), Value::Int4(42), Value::Int4(99)])],
        Vec::new(),
    );
    let mut project = ProjectOperator::new(
        Box::new(scan),
        vec![
            LogicalExpr::Column {
                table: Some("u".to_string()),
                name: "age".to_string(),
            },
            LogicalExpr::Column {
                table: Some("o".to_string()),
                name: "amount".to_string(),
            },
        ],
        vec!["age".to_string(), "amount".to_string()],
        false,
        Vec::new(),
    );

    assert_eq!(project.direct_column_indices(), Some(&vec![1, 2]));
    let row = project.next().unwrap().unwrap();
    assert_eq!(row.values, vec![Value::Int4(42), Value::Int4(99)]);
}

#[test]
fn test_limit_operator() {
    let schema = Arc::new(Schema {
        columns: vec![Column {
            name: "id".to_string(),
            data_type: DataType::Int4,
            nullable: false,
            primary_key: true,
            source_table: None,
            source_table_name: None,
            default_expr: None,
            unique: false,
            storage_mode: ColumnStorageMode::Default,
        }],
    });

    let scan = ScanOperator::new("test".to_string(), schema.clone(), None, Vec::new(), Vec::new());
    let mut limit = LimitOperator::new(Box::new(scan), 10, 0);
    assert!(limit.next().expect("Failed to execute limit").is_none());
}

#[test]
fn a_limit_skips_and_then_takes() {
    let mut limit = LimitOperator::new(Box::new(numbers(&[1, 2, 3, 4, 5])), 2, 1);
    let mut seen = Vec::new();
    while let Some(row) = limit.next().unwrap() {
        seen.push(row.values[0].clone());
    }
    assert_eq!(seen, vec![Value::Int4(2), Value::Int4(3)]);
}

#[test]
fn distinct_keeps_the_first_of_equal_rows() {
    let column = LogicalExpr::Column {
        table: None,
        name: "n".to_string(),
    };
    let mut project = ProjectOperator::new(
        Box::new(numbers(&[3, 1, 3, 2, 1])),
        vec![column],
        vec!["n".to_string()],
        true,
        Vec::new(),
    );
    let mut seen = Vec::new();
    while let Some(row) = project.next().unwrap() {
        seen.push(row.values[0].clone());
    }
    assert_eq!(seen, vec![Value::Int4(3), Value::Int4(1), Value::Int4(2)]);
}

#[test]
fn distinct_on_keeps_the_first_row_of_each_key_and_its_place() {
    let column = |name: &str| LogicalExpr::Column { table: None, name: name.to_string() };
    let rows = [(1, 10), (2, 20), (1, 11), (3, 10), (2, 21)];
    let tuples = rows
        .iter()
        .enumerate()
        .map(|(i, (k, v))| {
            let mut t = Tuple::new(vec![Value::Int4(*k), Value::Int4(*v)]);
            t.row_id = Some(i as u64 + 100);
            t
        })
        .collect();
    let schema = Schema { columns: vec![test_column("k", Some("t")), test_column("v", Some("t"))] };
    let mut project = ProjectOperator::new_with_distinct_on(
        Box::new(ScanOperator::new("t".to_string(), Arc::new(schema), None, tuples, Vec::new())),
        vec![column("v")],
        vec!["v".to_string()],
        false,
        Some(vec![column("k")]),
        Vec::new(),
    );
    let mut seen = Vec::new();
    while let Some(row) = project.next().unwrap() {
        seen.push((row.values[0].clone(), row.row_id));
    }
    assert_eq!(
        seen,
        vec![
            (Value::Int4(10), Some(100)),
            (Value::Int4(20), Some(101)),
            (Value::Int4(10), Some(103)),
        ]
    );
}
