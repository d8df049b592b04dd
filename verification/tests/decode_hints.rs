use helios_exec::executor::decode_hints::{
    compute_scan_decode_hint, compute_scan_decode_hints, compute_scan_prefix_hint,
    should_use_prefix_decode, should_use_selected_decode, ScanDecodeHint,
};
use helios_exec::executor::operator::PhysicalOperator;
use helios_exec::executor::scan::ScanOperator;
use helios_exec::logical_plan::{
    AggregateFunction, BinaryOperator, JoinType, LogicalExpr, LogicalPlan,
};
use helios_exec::schema::{Column, ColumnStorageMode, Schema};
use helios_exec::value::{DataType, Value};
use std::sync::Arc;

fn column(name: &str, data_type: DataType, nullable: bool, primary_key: bool) -> Column {
    Column {
        name: name.to_string(),
        data_type,
        nullable,
        primary_key,
        source_table: None,
        source_table_name: None,
        default_expr: None,
        unique: false,
        storage_mode: ColumnStorageMode::Default,
    }
}

fn test_schema() -> Arc<Schema> {
    Arc::new(Schema {
        columns: vec![
            column("id", DataType::Int4, false, true),
            column("k", DataType::Int4, false, false),
            column("payload", DataType::Text, true, false),
            column("note", DataType::Text, true, false),
        ],
    })
}

fn bare(name: &str) -> LogicalExpr {
    LogicalExpr::Column {
        table: None,
        name: name.to_string(),
    }
}

fn id_eq_seven() -> LogicalExpr {
    eq(bare("id"), LogicalExpr::Literal(Value::Int4(7)))
}

fn count_star() -> LogicalExpr {
    LogicalExpr::AggregateFunction {
        fun: AggregateFunction::Count,
        args: vec![LogicalExpr::Wildcard],
        distinct: false,
    }
}

fn col(table: &str, name: &str) -> LogicalExpr {
    LogicalExpr::Column {
        table: Some(table.to_string()),
        name: name.to_string(),
    }
}

fn eq(left: LogicalExpr, right: LogicalExpr) -> LogicalExpr {
    LogicalExpr::BinaryExpr {
        left: Box::new(left),
        op: BinaryOperator::Eq,
        right: Box::new(right),
    }
}

fn scan(table_name: &str, alias: Option<&str>, projection: Option<Vec<usize>>) -> LogicalPlan {
    LogicalPlan::Scan {
        table_name: table_name.to_string(),
        alias: alias.map(str::to_string),
        schema: test_schema(),
        projection,
        as_of: None,
    }
}

fn scan_with_alias(table_name: &str, alias: &str) -> LogicalPlan {
    scan(table_name, Some(alias), None)
}

fn filtered_scan(projection: Option<Vec<usize>>) -> LogicalPlan {
    LogicalPlan::FilteredScan {
        table_name: "w".to_string(),
        alias: None,
        schema: test_schema(),
        projection,
        predicate: Some(id_eq_seven()),
        as_of: None,
    }
}

fn filter_on_scan() -> LogicalPlan {
    LogicalPlan::Filter {
        input: Box::new(scan("w", None, None)),
        predicate: id_eq_seven(),
    }
}

fn project(input: LogicalPlan, exprs: Vec<LogicalExpr>, aliases: &[&str]) -> LogicalPlan {
    LogicalPlan::Project {
        input: Box::new(input),
        exprs,
        aliases: aliases.iter().map(|a| a.to_string()).collect(),
        distinct: false,
        distinct_on: None,
        source_alias: None,
    }
}

fn join(left: LogicalPlan, right: LogicalPlan) -> LogicalPlan {
    LogicalPlan::Join {
        left: Box::new(left),
        right: Box::new(right),
        join_type: JoinType::Inner,
        on: Some(eq(col("l", "id"), col("r", "id"))),
        lateral: false,
    }
}

#[test]
fn test_scan_operator_empty() {
    let schema = Arc::new(Schema {
        columns: vec![column("id", DataType::Int4, false, true)],
    });

    let mut scan = ScanOperator::new("test".to_string(), schema.clone(), None, Vec::new(), Vec::new());
    assert!(scan.next().expect("Failed to execute scan").is_none());
}

#[test]
fn filtered_scan_prefix_hint_includes_projection_and_predicate() {
    let plan = filtered_scan(Some(vec![1]));
    assert_eq!(compute_scan_prefix_hint(&plan), Some(("w".to_string(), 2)));
}

#[test]
fn filtered_scan_prefix_hint_widens_for_tail_projection() {
    let plan = filtered_scan(Some(vec![3]));
    assert_eq!(compute_scan_prefix_hint(&plan), Some(("w".to_string(), 4)));
}

#[test]
fn scan_prefix_hint_includes_scan_projection() {
    let plan = scan("w", None, Some(vec![2]));
    assert_eq!(compute_scan_prefix_hint(&plan), Some(("w".to_string(), 3)));
}

#[test]
fn prefix_decode_gate_requires_meaningful_suffix_skip() {
    assert!(should_use_prefix_decode(0, 5));
    assert!(should_use_prefix_decode(2, 4));
    assert!(!should_use_prefix_decode(4, 5));
    assert!(!should_use_prefix_decode(5, 5));
}

#[test]
fn selected_decode_hint_handles_sparse_later_columns() {
    let plan = LogicalPlan::Aggregate {
        input: Box::new(scan("w", None, None)),
        group_by: vec![bare("note")],
        aggr_exprs: vec![LogicalExpr::AggregateFunction {
            fun: AggregateFunction::Sum,
            args: vec![bare("payload")],
            distinct: false,
        }],
        having: None,
    };

    assert_eq!(
        compute_scan_decode_hint(&plan),
        Some(("w".to_string(), ScanDecodeHint::Columns(vec![2, 3])))
    );
}

#[test]
fn selected_decode_hint_allows_two_skipped_columns() {
    assert!(should_use_selected_decode(&[0, 1, 3], 5));
}

#[test]
fn join_decode_hints_resolve_qualified_columns_per_table() {
    let plan = project(
        join(scan_with_alias("left_table", "l"), scan_with_alias("right_table", "r")),
        vec![col("l", "k"), col("r", "note")],
        &["k", "note"],
    );

    assert_eq!(
        compute_scan_decode_hints(&plan),
        vec![
            ("left_table".to_string(), ScanDecodeHint::Prefix(2)),
            ("right_table".to_string(), ScanDecodeHint::Columns(vec![0, 3])),
        ]
    );
}

#[test]
fn join_decode_hints_reject_ambiguous_unqualified_columns() {
    let plan = project(
        join(scan_with_alias("left_table", "l"), scan_with_alias("right_table", "r")),
        vec![bare("id")],
        &["id"],
    );

    assert!(compute_scan_decode_hints(&plan).is_empty());
}

#[test]
fn join_decode_hints_reject_self_join_by_table_name() {
    let plan = project(
        join(scan_with_alias("same_table", "l"), scan_with_alias("same_table", "r")),
        vec![col("l", "k")],
        &["k"],
    );

    assert!(compute_scan_decode_hints(&plan).is_empty());
}

#[test]
fn root_filtered_scan_without_projection_needs_full_row() {
    let plan = filtered_scan(None);
    assert_eq!(compute_scan_prefix_hint(&plan), Some(("w".to_string(), 4)));
}

#[test]
fn project_over_filter_keeps_prefix_narrow() {
    let plan = project(filter_on_scan(), vec![bare("k")], &["k"]);
    assert_eq!(compute_scan_prefix_hint(&plan), Some(("w".to_string(), 2)));
}

#[test]
fn count_star_without_filter_needs_no_columns() {
    let plan = LogicalPlan::Aggregate {
        input: Box::new(scan("w", None, None)),
        group_by: vec![],
        aggr_exprs: vec![count_star()],
        having: None,
    };

    assert_eq!(compute_scan_prefix_hint(&plan), Some(("w".to_string(), 0)));
}

#[test]
fn count_star_filter_uses_predicate_columns_only() {
    let plan = LogicalPlan::Aggregate {
        input: Box::new(filter_on_scan()),
        group_by: vec![],
        aggr_exprs: vec![count_star()],
        having: None,
    };

    assert_eq!(compute_scan_prefix_hint(&plan), Some(("w".to_string(), 1)));
}

#[test]
fn an_unknown_column_gives_no_prefix_hint() {
    let plan = project(scan("w", None, None), vec![bare("nope")], &["nope"]);
    assert_eq!(compute_scan_prefix_hint(&plan), None);
    let outer = project(project(scan("w", None, None), vec![bare("k")], &["it"]), vec![bare("it")], &["it"]);
    assert_eq!(compute_scan_prefix_hint(&outer), Some(("w".to_string(), 2)));
}
