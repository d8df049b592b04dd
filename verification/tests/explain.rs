use helios_exec::executor::ddl::CatalogView;
use helios_exec::executor::explain::{InListProbe, NodeAccess, PlanNode};
use helios_exec::executor::explain_text::{
    build_header, explain_rows, format_execution_results, format_summary, format_text_output,
    show_access, split_lines, ExplainReport,
};
use helios_exec::executor::index_lookup::ColumnIndex;
use helios_exec::executor::operator::PhysicalOperator;
use helios_exec::executor::plan_text::format_plan;
use helios_exec::executor::query::Executor;
use helios_exec::executor::storage_view::{IndexContents, IndexEntry, StorageView, StoredTable};
use helios_exec::logical_plan::{
    AsOfClause, BinaryOperator, ExplainFormatOption, ExplainOptions, JoinType, LogicalExpr, LogicalPlan,
};
use helios_exec::schema::{Column, Schema, Tuple};
use helios_exec::value::{DataType, Value};
use std::sync::Arc;

fn schema() -> Schema {
    Schema { columns: vec![Column::new("id", DataType::Int4)] }
}

fn store() -> StorageView {
    StorageView {
        tables: vec![StoredTable {
            name: "t".to_string(),
            schema: schema(),
            rows: (0..8)
                .map(|n| {
                    let mut t = Tuple::new(vec![Value::Int4(n)]);
                    t.row_id = Some(n as u64);
                    t
                })
                .collect(),
        }],
        materialized_views: Vec::new(),
        system_views: Vec::new(),
        histories: Vec::new(),
        indexes: vec![ColumnIndex {
            table: "t".to_string(),
            column: "id".to_string(),
            name: "t_id".to_string(),
        }],
        contents: vec![IndexContents {
            index: "t_id".to_string(),
            entries: (0..8).map(|n| IndexEntry { key: Value::Int4(n), row_id: n as u64 }).collect(),
        }],
        enum_types: Vec::new(),
        catalog: CatalogView::empty(),
        time_travel_enabled: false,
        branch_active: false,
    }
}

fn scan() -> LogicalPlan {
    LogicalPlan::Scan {
        table_name: "t".to_string(),
        alias: None,
        schema: Arc::new(schema()),
        projection: None,
        as_of: None,
    }
}

fn compare(op: BinaryOperator, n: i32) -> LogicalExpr {
    LogicalExpr::BinaryExpr {
        left: Box::new(LogicalExpr::Column { table: None, name: "id".to_string() }),
        op,
        right: Box::new(LogicalExpr::Literal(Value::Int4(n))),
    }
}

fn filter(op: BinaryOperator, n: i32) -> LogicalPlan {
    LogicalPlan::Filter { input: Box::new(scan()), predicate: compare(op, n) }
}

fn first_sorted() -> LogicalPlan {
    LogicalPlan::Limit {
        input: Box::new(LogicalPlan::Sort {
            input: Box::new(scan()),
            exprs: vec![LogicalExpr::Column { table: None, name: "id".to_string() }],
            asc: vec![true],
        }),
        limit: 3,
        offset: 1,
        limit_param: None,
        offset_param: None,
    }
}

fn node(kind: &str, children: Vec<PlanNode>) -> PlanNode {
    PlanNode { node_type: kind.to_string(), in_list: None, access: None, children }
}

fn options() -> ExplainOptions {
    ExplainOptions {
        analyze: false,
        verbose: false,
        format: ExplainFormatOption::Text,
        costs: true,
        storage: false,
        ai: false,
        why_not: false,
        summary: false,
    }
}

fn report() -> ExplainReport {
    ExplainReport {
        total_rows: 10,
        total_cost: "1.50".to_string(),
        planning_time: "0.100".to_string(),
        actual_rows: Some(4),
        actual_time: Some("2.000".to_string()),
        row_accuracy: "40.0".to_string(),
        execution_error: None,
        warnings: vec!["slow".to_string()],
        suggestions: Vec::new(),
    }
}

fn annotate(plan: &LogicalPlan, tree: PlanNode) -> PlanNode {
    let s = store();
    let mut tree = tree;
    Executor::with_storage(&s).annotate_index_range_scans(plan, &mut tree);
    tree
}

#[test]
fn a_point_lookup_is_shown_as_one() {
    let tree = annotate(&filter(BinaryOperator::Eq, 3), node("Filter", vec![node("Scan", Vec::new())]));
    assert_eq!(tree.node_type, "IndexPointLookup");
    match tree.access {
        Some(a) => {
            let shown = show_access(&a, "", "");
            assert_eq!(shown.operation, "Index Point Lookup using t_id on t");
            assert_eq!(shown.details, vec![("index".to_string(), "t_id".to_string())]);
        }
        None => panic!("no access"),
    }
}

#[test]
fn a_narrow_range_is_shown_and_a_wide_one_is_not() {
    let tree = || node("Filter", vec![node("Scan", Vec::new())]);
    let narrow = annotate(&filter(BinaryOperator::Gt, 6), tree());
    assert_eq!(narrow.node_type, "IndexRangeScan");
    match narrow.access {
        Some(a) => {
            let shown = show_access(&a, "6", "");
            assert_eq!(shown.operation, "Index Range Scan using t_id on t (id > 6)");
            assert_eq!(shown.details[1], ("range".to_string(), "id > 6".to_string()));
        }
        None => panic!("no access"),
    }
    let wide = annotate(&filter(BinaryOperator::Gt, 1), tree());
    assert_eq!(wide.node_type, "Filter");
    assert!(wide.access.is_none());
}

#[test]
fn an_in_list_is_shown_before_a_range_and_behind_a_point() {
    let probed = || {
        let mut n = node("Filter", vec![node("Scan", Vec::new())]);
        n.in_list = Some(InListProbe { index: "t_id".to_string(), values: 2 });
        n
    };
    let range = annotate(&filter(BinaryOperator::Gt, 6), probed());
    assert_eq!(range.node_type, "IndexInListProbe");
    match &range.access {
        Some(a) => {
            let shown = show_access(a, "", "");
            assert_eq!(shown.operation, "Index IN Probe (2 values) using t_id on t");
            assert_eq!(shown.details, vec![("index".to_string(), "t_id".to_string())]);
        }
        None => panic!("no access"),
    }
    let point = annotate(&filter(BinaryOperator::Eq, 3), probed());
    assert_eq!(point.node_type, "IndexPointLookup");
}

#[test]
fn a_sort_that_an_index_saves_is_shown() {
    let tree = annotate(
        &first_sorted(),
        node("Limit", vec![node("Other", Vec::new()), node("Sort", vec![node("Scan", Vec::new())])]),
    );
    assert_eq!(tree.node_type, "Limit");
    assert_eq!(tree.children[1].node_type, "IndexOrderedScan");
    match &tree.children[1].access {
        Some(a) => {
            assert!(matches!(a, NodeAccess::Ordered { .. }));
            let shown = show_access(a, "", "");
            assert_eq!(
                shown.operation,
                "Index Ordered Scan using t_id on t (ORDER BY id ASC, no sort)"
            );
            assert_eq!(shown.details[1], ("order".to_string(), "id ASC".to_string()));
        }
        None => panic!("no access"),
    }
}

#[test]
fn both_sides_of_a_join_are_looked_at() {
    let plan = LogicalPlan::Join {
        left: Box::new(scan()),
        right: Box::new(filter(BinaryOperator::Eq, 3)),
        join_type: JoinType::Inner,
        on: None,
        lateral: false,
    };
    let tree = annotate(&plan, node("Join", vec![node("Scan", Vec::new()), node("Filter", Vec::new())]));
    assert_eq!(tree.children[0].node_type, "Scan");
    assert_eq!(tree.children[1].node_type, "IndexPointLookup");
}

#[test]
fn an_outline_indents_what_is_below() {
    let mut lines = Vec::new();
    format_plan(&mut lines, &first_sorted(), 0, true);
    assert_eq!(
        lines,
        vec![
            "Limit: 3 OFFSET 1",
            "  -> Sort: [Column { table: None, name: \"id\" } ASC]",
            "    -> Seq Scan on t",
            "      Output: all columns",
        ]
    );
}

#[test]
fn an_outline_says_what_a_node_does() {
    let line = |plan: LogicalPlan| {
        let mut lines = Vec::new();
        format_plan(&mut lines, &plan, 0, false);
        lines[0].clone()
    };
    assert_eq!(
        line(LogicalPlan::FilteredScan {
            table_name: "t".to_string(),
            alias: None,
            schema: Arc::new(schema()),
            projection: Some(vec![2, 0]),
            predicate: Some(LogicalExpr::Wildcard),
            as_of: Some(AsOfClause::Scn(5)),
        }),
        "Filtered Scan on t (filter: Wildcard) (projection: [2, 0]) AS OF Scn(5)"
    );
    assert_eq!(
        line(LogicalPlan::Project {
            input: Box::new(scan()),
            exprs: Vec::new(),
            aliases: vec!["a".to_string(), "b".to_string()],
            distinct: true,
            distinct_on: None,
            source_alias: None,
        }),
        "Project DISTINCT: [a, b]"
    );
    assert_eq!(
        line(LogicalPlan::Aggregate {
            input: Box::new(scan()),
            group_by: vec![LogicalExpr::Wildcard],
            aggr_exprs: vec![LogicalExpr::DefaultValue],
            having: Some(LogicalExpr::Wildcard),
        }),
        "Aggregate: [DefaultValue] (GROUP BY [Wildcard]) HAVING Wildcard"
    );
    assert_eq!(
        line(LogicalPlan::Join {
            left: Box::new(scan()),
            right: Box::new(scan()),
            join_type: JoinType::Left,
            on: Some(LogicalExpr::Wildcard),
            lateral: true,
        }),
        "LATERAL Nested Loop Left Join ON Wildcard"
    );
    let mut o = options();
    o.analyze = true;
    o.storage = true;
    assert_eq!(
        line(LogicalPlan::Explain { input: Box::new(scan()), options: o }),
        "Explain (ANALYZE, STORAGE)"
    );
    assert_eq!(line(LogicalPlan::DualScan), "Plan: DualScan");
}

#[test]
fn a_header_names_the_options_that_are_on() {
    assert_eq!(build_header(&options()), "EXPLAIN");
    let mut o = options();
    o.analyze = true;
    o.verbose = true;
    o.ai = true;
    o.why_not = true;
    o.format = ExplainFormatOption::Tree;
    assert_eq!(build_header(&o), "EXPLAIN ANALYZE VERBOSE AI WHY_NOT FORMAT TREE");
}

#[test]
fn results_and_summary_are_spelled_out() {
    let results = format_execution_results(&report());
    assert!(results.contains("Execution Results\n"));
    assert!(results.contains(
        "  Execution Time : 2.000 ms\n  Actual Rows    : 4\n  Planning Time  : 0.100 ms\n  Estimated Rows : 10\n  Estimated Cost : 1.50\n"
    ));
    assert!(!results.contains("Execution Error"));
    let mut o = options();
    o.analyze = true;
    let summary = format_summary(&report(), &o);
    assert!(summary.contains(
        "  Estimate Accuracy:\n    Rows: 4 actual vs 10 estimated (40.0%)\n    Time: 2.000 ms\n"
    ));
    assert!(summary.ends_with("\n  Warnings:\n    - slow\n"));
    assert!(!format_summary(&report(), &options()).contains("Accuracy"));
}

#[test]
fn the_answer_holds_what_was_asked_for() {
    assert_eq!(format_text_output("the plan", Some("features"), &report(), &options()), "EXPLAIN\n\nthe plan");
    let mut o = options();
    o.storage = true;
    assert_eq!(
        format_text_output("the plan", Some("features"), &report(), &o),
        "EXPLAIN STORAGE\n\nthe planfeatures"
    );
    o.summary = true;
    o.analyze = true;
    let whole = format_text_output("the plan", None, &report(), &o);
    assert!(whole.contains("Execution Results") && whole.contains("SUMMARY"));
}

#[test]
fn lines_end_where_a_line_ends() {
    assert_eq!(split_lines("a\nb\r\n\nc"), vec!["a", "b", "", "c"]);
    assert_eq!(split_lines("a\r\nb\r"), vec!["a", "b\r"]);
    assert_eq!(split_lines("a\n"), vec!["a"]);
    assert_eq!(split_lines(""), Vec::<String>::new());
}

#[test]
fn the_answer_has_a_row_for_each_line() {
    let mut op = explain_rows("one\ntwo\n");
    assert_eq!(op.schema().columns[0].name, "QUERY PLAN");
    let mut seen = Vec::new();
    while let Some(t) = op.next().unwrap_or(None) {
        seen.push(t.values[0].clone());
    }
    assert_eq!(seen, vec![Value::String("one".to_string()), Value::String("two".to_string())]);
}

#[test]
fn analyzing_counts_the_rows() {
    let s = store();
    let executor = Executor::with_storage(&s);
    match executor.execute_for_analyze(&filter(BinaryOperator::Gt, 4)) {
        Some(Ok(n)) => assert_eq!(n, 3),
        other => panic!("{:?}", other),
    }
    assert!(Executor::new().execute_for_analyze(&scan()).is_none());
    let bad = LogicalPlan::Filter {
        input: Box::new(scan()),
        predicate: LogicalExpr::Literal(Value::Int4(1)),
    };
    assert!(matches!(executor.execute_for_analyze(&bad), Some(Err(_))));
}
