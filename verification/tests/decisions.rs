use helios_exec::evaluator::Evaluator;
use helios_exec::executor::ddl::CatalogView;
use helios_exec::executor::decode_hints::ScanDecodeHint;
use helios_exec::executor::index_lookup::{
    coerce_index_lookup_value, coerce_literal_to_column_type, compare_keys, fetch_is_too_slow,
    find_column_index, indexed_equality_lookup, indexed_range_lookup, parse_date_for_index,
    parse_timestamp_for_index, range_display, ColumnIndex, RangeBound,
};
use helios_exec::executor::join_planning::{
    estimate_filtered_rows, estimate_hash_join_rows, qualifier_matches_join_input,
    should_build_left_for_inner, should_try_index_nested_loop_join,
};
use helios_exec::executor::key_range::{
    count_by_key, merge_int_ranges, pk_int_range_from_predicate, range_admits, IntRange,
};
use helios_exec::executor::knn::{
    choose_vector_index, distance_metric, is_simple_knn_filter, keep_neighbours, next_round,
    resolve_const_query_value, start_search, Candidate, KnnSearch, KnnStep, VectorIndex, VectorMetric,
};
use helios_exec::executor::operator::check_outcome;
use helios_exec::executor::pushdown::{
    choose_filtered_access, choose_plain_access, columnar_scan_columns, is_simple_columnar_pushdown_predicate,
    rowstore_aggregate_predicates_are_sql_safe, should_apply_columnar_predicates, sort_and_dedup,
    storage_predicates_are_sql_safe, try_columnar_aggregate, AnalyzedPredicate, PredicateOp, ScanAccess,
};
use helios_exec::executor::query::Executor;
use helios_exec::executor::questions::{expr_has_question, plan_has_question};
use helios_exec::executor::storage_view::{StorageView, StoredTable};
use helios_exec::logical_plan::{AggregateFunction, BinaryOperator, LogicalExpr, LogicalPlan};
use helios_exec::schema::{Column, ColumnStorageMode, Schema, Tuple};
use helios_exec::text::Order;
use helios_exec::value::{DataType, TimeOfDay, Timestamp, Value};
use std::sync::Arc;

fn schema() -> Schema {
    let mut id = Column::new("id", DataType::Int4);
    id.primary_key = true;
    Schema {
        columns: vec![
            id,
            Column::new("name", DataType::Text),
            Column::new("spot", DataType::Vector(2)),
        ],
    }
}

fn col(name: &str) -> LogicalExpr {
    LogicalExpr::Column { table: None, name: name.to_string() }
}

fn num(n: i32) -> LogicalExpr {
    LogicalExpr::Literal(Value::Int4(n))
}

fn bin(left: LogicalExpr, op: BinaryOperator, right: LogicalExpr) -> LogicalExpr {
    LogicalExpr::BinaryExpr { left: Box::new(left), op, right: Box::new(right) }
}

fn and(left: LogicalExpr, right: LogicalExpr) -> LogicalExpr {
    bin(left, BinaryOperator::And, right)
}

fn index() -> Vec<ColumnIndex> {
    vec![ColumnIndex { table: "t".to_string(), column: "id".to_string(), name: "t_id".to_string() }]
}

fn text(s: &str) -> Value {
    Value::String(s.to_string())
}

fn store() -> StorageView {
    StorageView {
        tables: vec![StoredTable {
            name: "t".to_string(),
            schema: schema(),
            rows: (0..40)
                .map(|n| Tuple::new(vec![Value::Int4(n), text("x"), Value::Null]))
                .collect(),
        }],
        materialized_views: Vec::new(),
        system_views: Vec::new(),
        histories: Vec::new(),
        indexes: Vec::new(),
        contents: Vec::new(),
        enum_types: Vec::new(),
        catalog: CatalogView::empty(),
        time_travel_enabled: false,
        branch_active: false,
    }
}

fn scan() -> LogicalPlan {
    LogicalPlan::Scan {
        table_name: "t".to_string(),
        alias: None,
        schema: Arc::new(schema()),
        projection: None,
        as_of: None,
    }
}

#[test]
fn a_range_is_made_of_the_tightest_bounds() {
    let p = and(
        and(bin(col("id"), BinaryOperator::Gt, num(3)), bin(num(9), BinaryOperator::GtEq, col("id"))),
        and(bin(col("id"), BinaryOperator::GtEq, num(3)), bin(col("id"), BinaryOperator::Lt, num(20))),
    );
    match indexed_range_lookup(&index(), "t", &schema(), &p, &Vec::new()) {
        Some(r) => {
            assert_eq!(r.index_name, "t_id");
            assert_eq!(r.column_name, "id");
            assert!(matches!(r.lower, Some(RangeBound::At(Value::Int4(3), false))));
            assert!(matches!(r.upper, Some(RangeBound::At(Value::Int4(9), true))));
        }
        None => panic!("no range"),
    }
}

#[test]
fn a_range_without_a_lower_bound_keeps_null_out() {
    let p = bin(col("id"), BinaryOperator::Lt, num(5));
    match indexed_range_lookup(&index(), "t", &schema(), &p, &Vec::new()) {
        Some(r) => assert!(matches!(r.lower, Some(RangeBound::Lowest(4)))),
        None => panic!("no range"),
    }
    let p = bin(col("name"), BinaryOperator::Lt, LogicalExpr::Literal(text("m")));
    assert!(indexed_range_lookup(&index(), "t", &schema(), &p, &Vec::new()).is_none());
}

#[test]
fn an_equality_is_looked_up_under_either_side() {
    let found = |p: LogicalExpr| indexed_equality_lookup(&index(), "t", &schema(), &p, &Vec::new());
    let expected = Some(("t_id".to_string(), Value::Int4(7)));
    assert_eq!(found(bin(num(7), BinaryOperator::Eq, col("id"))), expected);
    assert_eq!(
        found(and(
            bin(col("name"), BinaryOperator::Eq, LogicalExpr::Literal(text("x"))),
            bin(col("id"), BinaryOperator::Eq, LogicalExpr::Literal(Value::Int8(7)))
        )),
        expected
    );
    assert_eq!(found(bin(col("id"), BinaryOperator::Gt, num(7))), None);
    assert_eq!(find_column_index(&index(), "t", "name"), None);
}

#[test]
fn a_range_is_shown_with_its_signs() {
    assert_eq!(range_display("a", Some(("1", true)), Some(("9", false))), "a >= 1 AND a < 9");
    assert_eq!(range_display("a", None, Some(("9", true))), "a <= 9");
    assert_eq!(range_display("a", Some(("1", false)), None), "a > 1");
}

#[test]
fn texts_are_read_as_the_type_of_the_column() {
    let uuid = "01234567-89ab-cdef-0123-456789abcdef";
    assert_eq!(
        coerce_index_lookup_value(&text(uuid), &DataType::Uuid),
        Some(Value::Uuid(0x0123_4567_89ab_cdef_0123_4567_89ab_cdef))
    );
    assert_eq!(coerce_index_lookup_value(&text("no"), &DataType::Uuid), None);
    assert_eq!(coerce_index_lookup_value(&Value::Int8(5), &DataType::Int4), Some(Value::Int4(5)));
    assert_eq!(coerce_index_lookup_value(&Value::Int8(1 << 40), &DataType::Int4), None);
    let float = |x: f64| Value::Float8(x.to_bits());
    assert_eq!(coerce_index_lookup_value(&Value::Int4(3), &DataType::Float8), Some(float(3.0)));
    assert_eq!(
        coerce_index_lookup_value(&Value::Int2(-2), &DataType::Float4),
        Some(Value::Float4((-2.0f32).to_bits()))
    );
    assert_eq!(
        coerce_index_lookup_value(&Value::Float4(1.5f32.to_bits()), &DataType::Float8),
        Some(float(1.5))
    );
    assert_eq!(parse_date_for_index("0001-01-02"), Some(2));
    assert_eq!(parse_date_for_index("soon"), None);
    assert_eq!(
        parse_timestamp_for_index("1970-01-01T00:00:07Z"),
        Some(Timestamp { secs: 7, nanos: 0 })
    );
    assert_eq!(
        parse_timestamp_for_index("1970-01-02 00:00:00"),
        Some(Timestamp { secs: 86400, nanos: 0 })
    );
    assert_eq!(
        parse_timestamp_for_index("1970-01-03"),
        Some(Timestamp { secs: 172800, nanos: 0 })
    );
    assert_eq!(
        coerce_index_lookup_value(&text("01:02:03"), &DataType::Time),
        Some(Value::Time(TimeOfDay { secs: 3723, nanos: 0 }))
    );
}

#[test]
fn a_literal_takes_the_type_of_its_column() {
    assert_eq!(
        coerce_literal_to_column_type(text("0001-01-02"), &DataType::Date),
        Value::Date(2)
    );
    assert_eq!(coerce_literal_to_column_type(Value::Int4(3), &DataType::Text), Value::Int4(3));
}

#[test]
fn keys_are_ordered_as_their_values() {
    assert_eq!(compare_keys(&Value::Int4(-1), &Value::Int4(1)), Order::Less);
    assert_eq!(compare_keys(&text("b"), &text("a")), Order::Greater);
    assert_eq!(compare_keys(&Value::Int8(4), &Value::Int8(4)), Order::Equal);
}

#[test]
fn a_slow_fetch_is_noticed_at_times() {
    assert!(fetch_is_too_slow(256, 63, 100_000_001));
    assert!(!fetch_is_too_slow(256, 64, 100_000_001));
    assert!(!fetch_is_too_slow(255, 63, 100_000_001));
    assert!(!fetch_is_too_slow(256, 63, 100_000_000));
}

#[test]
fn the_clock_is_read_at_the_first_row_and_then_at_times() {
    let over = 2_000_001;
    assert!(check_outcome(None, 0, u128::MAX).is_ok());
    assert!(check_outcome(Some(2), 0, 2_000_000).is_ok());
    assert!(check_outcome(Some(2), 1, over).is_ok());
    assert!(check_outcome(Some(2), 999, over).is_ok());
    for count in [0, 1000, 5000] {
        match check_outcome(Some(2), count, over) {
            Ok(()) => panic!("row {count} came"),
            Err(e) => assert_eq!(e.to_string(), "Query exceeded timeout limit of 2ms (elapsed: 2ms)"),
        }
    }
}

#[test]
fn key_ranges_are_merged_and_counted() {
    let p = and(
        bin(col("id"), BinaryOperator::Gt, num(2)),
        bin(num(5), BinaryOperator::GtEq, col("id")),
    );
    let r = match pk_int_range_from_predicate(&p, "id", &DataType::Int4, &Vec::new()) {
        Some(r) => r,
        None => panic!("no range"),
    };
    for n in 0..8 {
        assert_eq!(range_admits(&r, n), n > 2 && n <= 5);
    }
    let rows: Vec<Tuple> = (0..10).map(|n| Tuple::new(vec![Value::Int4(n)])).collect();
    assert_eq!(count_by_key(&p, &schema(), 0, &rows, &Vec::new()), Some(3));
    let list = LogicalExpr::InList {
        expr: Box::new(col("id")),
        list: vec![num(1), num(1), num(4), num(99)],
        negated: false,
    };
    assert_eq!(count_by_key(&list, &schema(), 0, &rows, &Vec::new()), Some(2));
    let merged = merge_int_ranges(
        IntRange { lower: Some((1, true)), upper: None },
        IntRange { lower: Some((1, false)), upper: Some((3, true)) },
    );
    assert_eq!((merged.lower, merged.upper), (Some((1, false)), Some((3, true))));
}

#[test]
fn a_distance_operator_has_its_metric() {
    assert_eq!(distance_metric(BinaryOperator::VectorL2Distance), Some(VectorMetric::L2));
    assert_eq!(distance_metric(BinaryOperator::VectorCosineDistance), Some(VectorMetric::Cosine));
    assert_eq!(distance_metric(BinaryOperator::VectorInnerProduct), Some(VectorMetric::InnerProduct));
    assert_eq!(distance_metric(BinaryOperator::Plus), None);
}

#[test]
fn the_nearest_rows_of_a_sort_by_distance_are_asked_for() {
    let s = store();
    let plan = LogicalPlan::Sort {
        input: Box::new(scan()),
        exprs: vec![bin(
            col("spot"),
            BinaryOperator::VectorL2Distance,
            LogicalExpr::Literal(Value::Vector(vec![1, 2])),
        )],
        asc: vec![true],
    };
    match Executor::with_storage(&s).try_vector_knn_topk(&plan, 5) {
        Some(q) => {
            assert_eq!(q.column, "spot");
            assert_eq!(q.metric, VectorMetric::L2);
            assert_eq!(q.query, Value::Vector(vec![1, 2]));
        }
        None => panic!("no request"),
    }
}

#[test]
fn an_index_is_chosen_by_metric_and_dimension() {
    let v = |metric, dimension| VectorIndex { name: "v".to_string(), metric, dimension };
    let all = vec![v(VectorMetric::Cosine, 2), v(VectorMetric::L2, 3), v(VectorMetric::L2, 2)];
    assert_eq!(choose_vector_index(&all, VectorMetric::L2, 2), Some(2));
    assert_eq!(choose_vector_index(&all, VectorMetric::InnerProduct, 2), None);
}

#[test]
fn a_search_grows_until_it_has_enough() {
    assert!(start_search(5, Some(256), Some(256), false).is_none());
    assert!(start_search(5, None, Some(999), false).is_none());
    let first = match start_search(5, Some(1000), Some(1000), true) {
        Some(s) => s,
        None => panic!("no search"),
    };
    assert_eq!((first.fetch, first.physical, first.last), (21, 1000, 0));
    assert!(matches!(next_round(first, 21, 5, Some(1000)), KnnStep::Serve));
    match next_round(first, 21, 2, Some(1000)) {
        KnnStep::Search(s) => {
            assert!(s.fetch > 21 && s.fetch < 1000);
            assert_eq!(s.last, 21);
        }
        other => panic!("{:?}", other),
    }
    let whole = KnnSearch { k: 5, fetch: 1000, physical: 1000, last: 0, filtered: false };
    assert!(matches!(next_round(whole, 1000, 3, Some(3)), KnnStep::Serve));
    assert!(matches!(next_round(whole, 1000, 3, Some(4)), KnnStep::GiveUp));
}

#[test]
fn neighbours_pass_the_filter_and_exist() {
    let candidate = |id: u64, n: Option<i32>| Candidate {
        row_id: id,
        distance: id as u32,
        row: n.map(|n| Tuple::new(vec![Value::Int4(n), text("x"), Value::Null])),
    };
    let all = vec![candidate(1, Some(1)), candidate(2, None), candidate(3, Some(9)), candidate(4, Some(8))];
    let evaluator = Evaluator::new(Arc::new(schema()));
    let p = Some(bin(col("id"), BinaryOperator::Gt, num(5)));
    match keep_neighbours(&all, &p, &evaluator, 1) {
        Ok(n) => assert_eq!(n.results, vec![(3, 3)]),
        Err(e) => panic!("{}", e.to_string()),
    }
    match keep_neighbours(&all, &None, &evaluator, 9) {
        Ok(n) => assert_eq!(n.results, vec![(1, 1), (3, 3), (4, 4)]),
        Err(e) => panic!("{}", e.to_string()),
    }
}

#[test]
fn only_simple_filters_go_with_a_search() {
    assert!(is_simple_knn_filter(&bin(col("id"), BinaryOperator::Gt, num(5)), &schema()));
    assert!(!is_simple_knn_filter(&bin(col("nowhere"), BinaryOperator::Gt, num(5)), &schema()));
    assert_eq!(
        resolve_const_query_value(&LogicalExpr::Parameter { index: 1 }, &vec![Value::Int4(3)]),
        Some(Value::Int4(3))
    );
    assert_eq!(resolve_const_query_value(&col("id"), &Vec::new()), None);
}

#[test]
fn columns_are_sorted_once() {
    assert_eq!(sort_and_dedup(&vec![3, 1, 3, 0, 1]), vec![0, 1, 3]);
}

fn predicate(op: PredicateOp, value: Value) -> AnalyzedPredicate {
    AnalyzedPredicate { column_index: 0, op, value, value2: None, value_list: Vec::new() }
}

#[test]
fn storage_tests_only_what_it_tests_as_sql_does() {
    let s = schema();
    assert!(storage_predicates_are_sql_safe(&s, &vec![predicate(PredicateOp::Eq, Value::Int4(1))]));
    assert!(!storage_predicates_are_sql_safe(&s, &vec![predicate(PredicateOp::Eq, text("1"))]));
    assert!(!rowstore_aggregate_predicates_are_sql_safe(
        &s,
        &vec![predicate(PredicateOp::Eq, Value::Null)]
    ));
    assert!(is_simple_columnar_pushdown_predicate(&bin(col("id"), BinaryOperator::Eq, num(1))));
    assert!(!is_simple_columnar_pushdown_predicate(&bin(col("id"), BinaryOperator::Eq, col("name"))));
}

fn columnar() -> Schema {
    let mut s = schema();
    for c in &mut s.columns {
        c.storage_mode = ColumnStorageMode::Columnar;
    }
    s
}

#[test]
fn a_scan_reads_as_little_as_it_can() {
    assert_eq!(columnar_scan_columns(&columnar(), &Some(vec![2, 0]), None), Some(vec![2, 0]));
    assert_eq!(columnar_scan_columns(&schema(), &Some(vec![2, 0]), None), None);
    assert!(matches!(
        choose_plain_access(&columnar(), true, &Some(vec![1]), None),
        ScanAccess::Columnar { .. }
    ));
    let hint = ScanDecodeHint::Columns(vec![0]);
    assert!(matches!(choose_plain_access(&schema(), true, &None, Some(&hint)), ScanAccess::Columns(_)));
    assert!(matches!(choose_plain_access(&schema(), true, &None, None), ScanAccess::Full));
    let tested = vec![predicate(PredicateOp::Eq, Value::Int4(1))];
    assert!(matches!(
        choose_filtered_access(&schema(), true, &None, None, &tested),
        ScanAccess::Filtered { .. }
    ));
    assert!(should_apply_columnar_predicates(&tested));
}

#[test]
fn an_aggregate_of_stored_columns_can_be_left_to_the_storage() {
    let sum = LogicalExpr::AggregateFunction {
        fun: AggregateFunction::Sum,
        args: vec![col("id")],
        distinct: false,
    };
    assert!(try_columnar_aggregate(None, &vec![col("name")], &vec![sum], &Vec::new(), &columnar()).is_some());
    let odd = LogicalExpr::AggregateFunction {
        fun: AggregateFunction::Sum,
        args: vec![bin(col("id"), BinaryOperator::Plus, num(1))],
        distinct: false,
    };
    assert!(try_columnar_aggregate(None, &Vec::new(), &vec![odd], &Vec::new(), &columnar()).is_none());
}

#[test]
fn joins_are_planned_by_estimates() {
    assert_eq!(estimate_filtered_rows(40), 14);
    assert_eq!(estimate_filtered_rows(0), 1);
    assert_eq!(estimate_hash_join_rows(Some(&store()), &scan()), Some(40));
    assert_eq!(estimate_hash_join_rows(None, &scan()), None);
    assert!(should_build_left_for_inner(Some(10), Some(100)));
    assert!(!should_build_left_for_inner(Some(100), Some(10)));
    assert!(should_try_index_nested_loop_join(false, Some(128), Some(1)));
    assert!(should_try_index_nested_loop_join(false, Some(200), Some(1600)));
    assert!(!should_try_index_nested_loop_join(false, Some(200), Some(1599)));
    assert!(!should_try_index_nested_loop_join(true, Some(1), Some(1600)));
    assert!(qualifier_matches_join_input("orders", Some("o"), "o"));
    assert!(!qualifier_matches_join_input("orders", Some("o"), "people"));
}

#[test]
fn the_first_stored_rows_can_be_asked_for_by_position() {
    let s = store();
    let plan = LogicalPlan::Sort {
        input: Box::new(LogicalPlan::Project {
            input: Box::new(scan()),
            exprs: vec![col("name"), col("id")],
            aliases: vec!["n".to_string(), "i".to_string()],
            distinct: false,
            distinct_on: None,
            source_alias: None,
        }),
        exprs: vec![col("i")],
        asc: vec![true],
    };
    match Executor::with_storage(&s).try_storage_direct_topk(&plan, 3) {
        Some(d) => {
            assert_eq!(d.table_name, "t");
            assert_eq!(d.output_columns, vec![1, 0]);
            assert_eq!(d.sort_columns, vec![0]);
            assert_eq!(d.output_schema.columns[0].name, "n");
        }
        None => panic!("no request"),
    }
}

#[test]
fn a_plan_is_searched_for_what_the_database_answers() {
    let counted = |fun: AggregateFunction, args: Vec<LogicalExpr>| LogicalPlan::Aggregate {
        input: Box::new(scan()),
        group_by: Vec::new(),
        aggr_exprs: vec![LogicalExpr::AggregateFunction { fun, args, distinct: false }],
        having: None,
    };
    let all = || counted(AggregateFunction::Count, vec![LogicalExpr::Wildcard]);
    let max = || counted(AggregateFunction::Max, vec![col("id")]);
    assert!(!plan_has_question(&scan()));
    assert!(!plan_has_question(&all()));
    assert!(plan_has_question(&max()));
    let joined = |right: LogicalPlan| LogicalPlan::Union { left: Box::new(scan()), right: Box::new(right), all: true };
    assert!(plan_has_question(&joined(max())));
    assert!(!plan_has_question(&joined(all())));
    let asked = |p: LogicalPlan| LogicalExpr::Between {
        expr: Box::new(col("id")),
        low: Box::new(num(1)),
        high: Box::new(LogicalExpr::ScalarSubquery { subquery: Box::new(p) }),
        negated: false,
    };
    assert!(expr_has_question(&asked(max())));
    assert!(!expr_has_question(&asked(all())));
    let filtered = LogicalPlan::Filter { input: Box::new(scan()), predicate: asked(max()) };
    assert!(plan_has_question(&filtered));
    let limited = |input: LogicalPlan| LogicalPlan::Limit {
        input: Box::new(input),
        limit: 1,
        offset: 0,
        limit_param: None,
        offset_param: None,
    };
    assert!(!plan_has_question(&limited(scan())));
    let sorted = LogicalPlan::Sort { input: Box::new(scan()), exprs: vec![col("id")], asc: vec![true] };
    assert!(plan_has_question(&limited(sorted)));
    let with = LogicalPlan::With {
        ctes: vec![("c".to_string(), Box::new(max()), None)],
        query: Box::new(scan()),
        recursive: false,
    };
    assert!(plan_has_question(&with));
}
