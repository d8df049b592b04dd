use helios_exec::executor::answers::{keep_answered, list_answered};
use helios_exec::executor::ddl::CatalogView;
use helios_exec::executor::index_lookup::ColumnIndex;
use helios_exec::executor::query::Executor;
use helios_exec::executor::sources::Settings;
use helios_exec::executor::storage_view::{
    History, IndexContents, IndexEntry, MaterializedView, StorageView, StoredTable, TransactionView,
};
use helios_exec::logical_plan::{
    AggregateFunction, AsOfClause, BinaryOperator, JoinType, LogicalExpr, LogicalPlan,
};
use helios_exec::schema::{Column, Schema, Tuple};
use helios_exec::value::{DataType, Value};
use std::sync::Arc;

fn people_schema() -> Schema {
    let mut id = Column::new("id", DataType::Int4);
    id.primary_key = true;
    id.nullable = false;
    Schema {
        columns: vec![
            id,
            Column::new("name", DataType::Text),
            Column::new("age", DataType::Int4),
        ],
    }
}

fn orders_schema() -> Schema {
    Schema {
        columns: vec![
            Column::new("person", DataType::Int4),
            Column::new("item", DataType::Text),
        ],
    }
}

fn row(id: u64, values: Vec<Value>) -> Tuple {
    let mut t = Tuple::new(values);
    t.row_id = Some(id);
    t
}

fn text(s: &str) -> Value {
    Value::String(s.to_string())
}

fn people() -> Vec<Tuple> {
    vec![
        row(1, vec![Value::Int4(1), text("Ada"), Value::Int4(36)]),
        row(2, vec![Value::Int4(2), text("Bob"), Value::Int4(25)]),
        row(3, vec![Value::Int4(3), text("Cy"), Value::Null]),
        row(4, vec![Value::Int4(4), text("Dee"), Value::Int4(25)]),
    ]
}

fn orders() -> Vec<Tuple> {
    vec![
        row(10, vec![Value::Int4(1), text("pen")]),
        row(11, vec![Value::Int4(1), text("ink")]),
        row(12, vec![Value::Int4(4), text("cup")]),
        row(13, vec![Value::Int4(9), text("hat")]),
    ]
}

fn entries(keys: &[(i32, u64)]) -> Vec<IndexEntry> {
    keys.iter().map(|(k, id)| IndexEntry { key: Value::Int4(*k), row_id: *id }).collect()
}

fn index(table: &str, column: &str, name: &str) -> ColumnIndex {
    ColumnIndex { table: table.to_string(), column: column.to_string(), name: name.to_string() }
}

fn store() -> StorageView {
    StorageView {
        tables: vec![
            StoredTable { name: "people".to_string(), schema: people_schema(), rows: people() },
            StoredTable { name: "orders".to_string(), schema: orders_schema(), rows: orders() },
        ],
        materialized_views: Vec::new(),
        system_views: Vec::new(),
        histories: Vec::new(),
        indexes: Vec::new(),
        contents: Vec::new(),
        enum_types: Vec::new(),
        catalog: CatalogView::empty(),
        time_travel_enabled: true,
        branch_active: false,
    }
}

fn indexed_store() -> StorageView {
    let mut s = store();
    s.indexes = vec![index("people", "id", "people_pkey"), index("orders", "person", "orders_person_idx")];
    s.contents = vec![
        IndexContents {
            index: "people_pkey".to_string(),
            entries: entries(&[(1, 1), (2, 2), (3, 3), (4, 4)]),
        },
        IndexContents {
            index: "orders_person_idx".to_string(),
            entries: entries(&[(1, 10), (1, 11), (4, 12), (9, 13)]),
        },
    ];
    s
}

fn scan(table: &str, schema: Schema) -> LogicalPlan {
    LogicalPlan::Scan {
        table_name: table.to_string(),
        alias: None,
        schema: Arc::new(schema),
        projection: None,
        as_of: None,
    }
}

fn scan_people() -> LogicalPlan {
    scan("people", people_schema())
}

fn scan_orders() -> LogicalPlan {
    scan("orders", orders_schema())
}

fn col(name: &str) -> LogicalExpr {
    LogicalExpr::Column { table: None, name: name.to_string() }
}

fn of(table: &str, name: &str) -> LogicalExpr {
    LogicalExpr::Column { table: Some(table.to_string()), name: name.to_string() }
}

fn num(n: i32) -> LogicalExpr {
    LogicalExpr::Literal(Value::Int4(n))
}

fn bin(left: LogicalExpr, op: BinaryOperator, right: LogicalExpr) -> LogicalExpr {
    LogicalExpr::BinaryExpr { left: Box::new(left), op, right: Box::new(right) }
}

fn filter(input: LogicalPlan, predicate: LogicalExpr) -> LogicalPlan {
    LogicalPlan::Filter { input: Box::new(input), predicate }
}

fn project(input: LogicalPlan, names: &[&str]) -> LogicalPlan {
    LogicalPlan::Project {
        input: Box::new(input),
        exprs: names.iter().map(|n| col(n)).collect(),
        aliases: names.iter().map(|n| n.to_string()).collect(),
        distinct: false,
        distinct_on: None,
        source_alias: None,
    }
}

fn limit(input: LogicalPlan, limit: usize, offset: usize) -> LogicalPlan {
    LogicalPlan::Limit {
        input: Box::new(input),
        limit,
        offset,
        limit_param: None,
        offset_param: None,
    }
}

fn sort(input: LogicalPlan, column: &str, asc: bool) -> LogicalPlan {
    LogicalPlan::Sort { input: Box::new(input), exprs: vec![col(column)], asc: vec![asc] }
}

fn join(on: LogicalExpr, join_type: JoinType) -> LogicalPlan {
    LogicalPlan::Join {
        left: Box::new(scan_people()),
        right: Box::new(scan_orders()),
        join_type,
        on: Some(on),
        lateral: false,
    }
}

fn count_star(input: LogicalPlan) -> LogicalPlan {
    LogicalPlan::Aggregate {
        input: Box::new(input),
        group_by: Vec::new(),
        aggr_exprs: vec![LogicalExpr::AggregateFunction {
            fun: AggregateFunction::Count,
            args: vec![LogicalExpr::Wildcard],
            distinct: false,
        }],
        having: None,
    }
}

fn show(rows: Vec<Tuple>) -> Vec<String> {
    rows.iter()
        .map(|t| {
            let shown: Vec<String> = t
                .values
                .iter()
                .map(|v| match v {
                    Value::Null => "NULL".to_string(),
                    Value::Int4(n) => n.to_string(),
                    Value::Int8(n) => n.to_string(),
                    Value::String(s) => s.clone(),
                    Value::Boolean(b) => b.to_string(),
                    other => format!("{:?}", other),
                })
                .collect();
            shown.join("|")
        })
        .collect()
}

fn run(store: &StorageView, plan: &LogicalPlan) -> Vec<String> {
    match Executor::with_storage(store).execute(plan) {
        Ok(rows) => show(rows),
        Err(e) => vec![format!("error: {}", e.to_string())],
    }
}

fn run_with(store: &StorageView, params: Vec<Value>, plan: &LogicalPlan) -> Vec<String> {
    match Executor::with_storage(store).with_parameters(params).execute(plan) {
        Ok(rows) => show(rows),
        Err(e) => vec![format!("error: {}", e.to_string())],
    }
}

fn failure(store: &StorageView, plan: &LogicalPlan) -> String {
    match Executor::with_storage(store).execute(plan) {
        Ok(rows) => panic!("rows came: {:?}", show(rows)),
        Err(e) => e.to_string(),
    }
}

#[test]
fn a_scan_gives_the_rows_of_the_table() {
    assert_eq!(
        run(&store(), &scan_people()),
        vec!["1|Ada|36", "2|Bob|25", "3|Cy|NULL", "4|Dee|25"]
    );
}

#[test]
fn a_scan_keeps_the_columns_of_its_projection() {
    let plan = LogicalPlan::Scan {
        table_name: "people".to_string(),
        alias: None,
        schema: Arc::new(people_schema()),
        projection: Some(vec![1]),
        as_of: None,
    };
    assert_eq!(run(&store(), &plan), vec!["Ada", "Bob", "Cy", "Dee"]);
}

#[test]
fn a_scan_of_a_missing_table_fails() {
    assert!(failure(&store(), &scan("ghosts", people_schema())).contains("'ghosts'"));
}

#[test]
fn a_filter_keeps_only_rows_on_which_it_is_true() {
    let plan = filter(scan_people(), bin(col("age"), BinaryOperator::Lt, num(30)));
    assert_eq!(run(&store(), &plan), vec!["2|Bob|25", "4|Dee|25"]);
}

#[test]
fn an_index_gives_the_rows_that_a_scan_gives() {
    for n in 0..6 {
        let plan = filter(scan_people(), bin(col("id"), BinaryOperator::Eq, num(n)));
        assert_eq!(run(&indexed_store(), &plan), run(&store(), &plan));
        let plan = filter(scan_people(), bin(col("id"), BinaryOperator::Gt, num(n)));
        assert_eq!(run(&indexed_store(), &plan), run(&store(), &plan));
        let plan = filter(scan_people(), bin(num(n), BinaryOperator::GtEq, col("id")));
        assert_eq!(run(&indexed_store(), &plan), run(&store(), &plan));
    }
}

#[test]
fn a_parameter_stands_for_its_value() {
    let plan = filter(
        scan_people(),
        bin(col("id"), BinaryOperator::Eq, LogicalExpr::Parameter { index: 1 }),
    );
    assert_eq!(run_with(&indexed_store(), vec![Value::Int4(4)], &plan), vec!["4|Dee|25"]);
    assert_eq!(run_with(&store(), vec![Value::Int8(4)], &plan), vec!["4|Dee|25"]);
}

#[test]
fn a_select_list_names_and_orders_columns() {
    let plan = project(scan_people(), &["age", "name"]);
    let mut executor_store = store();
    executor_store.branch_active = false;
    let mut executor = Executor::with_storage(&executor_store);
    match executor.execute_with_columns(&plan) {
        Ok((rows, names)) => {
            assert_eq!(names, vec!["age", "name"]);
            assert_eq!(show(rows), vec!["36|Ada", "25|Bob", "NULL|Cy", "25|Dee"]);
        }
        Err(e) => panic!("{}", e.to_string()),
    }
}

#[test]
fn distinct_drops_rows_that_are_there_already() {
    let plan = LogicalPlan::Project {
        input: Box::new(scan_people()),
        exprs: vec![col("age")],
        aliases: vec!["age".to_string()],
        distinct: true,
        distinct_on: None,
        source_alias: None,
    };
    assert_eq!(run(&store(), &plan), vec!["36", "25", "NULL"]);
}

#[test]
fn a_limit_is_a_window_of_the_rows() {
    assert_eq!(run(&store(), &limit(scan_people(), 2, 1)), vec!["2|Bob|25", "3|Cy|NULL"]);
    assert_eq!(run(&store(), &limit(scan_people(), 0, 0)), Vec::<String>::new());
    assert_eq!(run(&store(), &limit(scan_people(), 9, 3)), vec!["4|Dee|25"]);
}

#[test]
fn a_limit_can_be_a_parameter() {
    let plan = LogicalPlan::Limit {
        input: Box::new(scan_people()),
        limit: 100,
        offset: 0,
        limit_param: Some(1),
        offset_param: None,
    };
    let first = |v: Value| run_with(&store(), vec![v], &plan);
    assert_eq!(first(Value::Int8(1)), vec!["1|Ada|36"]);
    assert_eq!(first(text("2")).len(), 2);
    assert_eq!(first(Value::Int4(-5)).len(), 0);
    assert_eq!(first(Value::Null).len(), 4);
    assert_eq!(
        first(text("two")),
        vec!["error: LIMIT/OFFSET parameter $1 is not an integer: \"two\""]
    );
    assert_eq!(
        first(Value::Boolean(true)),
        vec!["error: LIMIT/OFFSET parameter $1 must be integer or integer-string, got Boolean(true)"]
    );
}

#[test]
fn sorting_puts_null_first_and_keeps_the_order_of_equals() {
    assert_eq!(
        run(&store(), &sort(scan_people(), "age", true)),
        vec!["3|Cy|NULL", "2|Bob|25", "4|Dee|25", "1|Ada|36"]
    );
    assert_eq!(
        run(&store(), &sort(scan_people(), "age", false)),
        vec!["1|Ada|36", "2|Bob|25", "4|Dee|25", "3|Cy|NULL"]
    );
}

#[test]
fn the_first_rows_in_the_order_of_an_index_are_the_first_sorted_rows() {
    for k in 0..5 {
        for skipped in 0..3 {
            let plan = limit(sort(scan_people(), "id", true), k, skipped);
            assert_eq!(run(&indexed_store(), &plan), run(&store(), &plan));
        }
    }
}

#[test]
fn an_inner_join_pairs_what_meets() {
    let on = bin(of("people", "id"), BinaryOperator::Eq, of("orders", "person"));
    let mut rows = run(&store(), &join(on, JoinType::Inner));
    rows.sort();
    assert_eq!(rows, vec!["1|Ada|36|1|ink", "1|Ada|36|1|pen", "4|Dee|25|4|cup"]);
}

#[test]
fn outer_joins_keep_rows_without_a_partner() {
    let on = || bin(of("people", "id"), BinaryOperator::Eq, of("orders", "person"));
    let sorted = |t: JoinType| {
        let mut rows = run(&store(), &join(on(), t));
        rows.sort();
        rows
    };
    assert_eq!(
        sorted(JoinType::Left),
        vec![
            "1|Ada|36|1|ink",
            "1|Ada|36|1|pen",
            "2|Bob|25|NULL|NULL",
            "3|Cy|NULL|NULL|NULL",
            "4|Dee|25|4|cup"
        ]
    );
    assert_eq!(
        sorted(JoinType::Right),
        vec!["1|Ada|36|1|ink", "1|Ada|36|1|pen", "4|Dee|25|4|cup", "NULL|NULL|NULL|9|hat"]
    );
    assert_eq!(sorted(JoinType::Full).len(), 6);
}

#[test]
fn a_join_on_an_index_gives_what_the_other_joins_give() {
    let on = || bin(of("people", "id"), BinaryOperator::Eq, of("orders", "person"));
    for t in [JoinType::Inner, JoinType::Left] {
        let mut plain = run(&store(), &join(on(), t));
        let mut indexed = run(&indexed_store(), &join(on(), t));
        plain.sort();
        indexed.sort();
        assert_eq!(plain, indexed);
    }
}

#[test]
fn a_join_without_equality_compares_every_pair() {
    let on = bin(of("people", "id"), BinaryOperator::Gt, of("orders", "person"));
    let rows = run(&store(), &join(on, JoinType::Inner));
    assert_eq!(rows.len(), 6);
}

#[test]
fn a_select_list_over_a_join_keeps_its_columns() {
    let on = bin(of("people", "id"), BinaryOperator::Eq, of("orders", "person"));
    let plan = project(join(on, JoinType::Inner), &["item", "name"]);
    let mut rows = run(&store(), &plan);
    rows.sort();
    assert_eq!(rows, vec!["cup|Dee", "ink|Ada", "pen|Ada"]);
}

#[test]
fn counting_all_rows_gives_their_number() {
    assert_eq!(run(&store(), &count_star(scan_people())), vec!["4"]);
    assert_eq!(run(&indexed_store(), &count_star(scan_people())), vec!["4"]);
}

#[test]
fn counting_takes_the_rows_of_any_input() {
    let s = store();
    let on = || bin(of("people", "id"), BinaryOperator::Eq, of("orders", "person"));
    assert_eq!(run(&s, &count_star(join(on(), JoinType::Inner))), vec!["3"]);
    assert_eq!(run(&s, &count_star(join(on(), JoinType::Full))), vec!["6"]);
    assert_eq!(run(&s, &count_star(LogicalPlan::DualScan)), vec!["1"]);
    assert_eq!(run(&s, &count_star(limit(scan_people(), 3, 0))), vec!["3"]);
    assert_eq!(run(&s, &count_star(sort(scan_people(), "age", true))), vec!["4"]);
    assert_eq!(run(&s, &count_star(count_star(scan_people()))), vec!["1"]);
    let older = LogicalPlan::FilteredScan {
        table_name: "people".to_string(),
        alias: None,
        schema: Arc::new(people_schema()),
        projection: None,
        predicate: Some(bin(col("age"), BinaryOperator::Gt, num(30))),
        as_of: None,
    };
    assert_eq!(run(&s, &count_star(older)), vec!["1"]);
    let both = LogicalPlan::Union { left: Box::new(scan_people()), right: Box::new(scan_people()), all: true };
    assert_eq!(run(&s, &count_star(both)), vec!["8"]);
    let with = LogicalPlan::With {
        ctes: vec![("few".to_string(), Box::new(limit(scan_people(), 2, 0)), None)],
        query: Box::new(count_star(scan("few", people_schema()))),
        recursive: false,
    };
    assert_eq!(run(&s, &with), vec!["2"]);
}

#[test]
fn counting_in_a_subquery_gives_its_value() {
    let many = LogicalExpr::ScalarSubquery { subquery: Box::new(count_star(scan_orders())) };
    let p = bin(col("id"), BinaryOperator::Eq, many);
    assert_eq!(run(&store(), &project(filter(scan_people(), p), &["name"])), vec!["Dee"]);
}

#[test]
fn a_limit_over_distinct_rows_takes_distinct_rows() {
    let distinct = |input: LogicalPlan| LogicalPlan::Project {
        input: Box::new(input),
        exprs: vec![col("age")],
        aliases: vec!["age".to_string()],
        distinct: true,
        distinct_on: None,
        source_alias: None,
    };
    assert_eq!(run(&store(), &limit(distinct(scan_people()), 3, 0)), vec!["36", "25", "NULL"]);
    assert_eq!(run(&store(), &limit(distinct(scan_people()), 2, 1)), vec!["25", "NULL"]);
}

#[test]
fn a_right_join_keeps_a_row_whose_key_is_null() {
    let mut s = store();
    let numbers = Schema { columns: vec![Column::new("n", DataType::Int4)] };
    s.tables = vec![
        StoredTable {
            name: "l".to_string(),
            schema: numbers.clone(),
            rows: vec![row(1, vec![Value::Int4(1)])],
        },
        StoredTable {
            name: "r".to_string(),
            schema: numbers.clone(),
            rows: vec![row(1, vec![Value::Int4(1)]), row(2, vec![Value::Null])],
        },
    ];
    let plan = |join_type: JoinType| LogicalPlan::Join {
        left: Box::new(scan("l", numbers.clone())),
        right: Box::new(scan("r", numbers.clone())),
        join_type,
        on: Some(bin(of("l", "n"), BinaryOperator::Eq, of("r", "n"))),
        lateral: false,
    };
    assert_eq!(run(&s, &plan(JoinType::Right)), vec!["1|1", "NULL|NULL"]);
    assert_eq!(run(&s, &plan(JoinType::Full)), vec!["1|1", "NULL|NULL"]);
    assert_eq!(run(&s, &plan(JoinType::Left)), vec!["1|1"]);
    assert_eq!(run(&s, &plan(JoinType::Inner)), vec!["1|1"]);
}

#[test]
fn a_system_view_needs_a_storage() {
    let view = scan("pg_class", orders_schema());
    let mut alone = Executor::new().with_system_views(vec!["pg_class".to_string()]);
    match alone.execute(&view) {
        Ok(rows) => panic!("rows came: {:?}", show(rows)),
        Err(e) => assert_eq!(e.to_string(), "system view requires storage context"),
    }
    match Executor::new().execute(&view) {
        Ok(rows) => assert!(rows.is_empty()),
        Err(e) => panic!("{}", e.to_string()),
    }
    let mut s = store();
    s.system_views = vec![StoredTable { name: "pg_class".to_string(), schema: orders_schema(), rows: orders() }];
    assert_eq!(run(&s, &project(view, &["item"])), vec!["pen", "ink", "cup", "hat"]);
}

#[test]
fn counting_with_a_key_range_counts_the_true_rows() {
    for n in 0..6 {
        let p = || bin(col("id"), BinaryOperator::GtEq, num(n));
        let rows = run(&store(), &filter(scan_people(), p()));
        assert_eq!(
            run(&store(), &count_star(filter(scan_people(), p()))),
            vec![rows.len().to_string()]
        );
    }
}

#[test]
fn a_union_joins_rows_and_drops_repetitions_unless_all() {
    let union = |all: bool| LogicalPlan::Union {
        left: Box::new(project(scan_people(), &["age"])),
        right: Box::new(project(scan_people(), &["age"])),
        all,
    };
    assert_eq!(run(&store(), &union(true)).len(), 8);
    assert_eq!(run(&store(), &union(false)), vec!["36", "25", "NULL"]);
}

#[test]
fn set_operations_count_the_rows_of_each_kind() {
    let ages = || Box::new(project(scan_people(), &["age"]));
    let young = || {
        let p = bin(col("age"), BinaryOperator::Lt, num(30));
        Box::new(project(filter(scan_people(), p), &["age"]))
    };
    let intersect = |all: bool| LogicalPlan::Intersect { left: ages(), right: young(), all };
    let except = |all: bool| LogicalPlan::Except { left: ages(), right: young(), all };
    assert_eq!(run(&store(), &intersect(true)), vec!["25", "25"]);
    assert_eq!(run(&store(), &intersect(false)), vec!["25"]);
    assert_eq!(run(&store(), &except(true)), vec!["36", "NULL"]);
    assert_eq!(run(&store(), &except(false)), vec!["36", "NULL"]);

    // One row less on the right side leaves one row more.
    let first = || {
        Box::new(LogicalPlan::Limit {
            input: young(),
            limit: 1,
            offset: 0,
            limit_param: None,
            offset_param: None,
        })
    };
    let fewer = LogicalPlan::Except { left: ages(), right: first(), all: true };
    assert_eq!(run(&store(), &fewer), vec!["36", "NULL", "25"]);
    let fewer = LogicalPlan::Intersect { left: ages(), right: first(), all: true };
    assert_eq!(run(&store(), &fewer), vec!["25"]);
}

#[test]
fn a_common_table_expression_is_seen_under_its_name() {
    let young = filter(scan_people(), bin(col("age"), BinaryOperator::Lt, num(30)));
    let plan = LogicalPlan::With {
        ctes: vec![("young".to_string(), Box::new(project(young, &["name"])), None)],
        query: Box::new(scan("young", Schema { columns: vec![Column::new("name", DataType::Text)] })),
        recursive: false,
    };
    assert_eq!(run(&store(), &plan), vec!["Bob", "Dee"]);
}

#[test]
fn a_recursive_expression_runs_until_nothing_new_comes() {
    let n_schema = || Schema { columns: vec![Column::new("n", DataType::Int4)] };
    let start = LogicalPlan::Project {
        input: Box::new(LogicalPlan::DualScan),
        exprs: vec![num(1)],
        aliases: vec!["n".to_string()],
        distinct: false,
        distinct_on: None,
        source_alias: None,
    };
    let edges = || Schema {
        columns: vec![Column::new("a", DataType::Int4), Column::new("b", DataType::Int4)],
    };
    let mut s = store();
    s.tables.push(StoredTable {
        name: "edges".to_string(),
        schema: edges(),
        rows: [(1, 2), (2, 3), (3, 4), (7, 8)]
            .iter()
            .map(|(a, b)| Tuple::new(vec![Value::Int4(*a), Value::Int4(*b)]))
            .collect(),
    });
    let step = project(
        LogicalPlan::Join {
            left: Box::new(scan("up", n_schema())),
            right: Box::new(scan("edges", edges())),
            join_type: JoinType::Inner,
            on: Some(bin(of("up", "n"), BinaryOperator::Eq, of("edges", "a"))),
            lateral: false,
        },
        &["b"],
    );
    let plan = LogicalPlan::With {
        ctes: vec![(
            "up".to_string(),
            Box::new(LogicalPlan::Union { left: Box::new(start), right: Box::new(step), all: true }),
            None,
        )],
        query: Box::new(scan("up", n_schema())),
        recursive: true,
    };
    assert_eq!(run(&s, &plan), vec!["1", "2", "3", "4"]);
}

#[test]
fn a_subquery_can_be_a_list_a_value_or_a_question() {
    let who = || {
        Box::new(project(
            filter(scan_orders(), bin(col("item"), BinaryOperator::Eq, LogicalExpr::Literal(text("cup")))),
            &["person"],
        ))
    };
    let listed = filter(
        scan_people(),
        LogicalExpr::InSubquery { expr: Box::new(col("id")), subquery: who(), negated: false },
    );
    assert_eq!(run(&store(), &listed), vec!["4|Dee|25"]);
    let single = filter(
        scan_people(),
        bin(col("id"), BinaryOperator::Eq, LogicalExpr::ScalarSubquery { subquery: who() }),
    );
    assert_eq!(run(&store(), &single), vec!["4|Dee|25"]);
    let asked = filter(scan_people(), LogicalExpr::Exists { subquery: who(), negated: true });
    assert_eq!(run(&store(), &asked).len(), 0);
}

#[test]
fn a_correlated_subquery_is_asked_for_every_row() {
    let mut inner = orders_schema();
    for c in &mut inner.columns {
        c.source_table = Some("orders".to_string());
        c.source_table_name = Some("orders".to_string());
    }
    let own = LogicalPlan::FilteredScan {
        table_name: "orders".to_string(),
        alias: None,
        schema: Arc::new(inner),
        projection: None,
        predicate: Some(bin(of("orders", "person"), BinaryOperator::Eq, of("people", "id"))),
        as_of: None,
    };
    let mut outer = people_schema();
    for c in &mut outer.columns {
        c.source_table = Some("people".to_string());
        c.source_table_name = Some("people".to_string());
    }
    let plan = filter(
        scan("people", outer),
        LogicalExpr::Exists { subquery: Box::new(own), negated: false },
    );
    assert_eq!(run(&store(), &plan), vec!["1|Ada|36", "4|Dee|25"]);
}

fn sourced(schema: Schema, table: &str) -> Schema {
    let mut schema = schema;
    for c in &mut schema.columns {
        c.source_table = Some(table.to_string());
        c.source_table_name = Some(table.to_string());
    }
    schema
}

/// `SELECT MAX(person) FROM orders`, for the person around it or for all.
fn greatest(correlated: bool) -> LogicalPlan {
    let rows = LogicalPlan::FilteredScan {
        table_name: "orders".to_string(),
        alias: None,
        schema: Arc::new(sourced(orders_schema(), "orders")),
        projection: None,
        predicate: if correlated {
            Some(bin(of("orders", "person"), BinaryOperator::Eq, of("people", "id")))
        } else {
            None
        },
        as_of: None,
    };
    let max = LogicalExpr::AggregateFunction {
        fun: AggregateFunction::Max,
        args: vec![col("person")],
        distinct: false,
    };
    project(
        LogicalPlan::Aggregate {
            input: Box::new(rows),
            group_by: Vec::new(),
            aggr_exprs: vec![max],
            having: None,
        },
        &["max"],
    )
}

/// The three ways to ask a subquery.
fn asked(subquery: LogicalPlan) -> Vec<LogicalExpr> {
    let sub = || Box::new(subquery.clone());
    vec![
        bin(col("id"), BinaryOperator::Eq, LogicalExpr::ScalarSubquery { subquery: sub() }),
        LogicalExpr::Exists { subquery: sub(), negated: false },
        LogicalExpr::InSubquery { expr: Box::new(col("id")), subquery: sub(), negated: false },
    ]
}

#[test]
fn what_is_left_to_the_database_is_refused_in_a_subquery_too() {
    let s = store();
    for correlated in [false, true] {
        for question in asked(greatest(correlated)) {
            let rows = || scan("people", sourced(people_schema(), "people"));
            let filtered = filter(rows(), question.clone());
            assert!(failure(&s, &filtered).starts_with("Operator not yet implemented: Aggregate"));
            let listed = LogicalPlan::Project {
                input: Box::new(rows()),
                exprs: vec![question],
                aliases: vec!["q".to_string()],
                distinct: false,
                distinct_on: None,
                source_alias: None,
            };
            assert!(failure(&s, &listed).starts_with("Operator not yet implemented: Aggregate"));
        }
    }
}

#[test]
fn a_refused_expression_reaches_the_caller_of_a_subquery() {
    let s = store();
    let cast = LogicalPlan::Project {
        input: Box::new(LogicalPlan::DualScan),
        exprs: vec![LogicalExpr::Cast { expr: Box::new(num(1)), data_type: DataType::Text }],
        aliases: vec!["c".to_string()],
        distinct: false,
        distinct_on: None,
        source_alias: None,
    };
    for question in asked(cast) {
        assert_eq!(failure(&s, &filter(scan_people(), question)), "Expression cannot be evaluated on a row");
    }
    let windowed = LogicalPlan::Project {
        input: Box::new(scan_orders()),
        exprs: vec![LogicalExpr::WindowFunction {
            fun: "row_number".to_string(),
            args: Vec::new(),
            partition_by: Vec::new(),
            order_by: Vec::new(),
        }],
        aliases: vec!["n".to_string()],
        distinct: false,
        distinct_on: None,
        source_alias: None,
    };
    for question in asked(windowed) {
        assert_eq!(
            failure(&s, &filter(scan_people(), question)),
            "Operator not yet implemented: WindowFunction"
        );
    }
}

#[test]
fn a_subquery_that_fails_has_no_rows() {
    let s = store();
    let missing = || Box::new(scan("nowhere", orders_schema()));
    let none = LogicalExpr::IsNull {
        expr: Box::new(LogicalExpr::ScalarSubquery { subquery: missing() }),
        is_null: true,
    };
    assert_eq!(run(&s, &filter(scan_people(), none)).len(), 4);
    let never = LogicalExpr::Exists { subquery: missing(), negated: true };
    assert_eq!(run(&s, &filter(scan_people(), never)).len(), 4);
    let listed = LogicalExpr::InSubquery { expr: Box::new(col("id")), subquery: missing(), negated: false };
    assert_eq!(failure(&s, &filter(scan_people(), listed)), "Table 'nowhere' does not exist");
}

#[test]
fn rows_are_kept_and_listed_by_what_was_answered_for_each() {
    let s = store();
    let schema = Arc::new(people_schema());
    let over = |n: i32| bin(col("age"), BinaryOperator::Gt, num(n));
    let tested: Vec<(Tuple, LogicalExpr)> = people().into_iter().zip([over(30), over(30), over(30), over(20)]).collect();
    match keep_answered(&tested, &schema, &Vec::new()) {
        Ok(plan) => assert_eq!(run(&s, &plan), vec!["1|Ada|36", "4|Dee|25"]),
        Err(e) => panic!("{}", e.to_string()),
    }
    let failing = vec![(people()[0].clone(), col("nothing"))];
    assert!(keep_answered(&failing, &schema, &Vec::new()).is_err());
    let listed: Vec<(Tuple, Vec<LogicalExpr>)> =
        people().into_iter().zip(7..).map(|(t, n)| (t, vec![col("name"), num(n)])).collect();
    let exprs = vec![col("name"), LogicalExpr::ScalarSubquery { subquery: Box::new(greatest(true)) }];
    let aliases = vec!["who".to_string(), "best".to_string()];
    match list_answered(&listed, &exprs, &aliases, &schema, &Vec::new()) {
        Ok(plan) => {
            assert_eq!(run(&s, &plan), vec!["Ada|7", "Bob|8", "Cy|9", "Dee|10"]);
            match Executor::with_storage(&s).execute_with_columns(&plan) {
                Ok((rows, names)) => {
                    assert_eq!(names, vec!["who", "best"]);
                    assert_eq!(rows[2].row_id, Some(3));
                }
                Err(e) => panic!("{}", e.to_string()),
            }
        }
        Err(e) => panic!("{}", e.to_string()),
    }
    let wrong = vec![(people()[0].clone(), vec![col("nothing")])];
    assert!(list_answered(&wrong, &exprs, &aliases, &schema, &Vec::new()).is_err());
}

#[test]
fn rows_at_hand_stand_where_a_table_stands() {
    let s = store();
    let answer = || LogicalPlan::Rows {
        schema: Arc::new(sourced(orders_schema(), "best")),
        rows: vec![row(1, vec![Value::Int4(4), text("cup")]), row(2, vec![Value::Int4(2), text("hat")])],
    };
    assert_eq!(run(&s, &answer()), vec!["4|cup", "2|hat"]);
    let met = LogicalPlan::Join {
        left: Box::new(scan_people()),
        right: Box::new(answer()),
        join_type: JoinType::Inner,
        on: Some(bin(of("people", "id"), BinaryOperator::Eq, of("best", "person"))),
        lateral: false,
    };
    assert_eq!(run(&s, &met), vec!["2|Bob|25|2|hat", "4|Dee|25|4|cup"]);
    for (question, found) in asked(project(answer(), &["person"])).into_iter().zip([1, 4, 2]) {
        assert_eq!(run(&s, &filter(scan_people(), question)).len(), found);
    }
    assert_eq!(run(&s, &count_star(answer())), vec!["2"]);
}

#[test]
fn a_table_function_gives_its_series() {
    let plan = LogicalPlan::TableFunction {
        function_name: "generate_series".to_string(),
        args: vec![num(2), num(8), num(3)],
        alias: None,
    };
    assert_eq!(run(&store(), &plan), vec!["2", "5", "8"]);
    let bad = LogicalPlan::TableFunction {
        function_name: "generate_series".to_string(),
        args: vec![LogicalExpr::Parameter { index: 1 }, num(8)],
        alias: None,
    };
    assert_eq!(
        run_with(&store(), vec![Value::Boolean(true)], &bad),
        vec!["error: Expected integer parameter for table function, got Boolean(true)"]
    );
}

#[test]
fn a_predicate_that_is_no_truth_value_is_named() {
    let plan = filter(scan_people(), num(25));
    assert_eq!(
        failure(&store(), &plan),
        "Filter predicate must evaluate to boolean, got: Int4(25)"
    );
}

#[test]
fn a_transaction_sees_its_own_writes() {
    let s = indexed_store();
    let mut written = people();
    written.push(row(5, vec![Value::Int4(5), text("Eve"), Value::Int4(20)]));
    let txn = TransactionView {
        read_committed: false,
        in_session: true,
        written: vec!["people".to_string()],
        tables: vec![StoredTable { name: "people".to_string(), schema: people_schema(), rows: written }],
    };
    let mut executor = Executor::with_storage(&s).with_transaction(&txn);
    let plan = filter(scan_people(), bin(col("id"), BinaryOperator::Eq, num(5)));
    match executor.execute(&plan) {
        Ok(rows) => assert_eq!(show(rows), vec!["5|Eve|20"]),
        Err(e) => panic!("{}", e.to_string()),
    }
}

#[test]
fn a_scan_can_look_at_the_past() {
    let mut s = store();
    s.histories = vec![History {
        table: "people".to_string(),
        as_of: AsOfClause::Transaction(7),
        rows: vec![row(1, vec![Value::Int4(1), text("Ada"), Value::Int4(35)])],
    }];
    let plan = LogicalPlan::Scan {
        table_name: "people".to_string(),
        alias: None,
        schema: Arc::new(people_schema()),
        projection: None,
        as_of: Some(AsOfClause::Transaction(7)),
    };
    assert_eq!(run(&s, &plan), vec!["1|Ada|35"]);
}

#[test]
fn a_materialized_view_gives_the_rows_of_its_data_table() {
    let mut s = store();
    s.materialized_views = vec![MaterializedView {
        name: "folk".to_string(),
        schema: people_schema(),
        data_table: "people".to_string(),
    }];
    assert_eq!(run(&s, &scan("folk", people_schema())).len(), 4);
}

#[test]
fn a_join_larger_than_its_memory_is_refused() {
    let s = store();
    let on = bin(of("people", "id"), BinaryOperator::Eq, of("orders", "person"));
    let mut settings = Settings::standard();
    settings.join_memory_limit = 1;
    let mut executor = Executor::with_storage(&s).with_settings(settings);
    match executor.execute(&join(on, JoinType::Full)) {
        Ok(_) => panic!("the join must not fit"),
        Err(e) => assert!(e.to_string().contains("Join exceeds memory limit")),
    }
}

#[test]
fn a_time_limit_that_is_over_stops_the_query() {
    let s = store();
    let mut executor = Executor::with_storage(&s).with_timeout(Some(0));
    match executor.execute(&scan_people()) {
        Ok(rows) => assert_eq!(rows.len(), 4),
        Err(e) => assert!(e.to_string().contains("timeout")),
    }
    let mut executor = Executor::with_storage(&s).with_timeout(Some(600_000));
    assert_eq!(executor.execute(&scan_people()).map(|r| r.len()).unwrap_or(0), 4);
}

#[test]
fn statements_without_rows_say_what_they_did() {
    let s = store();
    assert_eq!(run(&s, &LogicalPlan::DualScan), vec![""]);
    assert_eq!(
        run(&s, &LogicalPlan::CreateFunction { name: "f".to_string() }),
        vec!["Function 'f' created"]
    );
    assert_eq!(
        run(&s, &LogicalPlan::DropProcedure { name: "p".to_string(), if_exists: true }),
        vec!["Procedure 'p' dropped (if exists)"]
    );
    assert_eq!(
        run(&s, &LogicalPlan::Call { name: "p".to_string(), args: vec![num(1), num(2)] }),
        vec!["Procedure 'p' called with 2 arguments"]
    );
    assert_eq!(
        failure(&s, &LogicalPlan::DropEnumType { name: "mood".to_string(), if_exists: false }),
        "type \"mood\" does not exist"
    );
    assert_eq!(
        failure(&s, &LogicalPlan::CreateExtension { name: "x".to_string(), if_not_exists: false }),
        "unknown extension: 'x' (known: hdb_code)"
    );
    let grouped = LogicalPlan::Aggregate {
        input: Box::new(scan_people()),
        group_by: vec![col("age")],
        aggr_exprs: Vec::new(),
        having: None,
    };
    assert_eq!(failure(&s, &grouped), format!("Operator not yet implemented: {:?}", grouped));
}

#[test]
fn the_same_answer_comes_with_every_shortcut_off() {
    let s = indexed_store();
    let on = || bin(of("people", "id"), BinaryOperator::Eq, of("orders", "person"));
    let off = Settings {
        join_memory_limit: Settings::standard().join_memory_limit,
        index_range_off: true,
        lookup_join_off: true,
        build_right_only: true,
    };
    let plans = vec![
        join(on(), JoinType::Inner),
        filter(scan_people(), bin(col("id"), BinaryOperator::Gt, num(3))),
        limit(sort(scan_people(), "id", true), 2, 0),
    ];
    for plan in &plans {
        let mut with = run(&s, plan);
        let mut without = match Executor::with_storage(&s).with_settings(off).execute(plan) {
            Ok(rows) => show(rows),
            Err(e) => panic!("{}", e.to_string()),
        };
        with.sort();
        without.sort();
        assert_eq!(with, without);
    }
}

fn with_cte(plan: LogicalPlan, columns: Vec<Column>, names: Option<Vec<String>>) -> LogicalPlan {
    LogicalPlan::With {
        ctes: vec![("c".to_string(), Box::new(plan), names)],
        query: Box::new(scan("c", Schema { columns })),
        recursive: false,
    }
}

fn columns_of(store: &StorageView, plan: &LogicalPlan) -> Vec<String> {
    match Executor::with_storage(store).execute_with_columns(plan) {
        Ok((_, names)) => names,
        Err(e) => vec![format!("error: {}", e.to_string())],
    }
}

#[test]
fn a_common_table_expression_has_the_columns_of_its_plan() {
    let s = store();
    let answered = LogicalPlan::Rows {
        schema: Arc::new(orders_schema()),
        rows: vec![Tuple::new(vec![Value::Int4(1), text("pen")])],
    };
    let plan = with_cte(answered.clone(), orders_schema().columns, None);
    assert_eq!(columns_of(&s, &plan), vec!["person", "item"]);
    assert_eq!(run(&s, &plan), vec!["1|pen"]);
    let renamed = with_cte(
        answered,
        orders_schema().columns,
        Some(vec!["who".to_string(), "what".to_string()]),
    );
    assert_eq!(columns_of(&s, &renamed), vec!["who", "what"]);
    let counted = with_cte(count_star(scan_people()), Vec::new(), None);
    assert_eq!(columns_of(&s, &counted), vec!["agg_0"]);
    assert_eq!(run(&s, &counted), vec!["4"]);
    let named = with_cte(count_star(scan_people()), Vec::new(), Some(vec!["many".to_string()]));
    assert_eq!(columns_of(&s, &named), vec!["many"]);
    assert_eq!(columns_of(&s, &with_cte(LogicalPlan::DualScan, Vec::new(), None)), Vec::<String>::new());
}

#[test]
fn a_subquery_whose_query_fails_reads_as_nothing() {
    let s = store();
    let mixed = || filter(scan_orders(), bin(col("person"), BinaryOperator::Lt, col("item")));
    assert_eq!(failure(&s, &mixed()), "Cannot compare Int4 with String");
    let value = LogicalPlan::Project {
        input: Box::new(LogicalPlan::DualScan),
        exprs: vec![
            LogicalExpr::ScalarSubquery { subquery: Box::new(mixed()) },
            LogicalExpr::Exists { subquery: Box::new(mixed()), negated: false },
            LogicalExpr::Exists { subquery: Box::new(mixed()), negated: true },
            LogicalExpr::ScalarSubquery { subquery: Box::new(LogicalPlan::ShowTopology) },
        ],
        aliases: vec!["a".to_string(), "b".to_string(), "c".to_string(), "d".to_string()],
        distinct: false,
        distinct_on: None,
        source_alias: None,
    };
    assert_eq!(run(&s, &value), vec!["NULL|false|true|NULL"]);
}

#[test]
fn counting_takes_only_what_is_true() {
    let s = store();
    let aged = || filter(scan_people(), bin(col("age"), BinaryOperator::Eq, num(25)));
    assert_eq!(run(&s, &count_star(aged())), vec!["2"]);
    let number = || filter(scan_people(), num(1));
    assert_eq!(run(&s, &count_star(number())), vec!["0"]);
    assert_eq!(failure(&s, &number()), "Filter predicate must evaluate to boolean, got: Int4(1)");
    let listed = || filter(project(scan_people(), &["age"]), bin(col("age"), BinaryOperator::Lt, num(30)));
    assert_eq!(run(&s, &count_star(listed())), vec!["2"]);
    let mixed = filter(scan_orders(), bin(col("person"), BinaryOperator::Lt, col("item")));
    assert_eq!(failure(&s, &count_star(mixed)), "Cannot compare Int4 with String");
    let correlated = filter(
        scan_people(),
        LogicalExpr::Exists {
            subquery: Box::new(filter(
                scan_orders(),
                bin(of("orders", "person"), BinaryOperator::Eq, of("people", "id")),
            )),
            negated: false,
        },
    );
    assert_eq!(run(&s, &count_star(correlated)), vec!["2"]);
}
