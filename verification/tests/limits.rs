use helios_exec::executor::any_operator::AnyOperator;
use helios_exec::executor::ddl::CatalogView;
use helios_exec::executor::filter::FilterOperator;
use helios_exec::executor::hash_join::HashJoinOperator;
use helios_exec::executor::nested_loop::NestedLoopJoinOperator;
use helios_exec::executor::operator::{PhysicalOperator, TimeoutContext};
use helios_exec::executor::project::{LimitOperator, ProjectOperator};
use helios_exec::executor::query::Executor;
use helios_exec::executor::scan::ScanOperator;
use helios_exec::executor::storage_view::{StorageView, StoredTable};
use helios_exec::logical_plan::{
    AggregateFunction, BinaryOperator, JoinType, LogicalExpr, LogicalPlan,
};
use helios_exec::schema::{Column, Error, Schema, Tuple};
use helios_exec::value::{DataType, Value};
use std::sync::Arc;

fn schema() -> Arc<Schema> {
    Arc::new(Schema { columns: vec![Column::new("n", DataType::Int4)] })
}

fn rows() -> Vec<Tuple> {
    vec![Tuple::new(vec![Value::Int4(1)]), Tuple::new(vec![Value::Int4(2)])]
}

fn store() -> StorageView {
    StorageView {
        tables: vec![StoredTable {
            name: "t".to_string(),
            schema: Schema { columns: vec![Column::new("n", DataType::Int4)] },
            rows: rows(),
        }],
        materialized_views: Vec::new(),
        system_views: Vec::new(),
        histories: Vec::new(),
        indexes: Vec::new(),
        contents: Vec::new(),
        enum_types: Vec::new(),
        catalog: CatalogView::empty(),
        time_travel_enabled: false,
        branch_active: false,
    }
}

fn n() -> LogicalExpr {
    LogicalExpr::Column { table: None, name: "n".to_string() }
}

fn positive() -> LogicalExpr {
    LogicalExpr::BinaryExpr {
        left: Box::new(n()),
        op: BinaryOperator::Gt,
        right: Box::new(LogicalExpr::Literal(Value::Int4(0))),
    }
}

fn scan() -> LogicalPlan {
    LogicalPlan::Scan {
        table_name: "t".to_string(),
        alias: None,
        schema: schema(),
        projection: None,
        as_of: None,
    }
}

fn filter(input: LogicalPlan) -> LogicalPlan {
    LogicalPlan::Filter { input: Box::new(input), predicate: positive() }
}

fn list(input: LogicalPlan) -> LogicalPlan {
    LogicalPlan::Project {
        input: Box::new(input),
        exprs: vec![n()],
        aliases: vec!["m".to_string()],
        distinct: false,
        distinct_on: None,
        source_alias: None,
    }
}

fn sort(input: LogicalPlan) -> LogicalPlan {
    LogicalPlan::Sort { input: Box::new(input), exprs: vec![n()], asc: vec![true] }
}

fn limit(input: LogicalPlan) -> LogicalPlan {
    LogicalPlan::Limit {
        input: Box::new(input),
        limit: 1,
        offset: 0,
        limit_param: None,
        offset_param: None,
    }
}

fn join(left: LogicalPlan, right: LogicalPlan, on: Option<LogicalExpr>) -> LogicalPlan {
    LogicalPlan::Join {
        left: Box::new(left),
        right: Box::new(right),
        join_type: JoinType::Inner,
        on,
        lateral: false,
    }
}

fn at_hand() -> LogicalPlan {
    LogicalPlan::Rows { schema: schema(), rows: rows() }
}

fn ended_by(r: Result<Vec<Tuple>, Error>, limit: u64) -> bool {
    match r {
        Ok(_) => false,
        Err(e) => {
            let head = format!("Query exceeded timeout limit of {}ms (elapsed: ", limit);
            matches!(e, Error::QueryTimeout(_)) && e.to_string().starts_with(&head)
        }
    }
}

fn values(r: Result<Vec<Tuple>, Error>) -> Option<Vec<Vec<Value>>> {
    r.ok().map(|rows| rows.into_iter().map(|t| t.values).collect())
}

fn all() -> Option<Vec<Vec<Value>>> {
    values(Ok(rows()))
}

fn drained<O: PhysicalOperator>(op: O) -> Result<Vec<Tuple>, Error> {
    let mut op = op;
    let mut out = Vec::new();
    while let Some(row) = op.next()? {
        out.push(row);
    }
    Ok(out)
}

fn boxed_scan(limit: Option<TimeoutContext>) -> Box<AnyOperator> {
    Box::new(AnyOperator::of_scan(
        ScanOperator::new("t".to_string(), schema(), None, rows(), Vec::new()).with_timeout(limit),
    ))
}

fn no_time() -> Option<TimeoutContext> {
    Some(TimeoutContext::new(Some(0)))
}

fn all_time() -> Option<TimeoutContext> {
    Some(TimeoutContext::new(None))
}

fn timed_plans() -> Vec<LogicalPlan> {
    let count = LogicalPlan::Aggregate {
        input: Box::new(filter(scan())),
        group_by: Vec::new(),
        aggr_exprs: vec![LogicalExpr::AggregateFunction {
            fun: AggregateFunction::Count,
            args: vec![LogicalExpr::Wildcard],
            distinct: false,
        }],
        having: None,
    };
    let both = LogicalPlan::Union { left: Box::new(scan()), right: Box::new(at_hand()), all: true };
    let with = LogicalPlan::With {
        ctes: vec![("c".to_string(), Box::new(at_hand()), None)],
        query: Box::new(LogicalPlan::Scan {
            table_name: "c".to_string(),
            alias: None,
            schema: schema(),
            projection: None,
            as_of: None,
        }),
        recursive: false,
    };
    vec![
        scan(),
        filter(scan()),
        filter(at_hand()),
        list(scan()),
        limit(scan()),
        sort(scan()),
        sort(at_hand()),
        limit(sort(at_hand())),
        join(scan(), scan(), None),
        join(at_hand(), at_hand(), Some(positive())),
        join(at_hand(), at_hand(), None),
        both,
        with,
        count,
        LogicalPlan::CreateSchema { name: "s".to_string(), if_not_exists: false },
        LogicalPlan::CreateSequence { name: "s".to_string(), if_not_exists: false },
    ]
}

#[test]
fn the_limit_of_an_executor_ends_its_plans() {
    let s = store();
    for plan in timed_plans() {
        assert!(ended_by(Executor::with_storage(&s).with_timeout(Some(0)).execute(&plan), 0));
    }
}

#[test]
fn a_limit_that_is_not_exceeded_changes_nothing() {
    let s = store();
    for plan in timed_plans() {
        let free = Executor::with_storage(&s).execute(&plan);
        let long = Executor::with_storage(&s).with_timeout(Some(600_000)).execute(&plan);
        let none = Executor::with_storage(&s).with_timeout(None).execute(&plan);
        let free = values(free);
        assert!(free.is_some());
        assert_eq!(free, values(long));
        assert_eq!(free, values(none));
    }
}

#[test]
fn rows_at_hand_are_under_no_limit() {
    let s = store();
    let plans = vec![
        at_hand(),
        LogicalPlan::DualScan,
        list(at_hand()),
        limit(at_hand()),
        LogicalPlan::CreateExtension { name: "x".to_string(), if_not_exists: true },
        LogicalPlan::CreateFunction { name: "f".to_string() },
    ];
    for plan in plans {
        assert!(Executor::with_storage(&s).with_timeout(Some(0)).execute(&plan).is_ok());
    }
}

#[test]
fn a_filter_has_a_limit_of_its_own() {
    let made = || FilterOperator::new(boxed_scan(None), positive(), Vec::new());
    assert!(ended_by(drained(made().with_timeout(no_time())), 0));
    assert_eq!(values(drained(made().with_timeout(all_time()))), all());
    assert_eq!(values(drained(made().with_timeout(None))), all());
    assert_eq!(values(drained(made())), all());
    let over = FilterOperator::new(boxed_scan(no_time()), positive(), Vec::new());
    assert!(ended_by(drained(over.with_timeout(all_time())), 0));
}

#[test]
fn a_list_and_a_window_leave_the_limit_to_their_input() {
    let shown = |input: Box<AnyOperator>| {
        ProjectOperator::new(input, vec![n()], vec!["m".to_string()], false, Vec::new())
    };
    assert_eq!(values(drained(shown(boxed_scan(None)).with_timeout(no_time()))), all());
    assert!(ended_by(drained(shown(boxed_scan(no_time())).with_timeout(None)), 0));
    let first = LimitOperator::new(boxed_scan(None), 1, 0).with_timeout(no_time());
    assert_eq!(values(drained(first)), Some(vec![vec![Value::Int4(1)]]));
    assert!(ended_by(drained(LimitOperator::new(boxed_scan(no_time()), 1, 0)), 0));
}

#[test]
fn a_join_is_under_the_limits_of_what_it_reads() {
    let looped = |left: Option<TimeoutContext>, right: Option<TimeoutContext>, own: Option<TimeoutContext>| {
        match NestedLoopJoinOperator::new(
            boxed_scan(left),
            boxed_scan(right),
            JoinType::Inner,
            None,
            Vec::new(),
            own,
        ) {
            Ok(op) => drained(op),
            Err(e) => Err(e),
        }
    };
    let hashed = |left: Option<TimeoutContext>, right: Option<TimeoutContext>, own: Option<TimeoutContext>| {
        match HashJoinOperator::new(
            boxed_scan(left),
            boxed_scan(right),
            JoinType::Inner,
            None,
            Vec::new(),
            own,
        ) {
            Ok(op) => drained(op),
            Err(e) => Err(e),
        }
    };
    assert!(ended_by(looped(no_time(), None, None), 0));
    assert!(ended_by(looped(None, no_time(), None), 0));
    assert!(ended_by(looped(None, None, no_time()), 0));
    assert_eq!(looped(None, None, all_time()).map(|r| r.len()).ok(), Some(4));
    assert!(ended_by(hashed(no_time(), None, None), 0));
    assert!(ended_by(hashed(None, no_time(), None), 0));
    assert!(ended_by(hashed(None, None, no_time()), 0));
    assert_eq!(hashed(None, None, all_time()).map(|r| r.len()).ok(), Some(4));
}

#[test]
fn a_plan_is_measured_under_a_limit() {
    let s = store();
    let executor = Executor::with_storage(&s);
    assert!(matches!(executor.execute_within(&scan(), None), Some(Ok(2))));
    assert!(matches!(executor.execute_within(&scan(), Some(600_000)), Some(Ok(2))));
    match executor.execute_within(&scan(), Some(0)) {
        Some(Err(e)) => assert!(e.to_string().starts_with("Query exceeded timeout limit of 0ms (elapsed: ")),
        _ => panic!("there is no time"),
    }
    assert!(matches!(executor.execute_for_analyze(&scan()), Some(Ok(2))));
    assert!(Executor::new().execute_within(&scan(), None).is_none());
}

#[test]
fn executors_can_share_a_limit_that_runs() {
    let s = store();
    let clock = TimeoutContext::new(Some(0));
    let mut executor = Executor::with_storage(&s).with_clock(clock.clone());
    assert!(ended_by(executor.execute(&scan()), 0));
    for plan in timed_plans() {
        let mut free = Executor::with_storage(&s).with_clock(TimeoutContext::new(None));
        assert!(free.execute(&plan).is_ok());
    }
}
