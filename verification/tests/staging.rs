use helios_exec::executor::staging::{
    next_question, settle, settle_at_row, subquery_turn, Question, SubqueryTurn,
};
use helios_exec::logical_plan::{
    AggregateFunction, BinaryOperator, ExplainFormatOption, ExplainOptions, JoinType, LogicalExpr,
    LogicalPlan,
};
use helios_exec::schema::{Column, Error, Schema};
use helios_exec::value::{DataType, Value};
use std::sync::Arc;

fn schema() -> Arc<Schema> {
    Arc::new(Schema { columns: vec![Column::new("n", DataType::Int4)] })
}

fn scan(table: &str) -> LogicalPlan {
    LogicalPlan::Scan {
        table_name: table.to_string(),
        alias: None,
        schema: schema(),
        projection: None,
        as_of: None,
    }
}

fn rows() -> LogicalPlan {
    LogicalPlan::Rows { schema: schema(), rows: Vec::new() }
}

fn n() -> LogicalExpr {
    LogicalExpr::Column { table: None, name: "n".to_string() }
}

fn grouped(input: LogicalPlan) -> LogicalPlan {
    LogicalPlan::Aggregate {
        input: Box::new(input),
        group_by: vec![n()],
        aggr_exprs: Vec::new(),
        having: None,
    }
}

fn counted(input: LogicalPlan) -> LogicalPlan {
    LogicalPlan::Aggregate {
        input: Box::new(input),
        group_by: Vec::new(),
        aggr_exprs: vec![LogicalExpr::AggregateFunction {
            fun: AggregateFunction::Count,
            args: vec![LogicalExpr::Wildcard],
            distinct: false,
        }],
        having: None,
    }
}

fn filter(input: LogicalPlan, predicate: LogicalExpr) -> LogicalPlan {
    LogicalPlan::Filter { input: Box::new(input), predicate }
}

fn any_of(subquery: LogicalPlan, negated: bool) -> LogicalExpr {
    LogicalExpr::Exists { subquery: Box::new(subquery), negated }
}

fn scalar(subquery: LogicalPlan) -> LogicalExpr {
    LogicalExpr::ScalarSubquery { subquery: Box::new(subquery) }
}

fn list(input: LogicalPlan, exprs: Vec<LogicalExpr>, distinct: bool) -> LogicalPlan {
    LogicalPlan::Project {
        input: Box::new(input),
        aliases: exprs.iter().map(|_| "m".to_string()).collect(),
        exprs,
        distinct,
        distinct_on: None,
        source_alias: None,
    }
}

fn limit(input: LogicalPlan) -> LogicalPlan {
    LogicalPlan::Limit {
        input: Box::new(input),
        limit: 1,
        offset: 0,
        limit_param: None,
        offset_param: None,
    }
}

fn sort(input: LogicalPlan) -> LogicalPlan {
    LogicalPlan::Sort { input: Box::new(input), exprs: vec![n()], asc: vec![true] }
}

fn join(left: LogicalPlan, right: LogicalPlan, lateral: bool) -> LogicalPlan {
    LogicalPlan::Join {
        left: Box::new(left),
        right: Box::new(right),
        join_type: JoinType::Inner,
        on: None,
        lateral,
    }
}

/// All that is asked for in a node whose answers change nothing.
fn asked(plan: &LogicalPlan) -> Vec<Question> {
    let mut out = Vec::new();
    let mut stage = Some(0);
    while let Some(from) = stage {
        match next_question(plan, from) {
            Some((q, next)) => {
                out.push(q);
                stage = next;
            }
            None => break,
        }
    }
    out
}

#[test]
fn inputs_are_asked_for_before_the_node() {
    assert_eq!(asked(&grouped(scan("t"))), vec![Question::Aggregation]);
    assert_eq!(asked(&grouped(grouped(scan("t")))), vec![Question::Input, Question::Aggregation]);
    assert_eq!(asked(&counted(grouped(scan("t")))), vec![Question::Input]);
    assert_eq!(asked(&counted(scan("t"))), vec![]);
    assert_eq!(asked(&sort(grouped(scan("t")))), vec![Question::Input]);
    assert_eq!(asked(&grouped(rows())), vec![Question::Aggregation]);
    assert_eq!(asked(&rows()), vec![]);
}

#[test]
fn both_inputs_are_asked_for_unless_the_right_one_reads_the_left_one() {
    let (a, b) = (grouped(scan("a")), grouped(scan("b")));
    assert_eq!(asked(&join(a.clone(), b.clone(), false)), vec![Question::Input, Question::RightInput]);
    assert_eq!(asked(&join(a.clone(), b.clone(), true)), vec![Question::Input]);
    assert_eq!(asked(&join(scan("a"), b.clone(), true)), vec![]);
    let both = LogicalPlan::Union { left: Box::new(scan("a")), right: Box::new(b), all: true };
    assert_eq!(asked(&both), vec![Question::RightInput]);
}

#[test]
fn a_limit_over_a_sort_may_be_answered_before_its_input() {
    assert_eq!(asked(&limit(sort(scan("t")))), vec![Question::FirstRows]);
    assert_eq!(asked(&limit(sort(grouped(scan("t"))))), vec![Question::FirstRows, Question::Input]);
    assert_eq!(asked(&limit(grouped(scan("t")))), vec![Question::Input]);
    assert_eq!(asked(&limit(scan("t"))), vec![]);
}

#[test]
fn subqueries_are_asked_for_once_and_then_for_each_row() {
    let p = filter(scan("t"), any_of(grouped(scan("u")), false));
    assert_eq!(asked(&p), vec![Question::Subqueries, Question::KeptRows]);
    assert_eq!(next_question(&p, 3), Some((Question::KeptRows, None)));
    assert_eq!(asked(&filter(scan("t"), any_of(scan("u"), false))), vec![]);
    let shown = list(scan("t"), vec![scalar(grouped(scan("u")))], false);
    assert_eq!(asked(&shown), vec![Question::Subqueries, Question::ListedRows]);
    let distinct = list(scan("t"), vec![scalar(grouped(scan("u")))], true);
    assert_eq!(asked(&distinct), vec![Question::Subqueries]);
}

#[test]
fn common_table_expressions_are_defined_before_the_query() {
    let with = |first: LogicalPlan, query: LogicalPlan, recursive: bool| LogicalPlan::With {
        ctes: vec![
            ("a".to_string(), Box::new(first), None),
            ("b".to_string(), Box::new(scan("a")), None),
        ],
        query: Box::new(query),
        recursive,
    };
    assert_eq!(
        asked(&with(grouped(scan("t")), grouped(scan("b")), false)),
        vec![
            Question::Cte { at: 0, plan_first: true },
            Question::Cte { at: 1, plan_first: true },
            Question::Query
        ]
    );
    assert_eq!(
        asked(&with(scan("t"), grouped(scan("b")), true)),
        vec![
            Question::Cte { at: 0, plan_first: false },
            Question::Cte { at: 1, plan_first: false },
            Question::Query
        ]
    );
    assert_eq!(asked(&with(scan("t"), scan("b"), false)), vec![]);
}

#[test]
fn an_explanation_runs_the_plan_where_it_is_measured() {
    let explain = |analyze: bool| LogicalPlan::Explain {
        input: Box::new(scan("t")),
        options: ExplainOptions {
            analyze,
            verbose: false,
            format: ExplainFormatOption::Text,
            costs: true,
            storage: false,
            ai: false,
            why_not: false,
            summary: true,
        },
    };
    assert_eq!(asked(&explain(true)), vec![Question::Explanation { measured: true }]);
    assert_eq!(asked(&explain(false)), vec![Question::Explanation { measured: false }]);
}

#[test]
fn a_subquery_that_reads_the_row_around_it_waits_for_it() {
    let outer = Schema { columns: vec![Column::new("k", DataType::Int4)] };
    let reads = filter(
        scan("t"),
        LogicalExpr::BinaryExpr {
            left: Box::new(n()),
            op: BinaryOperator::Eq,
            right: Box::new(LogicalExpr::Column { table: None, name: "k".to_string() }),
        },
    );
    assert_eq!(subquery_turn(&scan("t"), &outer, false), SubqueryTurn::Alone);
    assert_eq!(subquery_turn(&scan("t"), &outer, true), SubqueryTurn::Alone);
    assert_eq!(subquery_turn(&reads, &outer, false), SubqueryTurn::Later);
    assert_eq!(subquery_turn(&reads, &outer, true), SubqueryTurn::AtRow);
}

fn shown(r: Result<LogicalExpr, Error>) -> String {
    match r {
        Ok(e) => format!("{:?}", e),
        Err(e) => format!("error: {}", e.to_string()),
    }
}

#[test]
fn a_subquery_that_failed_is_settled_as_one_without_rows() {
    let broken = || -> Result<LogicalPlan, Error> { Err(Error::query_execution("broken".to_string())) };
    let refused = || -> Result<LogicalPlan, Error> { Err(Error::unsupported("asked".to_string())) };
    let inside = LogicalExpr::InSubquery {
        expr: Box::new(n()),
        subquery: Box::new(scan("t")),
        negated: false,
    };
    assert_eq!(shown(settle(scalar(scan("t")), broken())), format!("{:?}", LogicalExpr::Literal(Value::Null)));
    for negated in [false, true] {
        assert_eq!(
            shown(settle(any_of(scan("t"), negated), broken())),
            format!("{:?}", LogicalExpr::Literal(Value::Boolean(negated)))
        );
    }
    assert_eq!(shown(settle(inside.clone(), broken())), "error: broken");
    for e in [scalar(scan("t")), any_of(scan("t"), false), inside] {
        assert_eq!(shown(settle(e, refused())), "error: asked");
    }
    assert_eq!(shown(settle(scalar(scan("t")), Ok(rows()))), format!("{:?}", scalar(rows())));
    assert_eq!(shown(settle(n(), broken())), format!("{:?}", n()));
    let plan = |r: Result<LogicalPlan, Error>| match r {
        Ok(p) => format!("{:?}", p),
        Err(e) => format!("error: {}", e.to_string()),
    };
    let none = LogicalPlan::Rows { schema: Arc::new(Schema { columns: Vec::new() }), rows: Vec::new() };
    assert_eq!(plan(settle_at_row(broken())), format!("{:?}", none));
    assert_eq!(plan(settle_at_row(refused())), "error: asked");
    assert_eq!(plan(settle_at_row(Ok(scan("t")))), format!("{:?}", scan("t")));
}
