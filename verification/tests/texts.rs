use helios_exec::debug_text::{show_as_of, show_value};
use helios_exec::logical_plan::{
    AggregateFunction, AsOfClause, BinaryOperator, ExplainFormatOption, ExplainOptions, IndexOption,
    JoinType, LogicalExpr, LogicalPlan, QuantizationType, UnaryOperator,
};
use helios_exec::schema::{Column, ColumnStorageMode, Schema, Tuple};
use helios_exec::tree_text::{show_expr, show_plan};
use helios_exec::value::{DataType, Interval, TimeOfDay, Timestamp, Value};
use std::sync::Arc;

fn col(name: &str) -> LogicalExpr {
    LogicalExpr::Column { table: Some("t".to_string()), name: name.to_string() }
}

fn boxed(name: &str) -> Box<LogicalExpr> {
    Box::new(col(name))
}

fn schema() -> Arc<Schema> {
    let mut a = Column::new("a", DataType::Varchar(Some(7)));
    a.source_table = Some("t".to_string());
    a.primary_key = true;
    a.storage_mode = ColumnStorageMode::Dictionary;
    let mut b = Column::new("b\n", DataType::Array(Box::new(DataType::Vector(3))));
    b.default_expr = Some("1".to_string());
    b.unique = true;
    b.nullable = false;
    let c = Column::new("c", DataType::Varchar(None));
    Arc::new(Schema { columns: vec![a, b, c, Column::new("d", DataType::Char(2))] })
}

fn scan() -> LogicalPlan {
    LogicalPlan::Scan {
        table_name: "t".to_string(),
        alias: Some("u".to_string()),
        schema: schema(),
        projection: Some(vec![0, 2]),
        as_of: Some(AsOfClause::VersionsBetween { start: "x".to_string(), end: "y".to_string() }),
    }
}

fn values() -> Vec<Value> {
    vec![
        Value::Null,
        Value::Boolean(true),
        Value::Boolean(false),
        Value::Int2(-3),
        Value::Int4(i32::MIN),
        Value::Int8(i64::MIN),
        Value::Int8(i64::MAX),
        Value::Float4(1),
        Value::Float8(u64::MAX),
        Value::Numeric("1.50".to_string()),
        Value::String("a \"quoted\"\ttext\u{301}".to_string()),
        Value::Bytes(Vec::new()),
        Value::Bytes(vec![0, 7, 255]),
        Value::Interval(Interval { months: -1, days: 2, micros: -3 }),
        Value::Json("{}".to_string()),
        Value::Array(Vec::new()),
        Value::Array(vec![Value::Int4(1), Value::Array(vec![Value::Null]), Value::String("x".to_string())]),
        Value::Vector(vec![1, 2]),
        Value::DictRef { dict_id: 9 },
        Value::CasRef { hash: u128::MAX },
        Value::ColumnarRef,
    ]
}

#[test]
fn values_are_shown_by_their_kind_and_content() {
    for v in values() {
        assert_eq!(show_value(&v), format!("{:?}", v));
    }
    assert_eq!(
        show_value(&Value::Array(vec![
            Value::Uuid(1),
            Value::Time(TimeOfDay { secs: 61, nanos: 0 }),
            Value::Timestamp(Timestamp { secs: 0, nanos: 0 }),
            Value::Date(1),
        ])),
        "Array([Uuid(00000000-0000-0000-0000-000000000001), Time(00:01:01), Timestamp(1970-01-01T00:00:00Z), Date(0001-01-01)])"
    );
    let far = Value::Timestamp(Timestamp { secs: i64::MIN, nanos: 3 });
    assert_eq!(show_value(&far), format!("{:?}", far));
}

fn exprs() -> Vec<LogicalExpr> {
    let mut all: Vec<LogicalExpr> = values().into_iter().map(LogicalExpr::Literal).collect();
    for op in [
        BinaryOperator::Plus,
        BinaryOperator::Minus,
        BinaryOperator::Multiply,
        BinaryOperator::Divide,
        BinaryOperator::Modulo,
        BinaryOperator::Eq,
        BinaryOperator::NotEq,
        BinaryOperator::Lt,
        BinaryOperator::LtEq,
        BinaryOperator::Gt,
        BinaryOperator::GtEq,
        BinaryOperator::And,
        BinaryOperator::Or,
        BinaryOperator::Like,
        BinaryOperator::NotLike,
        BinaryOperator::Concat,
        BinaryOperator::VectorL2Distance,
        BinaryOperator::VectorCosineDistance,
        BinaryOperator::VectorInnerProduct,
    ] {
        all.push(LogicalExpr::BinaryExpr { left: boxed("a"), op, right: boxed("b") });
    }
    for op in [UnaryOperator::Not, UnaryOperator::Minus, UnaryOperator::Plus] {
        all.push(LogicalExpr::UnaryExpr { op, expr: boxed("a") });
    }
    for fun in [
        AggregateFunction::Count,
        AggregateFunction::Sum,
        AggregateFunction::Avg,
        AggregateFunction::Min,
        AggregateFunction::Max,
        AggregateFunction::StringAgg,
        AggregateFunction::ArrayAgg,
    ] {
        all.push(LogicalExpr::AggregateFunction { fun, args: vec![LogicalExpr::Wildcard], distinct: true });
    }
    for data_type in [
        DataType::Boolean,
        DataType::Int2,
        DataType::Int4,
        DataType::Int8,
        DataType::Float4,
        DataType::Float8,
        DataType::Numeric,
        DataType::Text,
        DataType::Bytea,
        DataType::Uuid,
        DataType::Date,
        DataType::Time,
        DataType::Timestamp,
        DataType::Timestamptz,
        DataType::Interval,
        DataType::Json,
        DataType::Jsonb,
    ] {
        all.push(LogicalExpr::Cast { expr: boxed("a"), data_type });
    }
    all.extend(vec![
        LogicalExpr::Column { table: None, name: "a".to_string() },
        LogicalExpr::BoundColumn { index: 3, table: None, name: "a".to_string() },
        LogicalExpr::Parameter { index: 2 },
        LogicalExpr::IsNull { expr: boxed("a"), is_null: false },
        LogicalExpr::Between { expr: boxed("a"), low: boxed("b"), high: boxed("c"), negated: true },
        LogicalExpr::InList { expr: boxed("a"), list: vec![col("b"), col("c"), col("d")], negated: false },
        LogicalExpr::InSet { expr: boxed("a"), values: values(), negated: true },
        LogicalExpr::InSubquery { expr: boxed("a"), subquery: Box::new(scan()), negated: true },
        LogicalExpr::ScalarSubquery { subquery: Box::new(LogicalPlan::DualScan) },
        LogicalExpr::Exists { subquery: Box::new(scan()), negated: false },
        LogicalExpr::Case {
            expr: Some(boxed("a")),
            when_then: vec![(col("b"), col("c")), (col("d"), col("e"))],
            else_result: None,
        },
        LogicalExpr::Case { expr: None, when_then: Vec::new(), else_result: Some(boxed("z")) },
        LogicalExpr::ScalarFunction { fun: "lower".to_string(), args: vec![col("a")] },
        LogicalExpr::WindowFunction {
            fun: "rank".to_string(),
            args: Vec::new(),
            partition_by: vec![col("a")],
            order_by: vec![(col("b"), true), (col("c"), false)],
        },
        LogicalExpr::Tuple { items: vec![col("a"), col("b")] },
        LogicalExpr::ArraySubscript { array: boxed("a"), index: boxed("b") },
        LogicalExpr::NewRow { column: "a".to_string() },
        LogicalExpr::OldRow { column: "a".to_string() },
        LogicalExpr::Wildcard,
        LogicalExpr::DefaultValue,
    ]);
    all
}

#[test]
fn expressions_are_shown_with_their_parts() {
    for e in exprs() {
        assert_eq!(show_expr(&e), format!("{:?}", e));
    }
    assert_eq!(
        show_expr(&LogicalExpr::Literal(Value::Uuid(1))),
        "Literal(Uuid(00000000-0000-0000-0000-000000000001))"
    );
}

fn plans() -> Vec<LogicalPlan> {
    let input = || Box::new(scan());
    let name = || "n".to_string();
    let mut row = Tuple::new(vec![Value::Int4(1), Value::Null]);
    row.row_id = Some(4);
    let mut all = vec![
        scan(),
        LogicalPlan::Scan { table_name: name(), alias: None, schema: schema(), projection: None, as_of: None },
        LogicalPlan::FilteredScan {
            table_name: name(),
            alias: None,
            schema: schema(),
            projection: Some(Vec::new()),
            predicate: Some(col("a")),
            as_of: Some(AsOfClause::Timestamp("x".to_string())),
        },
        LogicalPlan::TableFunction { function_name: name(), args: vec![col("a")], alias: Some(name()) },
        LogicalPlan::Filter { input: input(), predicate: col("a") },
        LogicalPlan::Project {
            input: input(),
            exprs: vec![col("a"), col("b")],
            aliases: vec![name(), "m".to_string()],
            distinct: true,
            distinct_on: Some(vec![col("a")]),
            source_alias: Some(name()),
        },
        LogicalPlan::Limit { input: input(), limit: 3, offset: 0, limit_param: Some(1), offset_param: None },
        LogicalPlan::Sort { input: input(), exprs: vec![col("a")], asc: vec![true, false] },
        LogicalPlan::Aggregate {
            input: input(),
            group_by: vec![col("a")],
            aggr_exprs: Vec::new(),
            having: Some(col("b")),
        },
        LogicalPlan::Union { left: input(), right: input(), all: true },
        LogicalPlan::Intersect { left: input(), right: input(), all: false },
        LogicalPlan::Except { left: input(), right: input(), all: true },
        LogicalPlan::With {
            ctes: vec![
                ("a".to_string(), Box::new(LogicalPlan::DualScan), None),
                ("b".to_string(), input(), Some(vec![name(), "k".to_string()])),
            ],
            query: input(),
            recursive: true,
        },
        LogicalPlan::DualScan,
        LogicalPlan::Rows { schema: schema(), rows: vec![row, Tuple::new(Vec::new())] },
        LogicalPlan::CreateIndex {
            name: name(),
            table_name: name(),
            column_name: name(),
            index_type: Some("hnsw".to_string()),
            if_not_exists: true,
            options: vec![
                IndexOption::Quantization(QuantizationType::Product),
                IndexOption::Quantization(QuantizationType::Unquantized),
                IndexOption::PqSubquantizers(1),
                IndexOption::PqCentroids(2),
                IndexOption::HnswM(3),
                IndexOption::EfConstruction(4),
                IndexOption::Persistent(true),
                IndexOption::RerankPrecision("full".to_string()),
                IndexOption::DistanceMetric("l2".to_string()),
            ],
        },
        LogicalPlan::DropIndex { name: name(), if_exists: true },
        LogicalPlan::CreateSequence { name: name(), if_not_exists: true },
        LogicalPlan::CreateEnumType { name: name(), labels: vec![name(), name()] },
        LogicalPlan::DropEnumType { name: name(), if_exists: false },
        LogicalPlan::CreateSchema { name: name(), if_not_exists: true },
        LogicalPlan::CreateExtension { name: name(), if_not_exists: true },
        LogicalPlan::DropExtension { name: name() },
        LogicalPlan::CreateDatabase { name: name() },
        LogicalPlan::DropDatabase { name: name() },
        LogicalPlan::DropTable { name: name(), if_exists: true },
        LogicalPlan::Truncate { table_name: name() },
        LogicalPlan::CreateFunction { name: name() },
        LogicalPlan::CreateProcedure { name: name() },
        LogicalPlan::DropFunction { name: name(), if_exists: true },
        LogicalPlan::DropProcedure { name: name(), if_exists: true },
        LogicalPlan::Call { name: name(), args: vec![col("a")] },
        LogicalPlan::Switchover { target_node: name() },
        LogicalPlan::SwitchoverCheck { target_node: name() },
        LogicalPlan::ClusterStatus,
        LogicalPlan::SetNodeAlias { node_id: name(), alias: Some(name()) },
        LogicalPlan::ShowTopology,
    ];
    for join_type in [JoinType::Inner, JoinType::Left, JoinType::Right, JoinType::Full, JoinType::Cross] {
        all.push(LogicalPlan::Join { left: input(), right: input(), join_type, on: Some(col("a")), lateral: true });
    }
    for format in [
        ExplainFormatOption::Text,
        ExplainFormatOption::Json,
        ExplainFormatOption::Yaml,
        ExplainFormatOption::Tree,
    ] {
        all.push(LogicalPlan::Explain {
            input: input(),
            options: ExplainOptions {
                analyze: true,
                verbose: false,
                format,
                costs: true,
                storage: false,
                ai: true,
                why_not: false,
                summary: true,
            },
        });
    }
    all
}

#[test]
fn plans_are_shown_with_their_parts() {
    for p in plans() {
        assert_eq!(show_plan(&p), format!("{:?}", p));
    }
    for a in [AsOfClause::Transaction(7), AsOfClause::Scn(8), AsOfClause::Timestamp("x".to_string())] {
        assert_eq!(show_as_of(&a), format!("{:?}", a));
    }
}
