//! Logical expressions and plans.

use crate::schema;
use crate::schema::{ColumnModel, Schema, Tuple, TupleModel};
use crate::value;
use crate::value::{DataType, Value, ValueModel};
use std::sync::Arc;
use vstd::prelude::*;
use vstd::string::*;

verus! {

#[derive(Clone, Copy, Debug, PartialEq, Eq, Structural)]
pub enum BinaryOperator {
    Plus,
    Minus,
    Multiply,
    Divide,
    Modulo,
    Eq,
    NotEq,
    Lt,
    LtEq,
    Gt,
    GtEq,
    And,
    Or,
    Like,
    NotLike,
    Concat,
    VectorL2Distance,
    VectorCosineDistance,
    VectorInnerProduct,
}

#[derive(Clone, Copy, Debug, PartialEq, Eq, Structural)]
pub enum UnaryOperator {
    Not,
    Minus,
    Plus,
}

#[derive(Clone, Copy, Debug, PartialEq, Eq, Structural)]
pub enum AggregateFunction {
    Count,
    Sum,
    Avg,
    Min,
    Max,
    StringAgg,
    ArrayAgg,
}

#[derive(Clone, Copy, Debug, PartialEq, Eq, Structural)]
pub enum JoinType {
    Inner,
    Left,
    Right,
    Full,
    Cross,
}

/// The output format of `EXPLAIN`.
#[derive(Clone, Copy, Debug, PartialEq, Eq, Structural)]
pub enum ExplainFormatOption {
    Text,
    Json,
    Yaml,
    Tree,
}

/// The options of `EXPLAIN`.
#[derive(Clone, Copy, Debug, PartialEq, Eq, Structural)]
pub struct ExplainOptions {
    pub analyze: bool,
    pub verbose: bool,
    pub format: ExplainFormatOption,
    pub costs: bool,
    pub storage: bool,
    pub ai: bool,
    pub why_not: bool,
    pub summary: bool,
}

/// Which state of a table a scan reads.
#[derive(Debug)]
pub enum AsOfClause {
    Timestamp(String),
    Transaction(u64),
    Scn(u64),
    VersionsBetween { start: String, end: String },
}

/// What an `AsOfClause` stands for.
pub enum AsOfModel {
    Timestamp(Seq<char>),
    Transaction(u64),
    Scn(u64),
    VersionsBetween { start: Seq<char>, end: Seq<char> },
}

impl View for AsOfClause {
    type V = AsOfModel;

    open spec fn view(&self) -> AsOfModel {
        match self {
            AsOfClause::Timestamp(t) => AsOfModel::Timestamp(t@),
            AsOfClause::Transaction(n) => AsOfModel::Transaction(*n),
            AsOfClause::Scn(n) => AsOfModel::Scn(*n),
            AsOfClause::VersionsBetween { start, end } => AsOfModel::VersionsBetween {
                start: start@,
                end: end@,
            },
        }
    }
}

pub open spec fn opt_as_of(a: Option<AsOfClause>) -> Option<AsOfModel> {
    match a {
        Some(c) => Some(c@),
        None => None,
    }
}

/// How an HNSW index stores its vectors.
#[derive(Clone, Copy, Debug, PartialEq, Eq, Structural)]
pub enum QuantizationType {
    Unquantized,
    Product,
}

/// A `WITH (..)` option of `CREATE INDEX`.
#[derive(Debug)]
pub enum IndexOption {
    Quantization(QuantizationType),
    PqSubquantizers(usize),
    PqCentroids(usize),
    HnswM(usize),
    EfConstruction(usize),
    Persistent(bool),
    RerankPrecision(String),
    DistanceMetric(String),
}

/// What an `IndexOption` stands for.
pub enum IndexOptionModel {
    Quantization(QuantizationType),
    PqSubquantizers(usize),
    PqCentroids(usize),
    HnswM(usize),
    EfConstruction(usize),
    Persistent(bool),
    RerankPrecision(Seq<char>),
    DistanceMetric(Seq<char>),
}

impl View for IndexOption {
    type V = IndexOptionModel;

    open spec fn view(&self) -> IndexOptionModel {
        match self {
            IndexOption::Quantization(q) => IndexOptionModel::Quantization(*q),
            IndexOption::PqSubquantizers(n) => IndexOptionModel::PqSubquantizers(*n),
            IndexOption::PqCentroids(n) => IndexOptionModel::PqCentroids(*n),
            IndexOption::HnswM(n) => IndexOptionModel::HnswM(*n),
            IndexOption::EfConstruction(n) => IndexOptionModel::EfConstruction(*n),
            IndexOption::Persistent(b) => IndexOptionModel::Persistent(*b),
            IndexOption::RerankPrecision(s) => IndexOptionModel::RerankPrecision(s@),
            IndexOption::DistanceMetric(s) => IndexOptionModel::DistanceMetric(s@),
        }
    }
}

impl Clone for IndexOption {
    fn clone(&self) -> (r: IndexOption)
        ensures
            r@ == self@,
    {
        match self {
            IndexOption::Quantization(q) => IndexOption::Quantization(*q),
            IndexOption::PqSubquantizers(n) => IndexOption::PqSubquantizers(*n),
            IndexOption::PqCentroids(n) => IndexOption::PqCentroids(*n),
            IndexOption::HnswM(n) => IndexOption::HnswM(*n),
            IndexOption::EfConstruction(n) => IndexOption::EfConstruction(*n),
            IndexOption::Persistent(b) => IndexOption::Persistent(*b),
            IndexOption::RerankPrecision(s) => IndexOption::RerankPrecision(s.clone()),
            IndexOption::DistanceMetric(s) => IndexOption::DistanceMetric(s.clone()),
        }
    }
}

pub open spec fn options_model(s: Seq<IndexOption>) -> Seq<IndexOptionModel> {
    s.map_values(|o: IndexOption| o@)
}

pub open spec fn opt_positions(p: Option<Vec<usize>>) -> Option<Seq<usize>> {
    match p {
        Some(v) => Some(v@),
        None => None,
    }
}

pub open spec fn opt_names(n: Option<Vec<String>>) -> Option<Seq<Seq<char>>> {
    match n {
        Some(v) => Some(schema::texts(v@)),
        None => None,
    }
}

/// A scalar expression.
#[derive(Debug)]
#[allow(inconsistent_fields)]
pub enum LogicalExpr {
    /// A column by name, as the query spells it.
    Column {
        table: Option<String>,
        name: String,
    },
    /// A column by its position in the row.
    BoundColumn {
        index: usize,
        table: Option<String>,
        name: String,
    },
    /// A constant.
    Literal(Value),
    /// A bind parameter, counted from 1.
    Parameter {
        index: usize,
    },
    BinaryExpr {
        left: Box<LogicalExpr>,
        op: BinaryOperator,
        right: Box<LogicalExpr>,
    },
    UnaryExpr {
        op: UnaryOperator,
        expr: Box<LogicalExpr>,
    },
    Cast {
        expr: Box<LogicalExpr>,
        data_type: DataType,
    },
    /// `IS NULL`, or `IS NOT NULL` where `is_null` is false.
    IsNull {
        expr: Box<LogicalExpr>,
        is_null: bool,
    },
    Between {
        expr: Box<LogicalExpr>,
        low: Box<LogicalExpr>,
        high: Box<LogicalExpr>,
        negated: bool,
    },
    InList {
        expr: Box<LogicalExpr>,
        list: Vec<LogicalExpr>,
        negated: bool,
    },
    /// `IN` over values that are already known.
    InSet {
        expr: Box<LogicalExpr>,
        values: Vec<Value>,
        negated: bool,
    },
    InSubquery {
        expr: Box<LogicalExpr>,
        subquery: Box<LogicalPlan>,
        negated: bool,
    },
    ScalarSubquery {
        subquery: Box<LogicalPlan>,
    },
    Exists {
        subquery: Box<LogicalPlan>,
        negated: bool,
    },
    Case {
        expr: Option<Box<LogicalExpr>>,
        when_then: Vec<(LogicalExpr, LogicalExpr)>,
        else_result: Option<Box<LogicalExpr>>,
    },
    ScalarFunction {
        fun: String,
        args: Vec<LogicalExpr>,
    },
    AggregateFunction {
        fun: AggregateFunction,
        args: Vec<LogicalExpr>,
        distinct: bool,
    },
    WindowFunction {
        fun: String,
        args: Vec<LogicalExpr>,
        partition_by: Vec<LogicalExpr>,
        order_by: Vec<(LogicalExpr, bool)>,
    },
    /// A row constructor.
    Tuple {
        items: Vec<LogicalExpr>,
    },
    ArraySubscript {
        array: Box<LogicalExpr>,
        index: Box<LogicalExpr>,
    },
    NewRow {
        column: String,
    },
    OldRow {
        column: String,
    },
    Wildcard,
    DefaultValue,
}

/// What a `LogicalExpr` stands for.
#[allow(inconsistent_fields)]
pub enum ExprModel {
    Column {
        table: Option<Seq<char>>,
        name: Seq<char>,
    },
    BoundColumn {
        index: usize,
        table: Option<Seq<char>>,
        name: Seq<char>,
    },
    Literal(ValueModel),
    Parameter {
        index: usize,
    },
    BinaryExpr {
        left: Box<ExprModel>,
        op: BinaryOperator,
        right: Box<ExprModel>,
    },
    UnaryExpr {
        op: UnaryOperator,
        expr: Box<ExprModel>,
    },
    Cast {
        expr: Box<ExprModel>,
        data_type: DataType,
    },
    IsNull {
        expr: Box<ExprModel>,
        is_null: bool,
    },
    Between {
        expr: Box<ExprModel>,
        low: Box<ExprModel>,
        high: Box<ExprModel>,
        negated: bool,
    },
    InList {
        expr: Box<ExprModel>,
        list: Seq<ExprModel>,
        negated: bool,
    },
    InSet {
        expr: Box<ExprModel>,
        values: Seq<ValueModel>,
        negated: bool,
    },
    InSubquery {
        expr: Box<ExprModel>,
        subquery: Box<PlanModel>,
        negated: bool,
    },
    ScalarSubquery {
        subquery: Box<PlanModel>,
    },
    Exists {
        subquery: Box<PlanModel>,
        negated: bool,
    },
    Case {
        expr: Option<Box<ExprModel>>,
        when_then: Seq<(ExprModel, ExprModel)>,
        else_result: Option<Box<ExprModel>>,
    },
    ScalarFunction {
        fun: Seq<char>,
        args: Seq<ExprModel>,
    },
    AggregateFunction {
        fun: AggregateFunction,
        args: Seq<ExprModel>,
        distinct: bool,
    },
    WindowFunction {
        fun: Seq<char>,
        args: Seq<ExprModel>,
        partition_by: Seq<ExprModel>,
        order_by: Seq<(ExprModel, bool)>,
    },
    Tuple {
        items: Seq<ExprModel>,
    },
    ArraySubscript {
        array: Box<ExprModel>,
        index: Box<ExprModel>,
    },
    NewRow {
        column: Seq<char>,
    },
    OldRow {
        column: Seq<char>,
    },
    Wildcard,
    DefaultValue,
}

/// A query or statement, as the planner hands it to the executor.
#[derive(Debug)]
#[allow(inconsistent_fields)]
pub enum LogicalPlan {
    Scan {
        table_name: String,
        alias: Option<String>,
        schema: Arc<Schema>,
        projection: Option<Vec<usize>>,
        as_of: Option<AsOfClause>,
    },
    FilteredScan {
        table_name: String,
        alias: Option<String>,
        schema: Arc<Schema>,
        projection: Option<Vec<usize>>,
        predicate: Option<LogicalExpr>,
        as_of: Option<AsOfClause>,
    },
    TableFunction {
        function_name: String,
        args: Vec<LogicalExpr>,
        alias: Option<String>,
    },
    Filter {
        input: Box<LogicalPlan>,
        predicate: LogicalExpr,
    },
    Project {
        input: Box<LogicalPlan>,
        exprs: Vec<LogicalExpr>,
        aliases: Vec<String>,
        distinct: bool,
        distinct_on: Option<Vec<LogicalExpr>>,
        source_alias: Option<String>,
    },
    Limit {
        input: Box<LogicalPlan>,
        limit: usize,
        offset: usize,
        limit_param: Option<usize>,
        offset_param: Option<usize>,
    },
    Sort {
        input: Box<LogicalPlan>,
        exprs: Vec<LogicalExpr>,
        asc: Vec<bool>,
    },
    Aggregate {
        input: Box<LogicalPlan>,
        group_by: Vec<LogicalExpr>,
        aggr_exprs: Vec<LogicalExpr>,
        having: Option<LogicalExpr>,
    },
    Join {
        left: Box<LogicalPlan>,
        right: Box<LogicalPlan>,
        join_type: JoinType,
        on: Option<LogicalExpr>,
        lateral: bool,
    },
    Union {
        left: Box<LogicalPlan>,
        right: Box<LogicalPlan>,
        all: bool,
    },
    Intersect {
        left: Box<LogicalPlan>,
        right: Box<LogicalPlan>,
        all: bool,
    },
    Except {
        left: Box<LogicalPlan>,
        right: Box<LogicalPlan>,
        all: bool,
    },
    With {
        ctes: Vec<(String, Box<LogicalPlan>, Option<Vec<String>>)>,
        query: Box<LogicalPlan>,
        recursive: bool,
    },
    Explain {
        input: Box<LogicalPlan>,
        options: ExplainOptions,
    },
    /// One row without columns: the input of a `SELECT` without `FROM`.
    DualScan,
    /// Rows that are known already, such as those that the database around the
    /// executor has answered a part of a plan with.
    Rows {
        schema: Arc<Schema>,
        rows: Vec<Tuple>,
    },
    CreateIndex {
        name: String,
        table_name: String,
        column_name: String,
        index_type: Option<String>,
        if_not_exists: bool,
        options: Vec<IndexOption>,
    },
    DropIndex {
        name: String,
        if_exists: bool,
    },
    CreateSequence {
        name: String,
        if_not_exists: bool,
    },
    CreateEnumType {
        name: String,
        labels: Vec<String>,
    },
    DropEnumType {
        name: String,
        if_exists: bool,
    },
    CreateSchema {
        name: String,
        if_not_exists: bool,
    },
    CreateExtension {
        name: String,
        if_not_exists: bool,
    },
    DropExtension {
        name: String,
    },
    CreateDatabase {
        name: String,
    },
    DropDatabase {
        name: String,
    },
    DropTable {
        name: String,
        if_exists: bool,
    },
    Truncate {
        table_name: String,
    },
    CreateFunction {
        name: String,
    },
    CreateProcedure {
        name: String,
    },
    DropFunction {
        name: String,
        if_exists: bool,
    },
    DropProcedure {
        name: String,
        if_exists: bool,
    },
    Call {
        name: String,
        args: Vec<LogicalExpr>,
    },
    /// Makes another node the primary one.
    Switchover {
        target_node: String,
    },
    SwitchoverCheck {
        target_node: String,
    },
    ClusterStatus,
    /// Gives a node another name, or takes the one that it has.
    SetNodeAlias {
        node_id: String,
        alias: Option<String>,
    },
    ShowTopology,
}

/// What a `LogicalPlan` stands for.
#[allow(inconsistent_fields)]
pub enum PlanModel {
    Scan {
        table_name: Seq<char>,
        alias: Option<Seq<char>>,
        schema: Seq<ColumnModel>,
        projection: Option<Seq<usize>>,
        as_of: Option<AsOfModel>,
    },
    FilteredScan {
        table_name: Seq<char>,
        alias: Option<Seq<char>>,
        schema: Seq<ColumnModel>,
        projection: Option<Seq<usize>>,
        predicate: Option<ExprModel>,
        as_of: Option<AsOfModel>,
    },
    TableFunction {
        function_name: Seq<char>,
        args: Seq<ExprModel>,
        alias: Option<Seq<char>>,
    },
    Filter {
        input: Box<PlanModel>,
        predicate: ExprModel,
    },
    Project {
        input: Box<PlanModel>,
        exprs: Seq<ExprModel>,
        aliases: Seq<Seq<char>>,
        distinct: bool,
        distinct_on: Option<Seq<ExprModel>>,
        source_alias: Option<Seq<char>>,
    },
    Limit {
        input: Box<PlanModel>,
        limit: usize,
        offset: usize,
        limit_param: Option<usize>,
        offset_param: Option<usize>,
    },
    Sort {
        input: Box<PlanModel>,
        exprs: Seq<ExprModel>,
        asc: Seq<bool>,
    },
    Aggregate {
        input: Box<PlanModel>,
        group_by: Seq<ExprModel>,
        aggr_exprs: Seq<ExprModel>,
        having: Option<ExprModel>,
    },
    Join {
        left: Box<PlanModel>,
        right: Box<PlanModel>,
        join_type: JoinType,
        on: Option<ExprModel>,
        lateral: bool,
    },
    Union {
        left: Box<PlanModel>,
        right: Box<PlanModel>,
        all: bool,
    },
    Intersect {
        left: Box<PlanModel>,
        right: Box<PlanModel>,
        all: bool,
    },
    Except {
        left: Box<PlanModel>,
        right: Box<PlanModel>,
        all: bool,
    },
    With {
        ctes: Seq<(Seq<char>, Box<PlanModel>, Option<Seq<Seq<char>>>)>,
        query: Box<PlanModel>,
        recursive: bool,
    },
    Explain {
        input: Box<PlanModel>,
        options: ExplainOptions,
    },
    DualScan,
    Rows {
        schema: Seq<ColumnModel>,
        rows: Seq<TupleModel>,
    },
    CreateIndex {
        name: Seq<char>,
        table_name: Seq<char>,
        column_name: Seq<char>,
        index_type: Option<Seq<char>>,
        if_not_exists: bool,
        options: Seq<IndexOptionModel>,
    },
    DropIndex {
        name: Seq<char>,
        if_exists: bool,
    },
    CreateSequence {
        name: Seq<char>,
        if_not_exists: bool,
    },
    CreateEnumType {
        name: Seq<char>,
        labels: Seq<Seq<char>>,
    },
    DropEnumType {
        name: Seq<char>,
        if_exists: bool,
    },
    CreateSchema {
        name: Seq<char>,
        if_not_exists: bool,
    },
    CreateExtension {
        name: Seq<char>,
        if_not_exists: bool,
    },
    DropExtension {
        name: Seq<char>,
    },
    CreateDatabase {
        name: Seq<char>,
    },
    DropDatabase {
        name: Seq<char>,
    },
    DropTable {
        name: Seq<char>,
        if_exists: bool,
    },
    Truncate {
        table_name: Seq<char>,
    },
    CreateFunction {
        name: Seq<char>,
    },
    CreateProcedure {
        name: Seq<char>,
    },
    DropFunction {
        name: Seq<char>,
        if_exists: bool,
    },
    DropProcedure {
        name: Seq<char>,
        if_exists: bool,
    },
    Call {
        name: Seq<char>,
        args: Seq<ExprModel>,
    },
    Switchover {
        target_node: Seq<char>,
    },
    SwitchoverCheck {
        target_node: Seq<char>,
    },
    ClusterStatus,
    SetNodeAlias {
        node_id: Seq<char>,
        alias: Option<Seq<char>>,
    },
    ShowTopology,
}

pub open spec fn expr_model(e: LogicalExpr) -> ExprModel
    decreases e,
{
    match e {
        LogicalExpr::Column { table, name } => ExprModel::Column {
            table: schema::opt_text(table),
            name: name@,
        },
        LogicalExpr::BoundColumn { index, table, name } => ExprModel::BoundColumn {
            index: index,
            table: schema::opt_text(table),
            name: name@,
        },
        LogicalExpr::Literal(x) => ExprModel::Literal(x@),
        LogicalExpr::Parameter { index } => ExprModel::Parameter {
            index: index,
        },
        LogicalExpr::BinaryExpr { left, op, right } => ExprModel::BinaryExpr {
            left: Box::new(expr_model(*left)),
            op: op,
            right: Box::new(expr_model(*right)),
        },
        LogicalExpr::UnaryExpr { op, expr } => ExprModel::UnaryExpr {
            op: op,
            expr: Box::new(expr_model(*expr)),
        },
        LogicalExpr::Cast { expr, data_type } => ExprModel::Cast {
            expr: Box::new(expr_model(*expr)),
            data_type: data_type,
        },
        LogicalExpr::IsNull { expr, is_null } => ExprModel::IsNull {
            expr: Box::new(expr_model(*expr)),
            is_null: is_null,
        },
        LogicalExpr::Between { expr, low, high, negated } => ExprModel::Between {
            expr: Box::new(expr_model(*expr)),
            low: Box::new(expr_model(*low)),
            high: Box::new(expr_model(*high)),
            negated: negated,
        },
        LogicalExpr::InList { expr, list, negated } => ExprModel::InList {
            expr: Box::new(expr_model(*expr)),
            list: exprs_model(list@),
            negated: negated,
        },
        LogicalExpr::InSet { expr, values, negated } => ExprModel::InSet {
            expr: Box::new(expr_model(*expr)),
            values: value::values_model(values@),
            negated: negated,
        },
        LogicalExpr::InSubquery { expr, subquery, negated } => ExprModel::InSubquery {
            expr: Box::new(expr_model(*expr)),
            subquery: Box::new(plan_model(*subquery)),
            negated: negated,
        },
        LogicalExpr::ScalarSubquery { subquery } => ExprModel::ScalarSubquery {
            subquery: Box::new(plan_model(*subquery)),
        },
        LogicalExpr::Exists { subquery, negated } => ExprModel::Exists {
            subquery: Box::new(plan_model(*subquery)),
            negated: negated,
        },
        LogicalExpr::Case { expr, when_then, else_result } => ExprModel::Case {
            expr: match expr { Some(b) => Some(Box::new(expr_model(*b))), None => None },
            when_then: pairs_model(when_then@),
            else_result: match else_result { Some(b) => Some(Box::new(expr_model(*b))), None => None },
        },
        LogicalExpr::ScalarFunction { fun, args } => ExprModel::ScalarFunction {
            fun: fun@,
            args: exprs_model(args@),
        },
        LogicalExpr::AggregateFunction { fun, args, distinct } => ExprModel::AggregateFunction {
            fun: fun,
            args: exprs_model(args@),
            distinct: distinct,
        },
        LogicalExpr::WindowFunction { fun, args, partition_by, order_by } => ExprModel::WindowFunction {
            fun: fun@,
            args: exprs_model(args@),
            partition_by: exprs_model(partition_by@),
            order_by: flagged_model(order_by@),
        },
        LogicalExpr::Tuple { items } => ExprModel::Tuple {
            items: exprs_model(items@),
        },
        LogicalExpr::ArraySubscript { array, index } => ExprModel::ArraySubscript {
            array: Box::new(expr_model(*array)),
            index: Box::new(expr_model(*index)),
        },
        LogicalExpr::NewRow { column } => ExprModel::NewRow {
            column: column@,
        },
        LogicalExpr::OldRow { column } => ExprModel::OldRow {
            column: column@,
        },
        LogicalExpr::Wildcard => ExprModel::Wildcard,
        LogicalExpr::DefaultValue => ExprModel::DefaultValue,
    }
}

/// What a list of expressions stands for.
pub open spec fn exprs_model(s: Seq<LogicalExpr>) -> Seq<ExprModel>
    decreases s,
{
    Seq::new(
        s.len(),
        |i: int|
            if 0 <= i < s.len() {
                expr_model(s[i])
            } else {
                arbitrary()
            },
    )
}

/// What a list of `WHEN`/`THEN` pairs stands for.
pub open spec fn pairs_model(s: Seq<(LogicalExpr, LogicalExpr)>) -> Seq<(ExprModel, ExprModel)>
    decreases s,
{
    Seq::new(
        s.len(),
        |i: int|
            if 0 <= i < s.len() {
                (expr_model(s[i].0), expr_model(s[i].1))
            } else {
                arbitrary()
            },
    )
}

/// What a list of sort keys stands for.
pub open spec fn flagged_model(s: Seq<(LogicalExpr, bool)>) -> Seq<(ExprModel, bool)>
    decreases s,
{
    Seq::new(
        s.len(),
        |i: int|
            if 0 <= i < s.len() {
                (expr_model(s[i].0), s[i].1)
            } else {
                arbitrary()
            },
    )
}

pub open spec fn plan_model(p: LogicalPlan) -> PlanModel
    decreases p,
{
    match p {
        LogicalPlan::Scan { table_name, alias, schema, projection, as_of } => PlanModel::Scan {
            table_name: table_name@,
            alias: schema::opt_text(alias),
            schema: schema@,
            projection: opt_positions(projection),
            as_of: opt_as_of(as_of),
        },
        LogicalPlan::FilteredScan { table_name, alias, schema, projection, predicate, as_of } => PlanModel::FilteredScan {
            table_name: table_name@,
            alias: schema::opt_text(alias),
            schema: schema@,
            projection: opt_positions(projection),
            predicate: match predicate { Some(b) => Some(expr_model(b)), None => None },
            as_of: opt_as_of(as_of),
        },
        LogicalPlan::TableFunction { function_name, args, alias } => PlanModel::TableFunction {
            function_name: function_name@,
            args: exprs_model(args@),
            alias: schema::opt_text(alias),
        },
        LogicalPlan::Filter { input, predicate } => PlanModel::Filter {
            input: Box::new(plan_model(*input)),
            predicate: expr_model(predicate),
        },
        LogicalPlan::Project { input, exprs, aliases, distinct, distinct_on, source_alias } => PlanModel::Project {
            input: Box::new(plan_model(*input)),
            exprs: exprs_model(exprs@),
            aliases: schema::texts(aliases@),
            distinct: distinct,
            distinct_on: match distinct_on { Some(v) => Some(exprs_model(v@)), None => None },
            source_alias: schema::opt_text(source_alias),
        },
        LogicalPlan::Limit { input, limit, offset, limit_param, offset_param } => PlanModel::Limit {
            input: Box::new(plan_model(*input)),
            limit: limit,
            offset: offset,
            limit_param: limit_param,
            offset_param: offset_param,
        },
        LogicalPlan::Sort { input, exprs, asc } => PlanModel::Sort {
            input: Box::new(plan_model(*input)),
            exprs: exprs_model(exprs@),
            asc: asc@,
        },
        LogicalPlan::Aggregate { input, group_by, aggr_exprs, having } => PlanModel::Aggregate {
            input: Box::new(plan_model(*input)),
            group_by: exprs_model(group_by@),
            aggr_exprs: exprs_model(aggr_exprs@),
            having: match having { Some(b) => Some(expr_model(b)), None => None },
        },
        LogicalPlan::Join { left, right, join_type, on, lateral } => PlanModel::Join {
            left: Box::new(plan_model(*left)),
            right: Box::new(plan_model(*right)),
            join_type: join_type,
            on: match on { Some(b) => Some(expr_model(b)), None => None },
            lateral: lateral,
        },
        LogicalPlan::Union { left, right, all } => PlanModel::Union {
            left: Box::new(plan_model(*left)),
            right: Box::new(plan_model(*right)),
            all: all,
        },
        LogicalPlan::Intersect { left, right, all } => PlanModel::Intersect {
            left: Box::new(plan_model(*left)),
            right: Box::new(plan_model(*right)),
            all: all,
        },
        LogicalPlan::Except { left, right, all } => PlanModel::Except {
            left: Box::new(plan_model(*left)),
            right: Box::new(plan_model(*right)),
            all: all,
        },
        LogicalPlan::With { ctes, query, recursive } => PlanModel::With {
            ctes: ctes_model(ctes@),
            query: Box::new(plan_model(*query)),
            recursive: recursive,
        },
        LogicalPlan::Explain { input, options } => PlanModel::Explain {
            input: Box::new(plan_model(*input)),
            options: options,
        },
        LogicalPlan::DualScan => PlanModel::DualScan,
        LogicalPlan::Rows { schema, rows } => PlanModel::Rows {
            schema: schema@,
            rows: schema::rows_model(rows@),
        },
        LogicalPlan::CreateIndex { name, table_name, column_name, index_type, if_not_exists, options } => PlanModel::CreateIndex {
            name: name@,
            table_name: table_name@,
            column_name: column_name@,
            index_type: schema::opt_text(index_type),
            if_not_exists: if_not_exists,
            options: options_model(options@),
        },
        LogicalPlan::DropIndex { name, if_exists } => PlanModel::DropIndex {
            name: name@,
            if_exists: if_exists,
        },
        LogicalPlan::CreateSequence { name, if_not_exists } => PlanModel::CreateSequence {
            name: name@,
            if_not_exists: if_not_exists,
        },
        LogicalPlan::CreateEnumType { name, labels } => PlanModel::CreateEnumType {
            name: name@,
            labels: schema::texts(labels@),
        },
        LogicalPlan::DropEnumType { name, if_exists } => PlanModel::DropEnumType {
            name: name@,
            if_exists: if_exists,
        },
        LogicalPlan::CreateSchema { name, if_not_exists } => PlanModel::CreateSchema {
            name: name@,
            if_not_exists: if_not_exists,
        },
        LogicalPlan::CreateExtension { name, if_not_exists } => PlanModel::CreateExtension {
            name: name@,
            if_not_exists: if_not_exists,
        },
        LogicalPlan::DropExtension { name } => PlanModel::DropExtension {
            name: name@,
        },
        LogicalPlan::CreateDatabase { name } => PlanModel::CreateDatabase {
            name: name@,
        },
        LogicalPlan::DropDatabase { name } => PlanModel::DropDatabase {
            name: name@,
        },
        LogicalPlan::DropTable { name, if_exists } => PlanModel::DropTable {
            name: name@,
            if_exists: if_exists,
        },
        LogicalPlan::Truncate { table_name } => PlanModel::Truncate {
            table_name: table_name@,
        },
        LogicalPlan::CreateFunction { name } => PlanModel::CreateFunction {
            name: name@,
        },
        LogicalPlan::CreateProcedure { name } => PlanModel::CreateProcedure {
            name: name@,
        },
        LogicalPlan::DropFunction { name, if_exists } => PlanModel::DropFunction {
            name: name@,
            if_exists: if_exists,
        },
        LogicalPlan::DropProcedure { name, if_exists } => PlanModel::DropProcedure {
            name: name@,
            if_exists: if_exists,
        },
        LogicalPlan::Call { name, args } => PlanModel::Call {
            name: name@,
            args: exprs_model(args@),
        },
        LogicalPlan::Switchover { target_node } => PlanModel::Switchover {
            target_node: target_node@,
        },
        LogicalPlan::SwitchoverCheck { target_node } => PlanModel::SwitchoverCheck {
            target_node: target_node@,
        },
        LogicalPlan::ClusterStatus => PlanModel::ClusterStatus,
        LogicalPlan::SetNodeAlias { node_id, alias } => PlanModel::SetNodeAlias {
            node_id: node_id@,
            alias: schema::opt_text(alias),
        },
        LogicalPlan::ShowTopology => PlanModel::ShowTopology,
    }
}

/// What a list of `WITH` relations stands for.
pub open spec fn ctes_model(s: Seq<(String, Box<LogicalPlan>, Option<Vec<String>>)>) -> Seq<(Seq<char>, Box<PlanModel>, Option<Seq<Seq<char>>>)>
    decreases s,
{
    Seq::new(
        s.len(),
        |i: int|
            if 0 <= i < s.len() {
                (s[i].0@, Box::new(plan_model(*s[i].1)), opt_names(s[i].2))
            } else {
                arbitrary()
            },
    )
}

impl View for LogicalExpr {
    type V = ExprModel;

    open spec fn view(&self) -> ExprModel {
        expr_model(*self)
    }
}

impl View for LogicalPlan {
    type V = PlanModel;

    open spec fn view(&self) -> PlanModel {
        plan_model(*self)
    }
}

pub open spec fn opt_expr(e: Option<LogicalExpr>) -> Option<ExprModel> {
    match e {
        Some(x) => Some(x@),
        None => None,
    }
}

pub open spec fn opt_exprs(e: Option<Vec<LogicalExpr>>) -> Option<Seq<ExprModel>> {
    match e {
        Some(x) => Some(exprs_model(x@)),
        None => None,
    }
}

pub proof fn lemma_exprs_model(s: Seq<LogicalExpr>)
    ensures
        exprs_model(s).len() == s.len(),
        forall|i: int| 0 <= i < s.len() ==> #[trigger] exprs_model(s)[i] == s[i]@,
{
}

pub proof fn lemma_exprs_model_push(s: Seq<LogicalExpr>, e: LogicalExpr)
    ensures
        exprs_model(s.push(e)) == exprs_model(s).push(e@),
{
    assert(exprs_model(s.push(e)) =~= exprs_model(s).push(e@));
}

pub proof fn lemma_pairs_model(s: Seq<(LogicalExpr, LogicalExpr)>)
    ensures
        pairs_model(s).len() == s.len(),
        forall|i: int|
            0 <= i < s.len() ==> #[trigger] pairs_model(s)[i] == (s[i].0@, s[i].1@),
{
}

pub proof fn lemma_flagged_model(s: Seq<(LogicalExpr, bool)>)
    ensures
        flagged_model(s).len() == s.len(),
        forall|i: int| 0 <= i < s.len() ==> #[trigger] flagged_model(s)[i] == (s[i].0@, s[i].1),
{
}

/// Clones an expression.
pub fn clone_expr(e: &LogicalExpr) -> (r: LogicalExpr)
    ensures
        expr_model(r) == expr_model(*e),
    decreases e,
{
    match e {
        LogicalExpr::Column { table, name } => LogicalExpr::Column {
            table: table.clone(),
            name: name.clone(),
        },
        LogicalExpr::BoundColumn { index, table, name } => LogicalExpr::BoundColumn {
            index: *index,
            table: table.clone(),
            name: name.clone(),
        },
        LogicalExpr::Literal(x) => LogicalExpr::Literal(x.clone()),
        LogicalExpr::Parameter { index } => LogicalExpr::Parameter {
            index: *index,
        },
        LogicalExpr::BinaryExpr { left, op, right } => LogicalExpr::BinaryExpr {
            left: Box::new(clone_expr(left)),
            op: *op,
            right: Box::new(clone_expr(right)),
        },
        LogicalExpr::UnaryExpr { op, expr } => LogicalExpr::UnaryExpr {
            op: *op,
            expr: Box::new(clone_expr(expr)),
        },
        LogicalExpr::Cast { expr, data_type } => LogicalExpr::Cast {
            expr: Box::new(clone_expr(expr)),
            data_type: data_type.clone(),
        },
        LogicalExpr::IsNull { expr, is_null } => LogicalExpr::IsNull {
            expr: Box::new(clone_expr(expr)),
            is_null: *is_null,
        },
        LogicalExpr::Between { expr, low, high, negated } => LogicalExpr::Between {
            expr: Box::new(clone_expr(expr)),
            low: Box::new(clone_expr(low)),
            high: Box::new(clone_expr(high)),
            negated: *negated,
        },
        LogicalExpr::InList { expr, list, negated } => LogicalExpr::InList {
            expr: Box::new(clone_expr(expr)),
            list: clone_exprs(list),
            negated: *negated,
        },
        LogicalExpr::InSet { expr, values, negated } => LogicalExpr::InSet {
            expr: Box::new(clone_expr(expr)),
            values: value::clone_values(values),
            negated: *negated,
        },
        LogicalExpr::InSubquery { expr, subquery, negated } => LogicalExpr::InSubquery {
            expr: Box::new(clone_expr(expr)),
            subquery: Box::new(clone_plan(subquery)),
            negated: *negated,
        },
        LogicalExpr::ScalarSubquery { subquery } => LogicalExpr::ScalarSubquery {
            subquery: Box::new(clone_plan(subquery)),
        },
        LogicalExpr::Exists { subquery, negated } => LogicalExpr::Exists {
            subquery: Box::new(clone_plan(subquery)),
            negated: *negated,
        },
        LogicalExpr::Case { expr, when_then, else_result } => LogicalExpr::Case {
            expr: match expr { Some(b) => Some(Box::new(clone_expr(b))), None => None },
            when_then: clone_pairs(when_then),
            else_result: match else_result { Some(b) => Some(Box::new(clone_expr(b))), None => None },
        },
        LogicalExpr::ScalarFunction { fun, args } => LogicalExpr::ScalarFunction {
            fun: fun.clone(),
            args: clone_exprs(args),
        },
        LogicalExpr::AggregateFunction { fun, args, distinct } => LogicalExpr::AggregateFunction {
            fun: *fun,
            args: clone_exprs(args),
            distinct: *distinct,
        },
        LogicalExpr::WindowFunction { fun, args, partition_by, order_by } => LogicalExpr::WindowFunction {
            fun: fun.clone(),
            args: clone_exprs(args),
            partition_by: clone_exprs(partition_by),
            order_by: clone_flagged(order_by),
        },
        LogicalExpr::Tuple { items } => LogicalExpr::Tuple {
            items: clone_exprs(items),
        },
        LogicalExpr::ArraySubscript { array, index } => LogicalExpr::ArraySubscript {
            array: Box::new(clone_expr(array)),
            index: Box::new(clone_expr(index)),
        },
        LogicalExpr::NewRow { column } => LogicalExpr::NewRow {
            column: column.clone(),
        },
        LogicalExpr::OldRow { column } => LogicalExpr::OldRow {
            column: column.clone(),
        },
        LogicalExpr::Wildcard => LogicalExpr::Wildcard,
        LogicalExpr::DefaultValue => LogicalExpr::DefaultValue,
    }
}

pub fn clone_plan(p: &LogicalPlan) -> (r: LogicalPlan)
    ensures
        plan_model(r) == plan_model(*p),
    decreases p,
{
    match p {
        LogicalPlan::Scan { table_name, alias, schema, projection, as_of } => LogicalPlan::Scan {
            table_name: table_name.clone(),
            alias: alias.clone(),
            schema: schema.clone(),
            projection: clone_positions(projection),
            as_of: clone_as_of(as_of),
        },
        LogicalPlan::FilteredScan { table_name, alias, schema, projection, predicate, as_of } => LogicalPlan::FilteredScan {
            table_name: table_name.clone(),
            alias: alias.clone(),
            schema: schema.clone(),
            projection: clone_positions(projection),
            predicate: match predicate { Some(b) => Some(clone_expr(b)), None => None },
            as_of: clone_as_of(as_of),
        },
        LogicalPlan::TableFunction { function_name, args, alias } => LogicalPlan::TableFunction {
            function_name: function_name.clone(),
            args: clone_exprs(args),
            alias: alias.clone(),
        },
        LogicalPlan::Filter { input, predicate } => LogicalPlan::Filter {
            input: Box::new(clone_plan(input)),
            predicate: clone_expr(predicate),
        },
        LogicalPlan::Project { input, exprs, aliases, distinct, distinct_on, source_alias } => LogicalPlan::Project {
            input: Box::new(clone_plan(input)),
            exprs: clone_exprs(exprs),
            aliases: schema::clone_texts(aliases),
            distinct: *distinct,
            distinct_on: match distinct_on { Some(v) => Some(clone_exprs(v)), None => None },
            source_alias: source_alias.clone(),
        },
        LogicalPlan::Limit { input, limit, offset, limit_param, offset_param } => LogicalPlan::Limit {
            input: Box::new(clone_plan(input)),
            limit: *limit,
            offset: *offset,
            limit_param: *limit_param,
            offset_param: *offset_param,
        },
        LogicalPlan::Sort { input, exprs, asc } => LogicalPlan::Sort {
            input: Box::new(clone_plan(input)),
            exprs: clone_exprs(exprs),
            asc: clone_flags(asc),
        },
        LogicalPlan::Aggregate { input, group_by, aggr_exprs, having } => LogicalPlan::Aggregate {
            input: Box::new(clone_plan(input)),
            group_by: clone_exprs(group_by),
            aggr_exprs: clone_exprs(aggr_exprs),
            having: match having { Some(b) => Some(clone_expr(b)), None => None },
        },
        LogicalPlan::Join { left, right, join_type, on, lateral } => LogicalPlan::Join {
            left: Box::new(clone_plan(left)),
            right: Box::new(clone_plan(right)),
            join_type: *join_type,
            on: match on { Some(b) => Some(clone_expr(b)), None => None },
            lateral: *lateral,
        },
        LogicalPlan::Union { left, right, all } => LogicalPlan::Union {
            left: Box::new(clone_plan(left)),
            right: Box::new(clone_plan(right)),
            all: *all,
        },
        LogicalPlan::Intersect { left, right, all } => LogicalPlan::Intersect {
            left: Box::new(clone_plan(left)),
            right: Box::new(clone_plan(right)),
            all: *all,
        },
        LogicalPlan::Except { left, right, all } => LogicalPlan::Except {
            left: Box::new(clone_plan(left)),
            right: Box::new(clone_plan(right)),
            all: *all,
        },
        LogicalPlan::With { ctes, query, recursive } => LogicalPlan::With {
            ctes: clone_ctes(ctes),
            query: Box::new(clone_plan(query)),
            recursive: *recursive,
        },
        LogicalPlan::Explain { input, options } => LogicalPlan::Explain {
            input: Box::new(clone_plan(input)),
            options: *options,
        },
        LogicalPlan::DualScan => LogicalPlan::DualScan,
        LogicalPlan::Rows { schema, rows } => LogicalPlan::Rows {
            schema: schema.clone(),
            rows: schema::clone_tuples(rows),
        },
        LogicalPlan::CreateIndex { name, table_name, column_name, index_type, if_not_exists, options } => LogicalPlan::CreateIndex {
            name: name.clone(),
            table_name: table_name.clone(),
            column_name: column_name.clone(),
            index_type: index_type.clone(),
            if_not_exists: *if_not_exists,
            options: clone_options(options),
        },
        LogicalPlan::DropIndex { name, if_exists } => LogicalPlan::DropIndex {
            name: name.clone(),
            if_exists: *if_exists,
        },
        LogicalPlan::CreateSequence { name, if_not_exists } => LogicalPlan::CreateSequence {
            name: name.clone(),
            if_not_exists: *if_not_exists,
        },
        LogicalPlan::CreateEnumType { name, labels } => LogicalPlan::CreateEnumType {
            name: name.clone(),
            labels: schema::clone_texts(labels),
        },
        LogicalPlan::DropEnumType { name, if_exists } => LogicalPlan::DropEnumType {
            name: name.clone(),
            if_exists: *if_exists,
        },
        LogicalPlan::CreateSchema { name, if_not_exists } => LogicalPlan::CreateSchema {
            name: name.clone(),
            if_not_exists: *if_not_exists,
        },
        LogicalPlan::CreateExtension { name, if_not_exists } => LogicalPlan::CreateExtension {
            name: name.clone(),
            if_not_exists: *if_not_exists,
        },
        LogicalPlan::DropExtension { name } => LogicalPlan::DropExtension {
            name: name.clone(),
        },
        LogicalPlan::CreateDatabase { name } => LogicalPlan::CreateDatabase {
            name: name.clone(),
        },
        LogicalPlan::DropDatabase { name } => LogicalPlan::DropDatabase {
            name: name.clone(),
        },
        LogicalPlan::DropTable { name, if_exists } => LogicalPlan::DropTable {
            name: name.clone(),
            if_exists: *if_exists,
        },
        LogicalPlan::Truncate { table_name } => LogicalPlan::Truncate {
            table_name: table_name.clone(),
        },
        LogicalPlan::CreateFunction { name } => LogicalPlan::CreateFunction {
            name: name.clone(),
        },
        LogicalPlan::CreateProcedure { name } => LogicalPlan::CreateProcedure {
            name: name.clone(),
        },
        LogicalPlan::DropFunction { name, if_exists } => LogicalPlan::DropFunction {
            name: name.clone(),
            if_exists: *if_exists,
        },
        LogicalPlan::DropProcedure { name, if_exists } => LogicalPlan::DropProcedure {
            name: name.clone(),
            if_exists: *if_exists,
        },
        LogicalPlan::Call { name, args } => LogicalPlan::Call {
            name: name.clone(),
            args: clone_exprs(args),
        },
        LogicalPlan::Switchover { target_node } => LogicalPlan::Switchover {
            target_node: target_node.clone(),
        },
        LogicalPlan::SwitchoverCheck { target_node } => LogicalPlan::SwitchoverCheck {
            target_node: target_node.clone(),
        },
        LogicalPlan::ClusterStatus => LogicalPlan::ClusterStatus,
        LogicalPlan::SetNodeAlias { node_id, alias } => LogicalPlan::SetNodeAlias {
            node_id: node_id.clone(),
            alias: alias.clone(),
        },
        LogicalPlan::ShowTopology => LogicalPlan::ShowTopology,
    }
}

/// Clones a list of expressions.
pub fn clone_exprs(v: &Vec<LogicalExpr>) -> (r: Vec<LogicalExpr>)
    ensures
        exprs_model(r@) == exprs_model(v@),
        r.len() == v.len(),
    decreases v,
{
    let mut out: Vec<LogicalExpr> = Vec::new();
    for i in 0..v.len()
        invariant
            out.len() == i,
            forall|j: int| 0 <= j < i ==> expr_model(#[trigger] out@[j]) == expr_model(v@[j]),
    {
        out.push(clone_expr(&v[i]));
    }
    assert(exprs_model(out@) =~= exprs_model(v@));
    out
}

/// Clones a list of `WHEN`/`THEN` pairs.
pub fn clone_pairs(v: &Vec<(LogicalExpr, LogicalExpr)>) -> (r: Vec<(LogicalExpr, LogicalExpr)>)
    ensures
        pairs_model(r@) == pairs_model(v@),
    decreases v,
{
    let mut out: Vec<(LogicalExpr, LogicalExpr)> = Vec::new();
    for i in 0..v.len()
        invariant
            out.len() == i,
            forall|j: int|
                0 <= j < i ==> expr_model((#[trigger] out@[j]).0) == expr_model(v@[j].0)
                    && expr_model(out@[j].1) == expr_model(v@[j].1),
    {
        out.push((clone_expr(&v[i].0), clone_expr(&v[i].1)));
    }
    assert(pairs_model(out@) =~= pairs_model(v@));
    out
}

/// Clones a list of sort keys.
pub fn clone_flagged(v: &Vec<(LogicalExpr, bool)>) -> (r: Vec<(LogicalExpr, bool)>)
    ensures
        flagged_model(r@) == flagged_model(v@),
    decreases v,
{
    let mut out: Vec<(LogicalExpr, bool)> = Vec::new();
    for i in 0..v.len()
        invariant
            out.len() == i,
            forall|j: int|
                0 <= j < i ==> expr_model((#[trigger] out@[j]).0) == expr_model(v@[j].0)
                    && out@[j].1 == v@[j].1,
    {
        out.push((clone_expr(&v[i].0), v[i].1));
    }
    assert(flagged_model(out@) =~= flagged_model(v@));
    out
}

/// Clones a list of `WITH` relations.
pub fn clone_ctes(v: &Vec<(String, Box<LogicalPlan>, Option<Vec<String>>)>) -> (r: Vec<
    (String, Box<LogicalPlan>, Option<Vec<String>>),
>)
    ensures
        ctes_model(r@) == ctes_model(v@),
    decreases v,
{
    let mut out: Vec<(String, Box<LogicalPlan>, Option<Vec<String>>)> = Vec::new();
    for i in 0..v.len()
        invariant
            out.len() == i,
            forall|j: int|
                0 <= j < i ==> (#[trigger] out@[j]).0@ == v@[j].0@ && plan_model(*out@[j].1)
                    == plan_model(*v@[j].1) && opt_names(out@[j].2) == opt_names(v@[j].2),
    {
        let names: Option<Vec<String>> = match &v[i].2 {
            Some(n) => Some(schema::clone_texts(n)),
            None => None,
        };
        out.push((v[i].0.clone(), Box::new(clone_plan(&v[i].1)), names));
    }
    assert(ctes_model(out@) =~= ctes_model(v@));
    out
}

fn clone_options(v: &Vec<IndexOption>) -> (r: Vec<IndexOption>)
    ensures
        options_model(r@) == options_model(v@),
{
    let mut out: Vec<IndexOption> = Vec::new();
    for i in 0..v.len()
        invariant
            out.len() == i,
            forall|j: int| 0 <= j < i ==> (#[trigger] out@[j])@ == v@[j]@,
    {
        out.push(v[i].clone());
    }
    assert(options_model(out@) =~= options_model(v@));
    out
}

/// Clones an optional projection.
pub fn clone_positions(p: &Option<Vec<usize>>) -> (r: Option<Vec<usize>>)
    ensures
        opt_positions(r) == opt_positions(*p),
{
    match p {
        Some(v) => {
            let c: Vec<usize> = v.clone();
            assert(c@ =~= v@);
            Some(c)
        },
        None => None,
    }
}

fn clone_flags(v: &Vec<bool>) -> (r: Vec<bool>)
    ensures
        r@ == v@,
{
    let c: Vec<bool> = v.clone();
    assert(c@ =~= v@);
    c
}

/// Clones an optional `AS OF` clause.
pub fn clone_as_of(a: &Option<AsOfClause>) -> (r: Option<AsOfClause>)
    ensures
        opt_as_of(r) == opt_as_of(*a),
{
    match a {
        Some(AsOfClause::Timestamp(t)) => Some(AsOfClause::Timestamp(t.clone())),
        Some(AsOfClause::Transaction(n)) => Some(AsOfClause::Transaction(*n)),
        Some(AsOfClause::Scn(n)) => Some(AsOfClause::Scn(*n)),
        Some(AsOfClause::VersionsBetween { start, end }) => Some(
            AsOfClause::VersionsBetween { start: start.clone(), end: end.clone() },
        ),
        None => None,
    }
}

impl Clone for LogicalExpr {
    fn clone(&self) -> (r: LogicalExpr)
        ensures
            r@ == self@,
    {
        clone_expr(self)
    }
}

impl Clone for LogicalPlan {
    fn clone(&self) -> (r: LogicalPlan)
        ensures
            r@ == self@,
    {
        clone_plan(self)
    }
}

/// The name of a plan node's kind.
pub open spec fn plan_kind_text(p: PlanModel) -> Seq<char> {
    match p {
        PlanModel::Scan { .. } => "Scan"@,
        PlanModel::FilteredScan { .. } => "FilteredScan"@,
        PlanModel::TableFunction { .. } => "TableFunction"@,
        PlanModel::Filter { .. } => "Filter"@,
        PlanModel::Project { .. } => "Project"@,
        PlanModel::Limit { .. } => "Limit"@,
        PlanModel::Sort { .. } => "Sort"@,
        PlanModel::Aggregate { .. } => "Aggregate"@,
        PlanModel::Join { .. } => "Join"@,
        PlanModel::Union { .. } => "Union"@,
        PlanModel::Intersect { .. } => "Intersect"@,
        PlanModel::Except { .. } => "Except"@,
        PlanModel::With { .. } => "With"@,
        PlanModel::Explain { .. } => "Explain"@,
        PlanModel::DualScan => "DualScan"@,
        PlanModel::Rows { .. } => "Rows"@,
        PlanModel::CreateIndex { .. } => "CreateIndex"@,
        PlanModel::DropIndex { .. } => "DropIndex"@,
        PlanModel::CreateSequence { .. } => "CreateSequence"@,
        PlanModel::CreateEnumType { .. } => "CreateEnumType"@,
        PlanModel::DropEnumType { .. } => "DropEnumType"@,
        PlanModel::CreateSchema { .. } => "CreateSchema"@,
        PlanModel::CreateExtension { .. } => "CreateExtension"@,
        PlanModel::DropExtension { .. } => "DropExtension"@,
        PlanModel::CreateDatabase { .. } => "CreateDatabase"@,
        PlanModel::DropDatabase { .. } => "DropDatabase"@,
        PlanModel::DropTable { .. } => "DropTable"@,
        PlanModel::Truncate { .. } => "Truncate"@,
        PlanModel::CreateFunction { .. } => "CreateFunction"@,
        PlanModel::CreateProcedure { .. } => "CreateProcedure"@,
        PlanModel::DropFunction { .. } => "DropFunction"@,
        PlanModel::DropProcedure { .. } => "DropProcedure"@,
        PlanModel::Call { .. } => "Call"@,
        PlanModel::Switchover { .. } => "Switchover"@,
        PlanModel::SwitchoverCheck { .. } => "SwitchoverCheck"@,
        PlanModel::ClusterStatus => "ClusterStatus"@,
        PlanModel::SetNodeAlias { .. } => "SetNodeAlias"@,
        PlanModel::ShowTopology => "ShowTopology"@,
    }
}

/// The name of a plan node's kind.
pub fn plan_kind_name(p: &LogicalPlan) -> (r: &'static str)
    ensures
        r@ == plan_kind_text(p@),
{
    match p {
        LogicalPlan::Scan { .. } => "Scan",
        LogicalPlan::FilteredScan { .. } => "FilteredScan",
        LogicalPlan::TableFunction { .. } => "TableFunction",
        LogicalPlan::Filter { .. } => "Filter",
        LogicalPlan::Project { .. } => "Project",
        LogicalPlan::Limit { .. } => "Limit",
        LogicalPlan::Sort { .. } => "Sort",
        LogicalPlan::Aggregate { .. } => "Aggregate",
        LogicalPlan::Join { .. } => "Join",
        LogicalPlan::Union { .. } => "Union",
        LogicalPlan::Intersect { .. } => "Intersect",
        LogicalPlan::Except { .. } => "Except",
        LogicalPlan::With { .. } => "With",
        LogicalPlan::Explain { .. } => "Explain",
        LogicalPlan::DualScan => "DualScan",
        LogicalPlan::Rows { .. } => "Rows",
        LogicalPlan::CreateIndex { .. } => "CreateIndex",
        LogicalPlan::DropIndex { .. } => "DropIndex",
        LogicalPlan::CreateSequence { .. } => "CreateSequence",
        LogicalPlan::CreateEnumType { .. } => "CreateEnumType",
        LogicalPlan::DropEnumType { .. } => "DropEnumType",
        LogicalPlan::CreateSchema { .. } => "CreateSchema",
        LogicalPlan::CreateExtension { .. } => "CreateExtension",
        LogicalPlan::DropExtension { .. } => "DropExtension",
        LogicalPlan::CreateDatabase { .. } => "CreateDatabase",
        LogicalPlan::DropDatabase { .. } => "DropDatabase",
        LogicalPlan::DropTable { .. } => "DropTable",
        LogicalPlan::Truncate { .. } => "Truncate",
        LogicalPlan::CreateFunction { .. } => "CreateFunction",
        LogicalPlan::CreateProcedure { .. } => "CreateProcedure",
        LogicalPlan::DropFunction { .. } => "DropFunction",
        LogicalPlan::DropProcedure { .. } => "DropProcedure",
        LogicalPlan::Call { .. } => "Call",
        LogicalPlan::Switchover { .. } => "Switchover",
        LogicalPlan::SwitchoverCheck { .. } => "SwitchoverCheck",
        LogicalPlan::ClusterStatus => "ClusterStatus",
        LogicalPlan::SetNodeAlias { .. } => "SetNodeAlias",
        LogicalPlan::ShowTopology => "ShowTopology",
    }
}

} // verus!
