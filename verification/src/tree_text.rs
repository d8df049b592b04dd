//! Expressions and plans as messages for people show them: the name of each node, and
//! what it holds by the names of its fields.

use crate::debug_text;
use crate::executor::materialize;
use crate::logical_plan;
use crate::logical_plan::{
    AggregateFunction, AsOfClause, AsOfModel, BinaryOperator, ExplainFormatOption, ExplainOptions,
    ExprModel, IndexOption, IndexOptionModel, JoinType, LogicalExpr, LogicalPlan, PlanModel,
    QuantizationType, UnaryOperator,
};
use crate::text;
use vstd::prelude::*;

verus! {

pub open spec fn binary_operator_text(x: BinaryOperator) -> Seq<char> {
    match x {
        BinaryOperator::Plus => "Plus"@,
        BinaryOperator::Minus => "Minus"@,
        BinaryOperator::Multiply => "Multiply"@,
        BinaryOperator::Divide => "Divide"@,
        BinaryOperator::Modulo => "Modulo"@,
        BinaryOperator::Eq => "Eq"@,
        BinaryOperator::NotEq => "NotEq"@,
        BinaryOperator::Lt => "Lt"@,
        BinaryOperator::LtEq => "LtEq"@,
        BinaryOperator::Gt => "Gt"@,
        BinaryOperator::GtEq => "GtEq"@,
        BinaryOperator::And => "And"@,
        BinaryOperator::Or => "Or"@,
        BinaryOperator::Like => "Like"@,
        BinaryOperator::NotLike => "NotLike"@,
        BinaryOperator::Concat => "Concat"@,
        BinaryOperator::VectorL2Distance => "VectorL2Distance"@,
        BinaryOperator::VectorCosineDistance => "VectorCosineDistance"@,
        BinaryOperator::VectorInnerProduct => "VectorInnerProduct"@,
    }
}

fn show_binary_operator(x: BinaryOperator) -> (r: String)
    ensures
        r@ == binary_operator_text(x),
{
    match x {
        BinaryOperator::Plus => "Plus".to_owned(),
        BinaryOperator::Minus => "Minus".to_owned(),
        BinaryOperator::Multiply => "Multiply".to_owned(),
        BinaryOperator::Divide => "Divide".to_owned(),
        BinaryOperator::Modulo => "Modulo".to_owned(),
        BinaryOperator::Eq => "Eq".to_owned(),
        BinaryOperator::NotEq => "NotEq".to_owned(),
        BinaryOperator::Lt => "Lt".to_owned(),
        BinaryOperator::LtEq => "LtEq".to_owned(),
        BinaryOperator::Gt => "Gt".to_owned(),
        BinaryOperator::GtEq => "GtEq".to_owned(),
        BinaryOperator::And => "And".to_owned(),
        BinaryOperator::Or => "Or".to_owned(),
        BinaryOperator::Like => "Like".to_owned(),
        BinaryOperator::NotLike => "NotLike".to_owned(),
        BinaryOperator::Concat => "Concat".to_owned(),
        BinaryOperator::VectorL2Distance => "VectorL2Distance".to_owned(),
        BinaryOperator::VectorCosineDistance => "VectorCosineDistance".to_owned(),
        BinaryOperator::VectorInnerProduct => "VectorInnerProduct".to_owned(),
    }
}

pub open spec fn unary_operator_text(x: UnaryOperator) -> Seq<char> {
    match x {
        UnaryOperator::Not => "Not"@,
        UnaryOperator::Minus => "Minus"@,
        UnaryOperator::Plus => "Plus"@,
    }
}

fn show_unary_operator(x: UnaryOperator) -> (r: String)
    ensures
        r@ == unary_operator_text(x),
{
    match x {
        UnaryOperator::Not => "Not".to_owned(),
        UnaryOperator::Minus => "Minus".to_owned(),
        UnaryOperator::Plus => "Plus".to_owned(),
    }
}

pub open spec fn aggregate_text(x: AggregateFunction) -> Seq<char> {
    match x {
        AggregateFunction::Count => "Count"@,
        AggregateFunction::Sum => "Sum"@,
        AggregateFunction::Avg => "Avg"@,
        AggregateFunction::Min => "Min"@,
        AggregateFunction::Max => "Max"@,
        AggregateFunction::StringAgg => "StringAgg"@,
        AggregateFunction::ArrayAgg => "ArrayAgg"@,
    }
}

fn show_aggregate(x: AggregateFunction) -> (r: String)
    ensures
        r@ == aggregate_text(x),
{
    match x {
        AggregateFunction::Count => "Count".to_owned(),
        AggregateFunction::Sum => "Sum".to_owned(),
        AggregateFunction::Avg => "Avg".to_owned(),
        AggregateFunction::Min => "Min".to_owned(),
        AggregateFunction::Max => "Max".to_owned(),
        AggregateFunction::StringAgg => "StringAgg".to_owned(),
        AggregateFunction::ArrayAgg => "ArrayAgg".to_owned(),
    }
}

pub open spec fn join_type_text(x: JoinType) -> Seq<char> {
    match x {
        JoinType::Inner => "Inner"@,
        JoinType::Left => "Left"@,
        JoinType::Right => "Right"@,
        JoinType::Full => "Full"@,
        JoinType::Cross => "Cross"@,
    }
}

fn show_join_type(x: JoinType) -> (r: String)
    ensures
        r@ == join_type_text(x),
{
    match x {
        JoinType::Inner => "Inner".to_owned(),
        JoinType::Left => "Left".to_owned(),
        JoinType::Right => "Right".to_owned(),
        JoinType::Full => "Full".to_owned(),
        JoinType::Cross => "Cross".to_owned(),
    }
}

pub open spec fn format_text(x: ExplainFormatOption) -> Seq<char> {
    match x {
        ExplainFormatOption::Text => "Text"@,
        ExplainFormatOption::Json => "Json"@,
        ExplainFormatOption::Yaml => "Yaml"@,
        ExplainFormatOption::Tree => "Tree"@,
    }
}

fn show_format(x: ExplainFormatOption) -> (r: String)
    ensures
        r@ == format_text(x),
{
    match x {
        ExplainFormatOption::Text => "Text".to_owned(),
        ExplainFormatOption::Json => "Json".to_owned(),
        ExplainFormatOption::Yaml => "Yaml".to_owned(),
        ExplainFormatOption::Tree => "Tree".to_owned(),
    }
}

pub open spec fn quantization_text(x: QuantizationType) -> Seq<char> {
    match x {
        QuantizationType::Unquantized => "Unquantized"@,
        QuantizationType::Product => "Product"@,
    }
}

fn show_quantization(x: QuantizationType) -> (r: String)
    ensures
        r@ == quantization_text(x),
{
    match x {
        QuantizationType::Unquantized => "Unquantized".to_owned(),
        QuantizationType::Product => "Product".to_owned(),
    }
}

pub open spec fn explain_options_text(x: ExplainOptions) -> Seq<char> {
    "ExplainOptions { analyze: "@ + debug_text::bool_text(x.analyze) + ", verbose: "@ + debug_text::bool_text(x.verbose)
            + ", format: "@ + format_text(x.format) + ", costs: "@ + debug_text::bool_text(x.costs)
            + ", storage: "@ + debug_text::bool_text(x.storage) + ", ai: "@ + debug_text::bool_text(x.ai) + ", why_not: "@
            + debug_text::bool_text(x.why_not) + ", summary: "@ + debug_text::bool_text(x.summary) + " }"@
}

fn show_explain_options(x: &ExplainOptions) -> (r: String)
    ensures
        r@ == explain_options_text(*x),
{
    let mut m: String = text::concat3(
        "ExplainOptions { analyze: ",
        debug_text::show_bool(x.analyze).as_str(),
        ", verbose: ",
    );
    m.append(debug_text::show_bool(x.verbose).as_str());
    m.append(", format: ");
    m.append(show_format(x.format).as_str());
    m.append(", costs: ");
    m.append(debug_text::show_bool(x.costs).as_str());
    m.append(", storage: ");
    m.append(debug_text::show_bool(x.storage).as_str());
    m.append(", ai: ");
    m.append(debug_text::show_bool(x.ai).as_str());
    m.append(", why_not: ");
    m.append(debug_text::show_bool(x.why_not).as_str());
    m.append(", summary: ");
    m.append(debug_text::show_bool(x.summary).as_str());
    m.append(" }");
    m
}

pub open spec fn option_text(o: IndexOptionModel) -> Seq<char> {
    match o {
        IndexOptionModel::Quantization(x) => debug_text::bracketed(
            "Quantization"@,
            quantization_text(x),
        ),
        IndexOptionModel::PqSubquantizers(x) => debug_text::bracketed(
            "PqSubquantizers"@,
            text::decimal(x as nat),
        ),
        IndexOptionModel::PqCentroids(x) => debug_text::bracketed(
            "PqCentroids"@,
            text::decimal(x as nat),
        ),
        IndexOptionModel::HnswM(x) => debug_text::bracketed(
            "HnswM"@,
            text::decimal(x as nat),
        ),
        IndexOptionModel::EfConstruction(x) => debug_text::bracketed(
            "EfConstruction"@,
            text::decimal(x as nat),
        ),
        IndexOptionModel::Persistent(x) => debug_text::bracketed(
            "Persistent"@,
            debug_text::bool_text(x),
        ),
        IndexOptionModel::RerankPrecision(x) => debug_text::bracketed(
            "RerankPrecision"@,
            debug_text::str_debug_text(x),
        ),
        IndexOptionModel::DistanceMetric(x) => debug_text::bracketed(
            "DistanceMetric"@,
            debug_text::str_debug_text(x),
        ),
    }
}

fn show_option(o: &IndexOption) -> (r: String)
    ensures
        r@ == option_text(o@),
{
    match o {
        IndexOption::Quantization(x) => debug_text::bracket(
            "Quantization",
            show_quantization(*x).as_str(),
        ),
        IndexOption::PqSubquantizers(x) => debug_text::bracket(
            "PqSubquantizers",
            debug_text::show_number(*x as u128).as_str(),
        ),
        IndexOption::PqCentroids(x) => debug_text::bracket(
            "PqCentroids",
            debug_text::show_number(*x as u128).as_str(),
        ),
        IndexOption::HnswM(x) => debug_text::bracket(
            "HnswM",
            debug_text::show_number(*x as u128).as_str(),
        ),
        IndexOption::EfConstruction(x) => debug_text::bracket(
            "EfConstruction",
            debug_text::show_number(*x as u128).as_str(),
        ),
        IndexOption::Persistent(x) => debug_text::bracket(
            "Persistent",
            debug_text::show_bool(*x).as_str(),
        ),
        IndexOption::RerankPrecision(x) => debug_text::bracket(
            "RerankPrecision",
            debug_text::debug_str(x.as_str()).as_str(),
        ),
        IndexOption::DistanceMetric(x) => debug_text::bracket(
            "DistanceMetric",
            debug_text::debug_str(x.as_str()).as_str(),
        ),
    }
}

/// The first `n` options, separated by commas.
pub open spec fn options_text(s: Seq<IndexOptionModel>, n: nat) -> Seq<char>
    decreases n,
{
    if n == 0 || n > s.len() {
        Seq::empty()
    } else {
        debug_text::and_then_text(options_text(s, (n - 1) as nat), n == 1, option_text(s[n - 1]))
    }
}

fn show_options(v: &Vec<IndexOption>) -> (r: String)
    ensures
        r@ == debug_text::listed(
            options_text(logical_plan::options_model(v@), logical_plan::options_model(v@).len()),
        ),
{
    let ghost s = logical_plan::options_model(v@);
    let mut out: String = String::new();
    assert(out@ =~= options_text(s, 0));
    for i in 0..v.len()
        invariant
            s == logical_plan::options_model(v@),
            s.len() == v@.len(),
            out@ == options_text(s, i as nat),
    {
        assert(s[i as int] == v@[i as int]@);
        out = debug_text::add_item(out, i == 0, show_option(&v[i]));
    }
    debug_text::show_listed(out)
}

/// The first `n` truth values, separated by commas.
pub open spec fn flags_text(s: Seq<bool>, n: nat) -> Seq<char>
    decreases n,
{
    if n == 0 || n > s.len() {
        Seq::empty()
    } else {
        debug_text::and_then_text(
            flags_text(s, (n - 1) as nat),
            n == 1,
            debug_text::bool_text(s[n - 1]),
        )
    }
}

fn show_flags(v: &Vec<bool>) -> (r: String)
    ensures
        r@ == debug_text::listed(flags_text(v@, v@.len())),
{
    let ghost s = v@;
    let mut out: String = String::new();
    assert(out@ =~= flags_text(s, 0));
    for i in 0..v.len()
        invariant
            s == v@,
            s.len() == v@.len(),
            out@ == flags_text(s, i as nat),
    {
        assert(s[i as int] == v@[i as int]);
        out = debug_text::add_item(out, i == 0, debug_text::show_bool(v[i]));
    }
    debug_text::show_listed(out)
}

/// The first `n` positions, separated by commas.
pub open spec fn positions_text(s: Seq<usize>, n: nat) -> Seq<char>
    decreases n,
{
    if n == 0 || n > s.len() {
        Seq::empty()
    } else {
        debug_text::and_then_text(
            positions_text(s, (n - 1) as nat),
            n == 1,
            text::decimal(s[n - 1] as nat),
        )
    }
}

fn show_positions(v: &Vec<usize>) -> (r: String)
    ensures
        r@ == debug_text::listed(positions_text(v@, v@.len())),
{
    let ghost s = v@;
    let mut out: String = String::new();
    assert(out@ =~= positions_text(s, 0));
    for i in 0..v.len()
        invariant
            s == v@,
            s.len() == v@.len(),
            out@ == positions_text(s, i as nat),
    {
        assert(s[i as int] == v@[i as int]);
        out = debug_text::add_item(out, i == 0, debug_text::show_number(v[i] as u128));
    }
    debug_text::show_listed(out)
}

pub open spec fn opt_positions_text(o: Option<Seq<usize>>) -> Seq<char> {
    match o {
        Some(x) => debug_text::bracketed("Some"@, debug_text::listed(positions_text(x, x.len()))),
        None => "None"@,
    }
}

fn show_opt_positions(o: &Option<Vec<usize>>) -> (r: String)
    ensures
        r@ == opt_positions_text(logical_plan::opt_positions(*o)),
{
    match o {
        Some(x) => debug_text::bracket("Some", show_positions(x).as_str()),
        None => "None".to_owned(),
    }
}

pub open spec fn opt_as_of_text(o: Option<AsOfModel>) -> Seq<char> {
    match o {
        Some(x) => debug_text::bracketed("Some"@, debug_text::as_of_text(x)),
        None => "None"@,
    }
}

fn show_opt_as_of(o: &Option<AsOfClause>) -> (r: String)
    ensures
        r@ == opt_as_of_text(logical_plan::opt_as_of(*o)),
{
    match o {
        Some(x) => debug_text::bracket("Some", debug_text::show_as_of(x).as_str()),
        None => "None".to_owned(),
    }
}

pub open spec fn opt_names_text(o: Option<Seq<Seq<char>>>) -> Seq<char> {
    match o {
        Some(x) => debug_text::bracketed(
            "Some"@,
            debug_text::listed(debug_text::texts_text(x, x.len())),
        ),
        None => "None"@,
    }
}

fn show_opt_names(o: &Option<Vec<String>>) -> (r: String)
    ensures
        r@ == opt_names_text(logical_plan::opt_names(*o)),
{
    match o {
        Some(x) => debug_text::bracket("Some", debug_text::show_texts(x).as_str()),
        None => "None".to_owned(),
    }
}

pub open spec fn pair_text(a: Seq<char>, b: Seq<char>) -> Seq<char> {
    "("@ + a + ", "@ + b + ")"@
}

fn show_pair(a: String, b: String) -> (r: String)
    ensures
        r@ == pair_text(a@, b@),
{
    let mut m: String = text::concat3("(", a.as_str(), ", ");
    m.append(b.as_str());
    m.append(")");
    m
}

/// A common table expression: its name, its plan and the names of its columns.
pub open spec fn cte_text(name: Seq<char>, plan: Seq<char>, columns: Seq<char>) -> Seq<char> {
    "("@ + name + ", "@ + plan + ", "@ + columns + ")"@
}

fn show_cte(name: String, plan: String, columns: String) -> (r: String)
    ensures
        r@ == cte_text(name@, plan@, columns@),
{
    let mut m: String = text::concat3("(", name.as_str(), ", ");
    m.append(plan.as_str());
    m.append(", ");
    m.append(columns.as_str());
    m.append(")");
    m
}

/// An expression as messages and plans show it.
pub open spec fn expr_text(e: ExprModel) -> Seq<char>
    decreases e, 0nat,
{
    match e {
        ExprModel::Column { table, name } => "Column { table: "@ + debug_text::opt_text_text(table)
            + ", name: "@ + debug_text::str_debug_text(name) + " }"@,
        ExprModel::BoundColumn { index, table, name } => "BoundColumn { index: "@
            + text::decimal(index as nat) + ", table: "@ + debug_text::opt_text_text(table)
            + ", name: "@ + debug_text::str_debug_text(name) + " }"@,
        ExprModel::Literal(v) => debug_text::bracketed("Literal"@, debug_text::value_text(v)),
        ExprModel::Parameter { index } => "Parameter { index: "@ + text::decimal(index as nat)
            + " }"@,
        ExprModel::BinaryExpr { left, op, right } => "BinaryExpr { left: "@ + expr_text(*left)
            + ", op: "@ + binary_operator_text(op) + ", right: "@ + expr_text(*right) + " }"@,
        ExprModel::UnaryExpr { op, expr } => "UnaryExpr { op: "@ + unary_operator_text(op)
            + ", expr: "@ + expr_text(*expr) + " }"@,
        ExprModel::Cast { expr, data_type } => "Cast { expr: "@ + expr_text(*expr)
            + ", data_type: "@ + debug_text::data_type_text(data_type) + " }"@,
        ExprModel::IsNull { expr, is_null } => "IsNull { expr: "@ + expr_text(*expr)
            + ", is_null: "@ + debug_text::bool_text(is_null) + " }"@,
        ExprModel::Between { expr, low, high, negated } => "Between { expr: "@ + expr_text(*expr)
            + ", low: "@ + expr_text(*low) + ", high: "@ + expr_text(*high) + ", negated: "@
            + debug_text::bool_text(negated) + " }"@,
        ExprModel::InList { expr, list, negated } => "InList { expr: "@ + expr_text(*expr)
            + ", list: "@ + debug_text::listed(exprs_text(list, list.len())) + ", negated: "@
            + debug_text::bool_text(negated) + " }"@,
        ExprModel::InSet { expr, values, negated } => "InSet { expr: "@ + expr_text(*expr)
            + ", values: "@ + debug_text::listed(debug_text::values_text(values, values.len()))
            + ", negated: "@ + debug_text::bool_text(negated) + " }"@,
        ExprModel::InSubquery { expr, subquery, negated } => "InSubquery { expr: "@
            + expr_text(*expr) + ", subquery: "@ + plan_text(*subquery) + ", negated: "@
            + debug_text::bool_text(negated) + " }"@,
        ExprModel::ScalarSubquery { subquery } => "ScalarSubquery { subquery: "@
            + plan_text(*subquery) + " }"@,
        ExprModel::Exists { subquery, negated } => "Exists { subquery: "@ + plan_text(*subquery)
            + ", negated: "@ + debug_text::bool_text(negated) + " }"@,
        ExprModel::Case { expr, when_then, else_result } => "Case { expr: "@ + opt_expr_text(expr)
            + ", when_then: "@ + debug_text::listed(pairs_text(when_then, when_then.len()))
            + ", else_result: "@ + opt_expr_text(else_result) + " }"@,
        ExprModel::ScalarFunction { fun, args } => "ScalarFunction { fun: "@
            + debug_text::str_debug_text(fun) + ", args: "@
            + debug_text::listed(exprs_text(args, args.len())) + " }"@,
        ExprModel::AggregateFunction { fun, args, distinct } => "AggregateFunction { fun: "@
            + aggregate_text(fun) + ", args: "@ + debug_text::listed(exprs_text(args, args.len()))
            + ", distinct: "@ + debug_text::bool_text(distinct) + " }"@,
        ExprModel::WindowFunction { fun, args, partition_by, order_by } => "WindowFunction { fun: "@
            + debug_text::str_debug_text(fun) + ", args: "@
            + debug_text::listed(exprs_text(args, args.len())) + ", partition_by: "@
            + debug_text::listed(exprs_text(partition_by, partition_by.len())) + ", order_by: "@
            + debug_text::listed(keys_text(order_by, order_by.len())) + " }"@,
        ExprModel::Tuple { items } => "Tuple { items: "@
            + debug_text::listed(exprs_text(items, items.len())) + " }"@,
        ExprModel::ArraySubscript { array, index } => "ArraySubscript { array: "@
            + expr_text(*array) + ", index: "@ + expr_text(*index) + " }"@,
        ExprModel::NewRow { column } => "NewRow { column: "@ + debug_text::str_debug_text(column)
            + " }"@,
        ExprModel::OldRow { column } => "OldRow { column: "@ + debug_text::str_debug_text(column)
            + " }"@,
        ExprModel::Wildcard => "Wildcard"@,
        ExprModel::DefaultValue => "DefaultValue"@,
    }
}

/// A plan as messages show it.
pub open spec fn plan_text(p: PlanModel) -> Seq<char>
    decreases p, 0nat,
{
    match p {
        PlanModel::Scan { table_name, alias, schema, projection, as_of } => "Scan { table_name: "@
            + debug_text::str_debug_text(table_name) + ", alias: "@
            + debug_text::opt_text_text(alias) + ", schema: "@ + debug_text::schema_text(schema)
            + ", projection: "@ + opt_positions_text(projection) + ", as_of: "@
            + opt_as_of_text(as_of) + " }"@,
        PlanModel::FilteredScan { table_name, alias, schema, projection, predicate, as_of } => "FilteredScan { table_name: "@
            + debug_text::str_debug_text(table_name) + ", alias: "@
            + debug_text::opt_text_text(alias) + ", schema: "@ + debug_text::schema_text(schema)
            + ", projection: "@ + opt_positions_text(projection) + ", predicate: "@
            + opt_plain_text(predicate) + ", as_of: "@ + opt_as_of_text(as_of) + " }"@,
        PlanModel::TableFunction { function_name, args, alias } => "TableFunction { function_name: "@
            + debug_text::str_debug_text(function_name) + ", args: "@
            + debug_text::listed(exprs_text(args, args.len())) + ", alias: "@
            + debug_text::opt_text_text(alias) + " }"@,
        PlanModel::Filter { input, predicate } => "Filter { input: "@ + plan_text(*input)
            + ", predicate: "@ + expr_text(predicate) + " }"@,
        PlanModel::Project { input, exprs, aliases, distinct, distinct_on, source_alias } => "Project { input: "@
            + plan_text(*input) + ", exprs: "@ + debug_text::listed(exprs_text(exprs, exprs.len()))
            + ", aliases: "@ + debug_text::listed(debug_text::texts_text(aliases, aliases.len()))
            + ", distinct: "@ + debug_text::bool_text(distinct) + ", distinct_on: "@
            + opt_exprs_text(distinct_on) + ", source_alias: "@
            + debug_text::opt_text_text(source_alias) + " }"@,
        PlanModel::Limit { input, limit, offset, limit_param, offset_param } => "Limit { input: "@
            + plan_text(*input) + ", limit: "@ + text::decimal(limit as nat) + ", offset: "@
            + text::decimal(offset as nat) + ", limit_param: "@
            + debug_text::opt_number_text(limit_param) + ", offset_param: "@
            + debug_text::opt_number_text(offset_param) + " }"@,
        PlanModel::Sort { input, exprs, asc } => "Sort { input: "@ + plan_text(*input)
            + ", exprs: "@ + debug_text::listed(exprs_text(exprs, exprs.len())) + ", asc: "@
            + debug_text::listed(flags_text(asc, asc.len())) + " }"@,
        PlanModel::Aggregate { input, group_by, aggr_exprs, having } => "Aggregate { input: "@
            + plan_text(*input) + ", group_by: "@
            + debug_text::listed(exprs_text(group_by, group_by.len())) + ", aggr_exprs: "@
            + debug_text::listed(exprs_text(aggr_exprs, aggr_exprs.len())) + ", having: "@
            + opt_plain_text(having) + " }"@,
        PlanModel::Join { left, right, join_type, on, lateral } => "Join { left: "@
            + plan_text(*left) + ", right: "@ + plan_text(*right) + ", join_type: "@
            + join_type_text(join_type) + ", on: "@ + opt_plain_text(on) + ", lateral: "@
            + debug_text::bool_text(lateral) + " }"@,
        PlanModel::Union { left, right, all } => "Union { left: "@ + plan_text(*left)
            + ", right: "@ + plan_text(*right) + ", all: "@ + debug_text::bool_text(all) + " }"@,
        PlanModel::Intersect { left, right, all } => "Intersect { left: "@ + plan_text(*left)
            + ", right: "@ + plan_text(*right) + ", all: "@ + debug_text::bool_text(all) + " }"@,
        PlanModel::Except { left, right, all } => "Except { left: "@ + plan_text(*left)
            + ", right: "@ + plan_text(*right) + ", all: "@ + debug_text::bool_text(all) + " }"@,
        PlanModel::With { ctes, query, recursive } => "With { ctes: "@
            + debug_text::listed(ctes_text(ctes, ctes.len())) + ", query: "@ + plan_text(*query)
            + ", recursive: "@ + debug_text::bool_text(recursive) + " }"@,
        PlanModel::Explain { input, options } => "Explain { input: "@ + plan_text(*input)
            + ", options: "@ + explain_options_text(options) + " }"@,
        PlanModel::DualScan => "DualScan"@,
        PlanModel::Rows { schema, rows } => "Rows { schema: "@ + debug_text::schema_text(schema)
            + ", rows: "@ + debug_text::listed(debug_text::rows_text(rows, rows.len())) + " }"@,
        PlanModel::CreateIndex {
            name,
            table_name,
            column_name,
            index_type,
            if_not_exists,
            options,
        } => "CreateIndex { name: "@
            + debug_text::str_debug_text(name) + ", table_name: "@
            + debug_text::str_debug_text(table_name) + ", column_name: "@
            + debug_text::str_debug_text(column_name) + ", index_type: "@
            + debug_text::opt_text_text(index_type) + ", if_not_exists: "@
            + debug_text::bool_text(if_not_exists) + ", options: "@
            + debug_text::listed(options_text(options, options.len())) + " }"@,
        PlanModel::DropIndex { name, if_exists } => "DropIndex { name: "@
            + debug_text::str_debug_text(name) + ", if_exists: "@
            + debug_text::bool_text(if_exists) + " }"@,
        PlanModel::CreateSequence { name, if_not_exists } => "CreateSequence { name: "@
            + debug_text::str_debug_text(name) + ", if_not_exists: "@
            + debug_text::bool_text(if_not_exists) + " }"@,
        PlanModel::CreateEnumType { name, labels } => "CreateEnumType { name: "@
            + debug_text::str_debug_text(name) + ", labels: "@
            + debug_text::listed(debug_text::texts_text(labels, labels.len())) + " }"@,
        PlanModel::DropEnumType { name, if_exists } => "DropEnumType { name: "@
            + debug_text::str_debug_text(name) + ", if_exists: "@
            + debug_text::bool_text(if_exists) + " }"@,
        PlanModel::CreateSchema { name, if_not_exists } => "CreateSchema { name: "@
            + debug_text::str_debug_text(name) + ", if_not_exists: "@
            + debug_text::bool_text(if_not_exists) + " }"@,
        PlanModel::CreateExtension { name, if_not_exists } => "CreateExtension { name: "@
            + debug_text::str_debug_text(name) + ", if_not_exists: "@
            + debug_text::bool_text(if_not_exists) + " }"@,
        PlanModel::DropExtension { name } => "DropExtension { name: "@
            + debug_text::str_debug_text(name) + " }"@,
        PlanModel::CreateDatabase { name } => "CreateDatabase { name: "@
            + debug_text::str_debug_text(name) + " }"@,
        PlanModel::DropDatabase { name } => "DropDatabase { name: "@
            + debug_text::str_debug_text(name) + " }"@,
        PlanModel::DropTable { name, if_exists } => "DropTable { name: "@
            + debug_text::str_debug_text(name) + ", if_exists: "@
            + debug_text::bool_text(if_exists) + " }"@,
        PlanModel::Truncate { table_name } => "Truncate { table_name: "@
            + debug_text::str_debug_text(table_name) + " }"@,
        PlanModel::CreateFunction { name } => "CreateFunction { name: "@
            + debug_text::str_debug_text(name) + " }"@,
        PlanModel::CreateProcedure { name } => "CreateProcedure { name: "@
            + debug_text::str_debug_text(name) + " }"@,
        PlanModel::DropFunction { name, if_exists } => "DropFunction { name: "@
            + debug_text::str_debug_text(name) + ", if_exists: "@
            + debug_text::bool_text(if_exists) + " }"@,
        PlanModel::DropProcedure { name, if_exists } => "DropProcedure { name: "@
            + debug_text::str_debug_text(name) + ", if_exists: "@
            + debug_text::bool_text(if_exists) + " }"@,
        PlanModel::Call { name, args } => "Call { name: "@ + debug_text::str_debug_text(name)
            + ", args: "@ + debug_text::listed(exprs_text(args, args.len())) + " }"@,
        PlanModel::Switchover { target_node } => "Switchover { target_node: "@
            + debug_text::str_debug_text(target_node) + " }"@,
        PlanModel::SwitchoverCheck { target_node } => "SwitchoverCheck { target_node: "@
            + debug_text::str_debug_text(target_node) + " }"@,
        PlanModel::ClusterStatus => "ClusterStatus"@,
        PlanModel::SetNodeAlias { node_id, alias } => "SetNodeAlias { node_id: "@
            + debug_text::str_debug_text(node_id) + ", alias: "@ + debug_text::opt_text_text(alias)
            + " }"@,
        PlanModel::ShowTopology => "ShowTopology"@,
    }
}

pub open spec fn opt_expr_text(o: Option<Box<ExprModel>>) -> Seq<char>
    decreases o, 0nat,
{
    match o {
        Some(x) => debug_text::bracketed("Some"@, expr_text(*x)),
        None => "None"@,
    }
}

pub open spec fn opt_plain_text(o: Option<ExprModel>) -> Seq<char>
    decreases o, 0nat,
{
    match o {
        Some(x) => debug_text::bracketed("Some"@, expr_text(x)),
        None => "None"@,
    }
}

pub open spec fn opt_exprs_text(o: Option<Seq<ExprModel>>) -> Seq<char>
    decreases o, 0nat,
{
    match o {
        Some(x) => debug_text::bracketed("Some"@, debug_text::listed(exprs_text(x, x.len()))),
        None => "None"@,
    }
}

/// The first `n` expressions, separated by commas.
pub open spec fn exprs_text(s: Seq<ExprModel>, n: nat) -> Seq<char>
    decreases s, n,
{
    if n == 0 || n > s.len() {
        Seq::empty()
    } else {
        debug_text::and_then_text(exprs_text(s, (n - 1) as nat), n == 1, expr_text(s[n - 1]))
    }
}

/// The first `n` branches of `CASE`, separated by commas.
pub open spec fn pairs_text(s: Seq<(ExprModel, ExprModel)>, n: nat) -> Seq<char>
    decreases s, n,
{
    if n == 0 || n > s.len() {
        Seq::empty()
    } else {
        debug_text::and_then_text(
            pairs_text(s, (n - 1) as nat),
            n == 1,
            pair_text(expr_text(s[n - 1].0), expr_text(s[n - 1].1)),
        )
    }
}

/// The first `n` sort keys, separated by commas.
pub open spec fn keys_text(s: Seq<(ExprModel, bool)>, n: nat) -> Seq<char>
    decreases s, n,
{
    if n == 0 || n > s.len() {
        Seq::empty()
    } else {
        debug_text::and_then_text(
            keys_text(s, (n - 1) as nat),
            n == 1,
            pair_text(expr_text(s[n - 1].0), debug_text::bool_text(s[n - 1].1)),
        )
    }
}

/// The first `n` common table expressions, separated by commas.
pub open spec fn ctes_text(s: Seq<(Seq<char>, Box<PlanModel>, Option<Seq<Seq<char>>>)>, n: nat) -> Seq<char>
    decreases s, n,
{
    if n == 0 || n > s.len() {
        Seq::empty()
    } else {
        debug_text::and_then_text(
            ctes_text(s, (n - 1) as nat),
            n == 1,
            cte_text(
                debug_text::str_debug_text(s[n - 1].0),
                plan_text(*s[n - 1].1),
                opt_names_text(s[n - 1].2),
            ),
        )
    }
}

/// Shows an expression.
pub fn show_expr(e: &LogicalExpr) -> (r: String)
    ensures
        r@ == expr_text(e@),
    decreases e, 0nat,
{
    match e {
        LogicalExpr::Column { table, name } => {
            let mut m: String = text::concat3(
                "Column { table: ",
                debug_text::show_opt_text(table).as_str(),
                ", name: ",
            );
            m.append(debug_text::debug_str(name.as_str()).as_str());
            m.append(" }");
            m
        },
        LogicalExpr::BoundColumn { index, table, name } => {
            let mut m: String = text::concat3(
                "BoundColumn { index: ",
                debug_text::show_number(*index as u128).as_str(),
                ", table: ",
            );
            m.append(debug_text::show_opt_text(table).as_str());
            m.append(", name: ");
            m.append(debug_text::debug_str(name.as_str()).as_str());
            m.append(" }");
            m
        },
        LogicalExpr::Literal(v) => debug_text::bracket(
            "Literal",
            debug_text::show_value(v).as_str(),
        ),
        LogicalExpr::Parameter { index } => text::concat3(
            "Parameter { index: ",
            debug_text::show_number(*index as u128).as_str(),
            " }",
        ),
        LogicalExpr::BinaryExpr { left, op, right } => {
            let mut m: String = text::concat3(
                "BinaryExpr { left: ",
                show_expr(left).as_str(),
                ", op: ",
            );
            m.append(show_binary_operator(*op).as_str());
            m.append(", right: ");
            m.append(show_expr(right).as_str());
            m.append(" }");
            m
        },
        LogicalExpr::UnaryExpr { op, expr } => {
            let mut m: String = text::concat3(
                "UnaryExpr { op: ",
                show_unary_operator(*op).as_str(),
                ", expr: ",
            );
            m.append(show_expr(expr).as_str());
            m.append(" }");
            m
        },
        LogicalExpr::Cast { expr, data_type } => {
            let mut m: String = text::concat3(
                "Cast { expr: ",
                show_expr(expr).as_str(),
                ", data_type: ",
            );
            m.append(debug_text::show_data_type(data_type).as_str());
            m.append(" }");
            m
        },
        LogicalExpr::IsNull { expr, is_null } => {
            let mut m: String = text::concat3(
                "IsNull { expr: ",
                show_expr(expr).as_str(),
                ", is_null: ",
            );
            m.append(debug_text::show_bool(*is_null).as_str());
            m.append(" }");
            m
        },
        LogicalExpr::Between { expr, low, high, negated } => {
            let mut m: String = text::concat3(
                "Between { expr: ",
                show_expr(expr).as_str(),
                ", low: ",
            );
            m.append(show_expr(low).as_str());
            m.append(", high: ");
            m.append(show_expr(high).as_str());
            m.append(", negated: ");
            m.append(debug_text::show_bool(*negated).as_str());
            m.append(" }");
            m
        },
        LogicalExpr::InList { expr, list, negated } => {
            let mut m: String = text::concat3(
                "InList { expr: ",
                show_expr(expr).as_str(),
                ", list: ",
            );
            m.append(show_exprs(list).as_str());
            m.append(", negated: ");
            m.append(debug_text::show_bool(*negated).as_str());
            m.append(" }");
            m
        },
        LogicalExpr::InSet { expr, values, negated } => {
            let mut m: String = text::concat3(
                "InSet { expr: ",
                show_expr(expr).as_str(),
                ", values: ",
            );
            m.append(debug_text::show_listed(debug_text::show_values(values)).as_str());
            m.append(", negated: ");
            m.append(debug_text::show_bool(*negated).as_str());
            m.append(" }");
            m
        },
        LogicalExpr::InSubquery { expr, subquery, negated } => {
            let mut m: String = text::concat3(
                "InSubquery { expr: ",
                show_expr(expr).as_str(),
                ", subquery: ",
            );
            m.append(show_plan(subquery).as_str());
            m.append(", negated: ");
            m.append(debug_text::show_bool(*negated).as_str());
            m.append(" }");
            m
        },
        LogicalExpr::ScalarSubquery { subquery } => text::concat3(
            "ScalarSubquery { subquery: ",
            show_plan(subquery).as_str(),
            " }",
        ),
        LogicalExpr::Exists { subquery, negated } => {
            let mut m: String = text::concat3(
                "Exists { subquery: ",
                show_plan(subquery).as_str(),
                ", negated: ",
            );
            m.append(debug_text::show_bool(*negated).as_str());
            m.append(" }");
            m
        },
        LogicalExpr::Case { expr, when_then, else_result } => {
            let mut m: String = text::concat3(
                "Case { expr: ",
                show_opt_expr(expr).as_str(),
                ", when_then: ",
            );
            m.append(show_pairs(when_then).as_str());
            m.append(", else_result: ");
            m.append(show_opt_expr(else_result).as_str());
            m.append(" }");
            m
        },
        LogicalExpr::ScalarFunction { fun, args } => {
            let mut m: String = text::concat3(
                "ScalarFunction { fun: ",
                debug_text::debug_str(fun.as_str()).as_str(),
                ", args: ",
            );
            m.append(show_exprs(args).as_str());
            m.append(" }");
            m
        },
        LogicalExpr::AggregateFunction { fun, args, distinct } => {
            let mut m: String = text::concat3(
                "AggregateFunction { fun: ",
                show_aggregate(*fun).as_str(),
                ", args: ",
            );
            m.append(show_exprs(args).as_str());
            m.append(", distinct: ");
            m.append(debug_text::show_bool(*distinct).as_str());
            m.append(" }");
            m
        },
        LogicalExpr::WindowFunction { fun, args, partition_by, order_by } => {
            let mut m: String = text::concat3(
                "WindowFunction { fun: ",
                debug_text::debug_str(fun.as_str()).as_str(),
                ", args: ",
            );
            m.append(show_exprs(args).as_str());
            m.append(", partition_by: ");
            m.append(show_exprs(partition_by).as_str());
            m.append(", order_by: ");
            m.append(show_keys(order_by).as_str());
            m.append(" }");
            m
        },
        LogicalExpr::Tuple { items } => text::concat3(
            "Tuple { items: ",
            show_exprs(items).as_str(),
            " }",
        ),
        LogicalExpr::ArraySubscript { array, index } => {
            let mut m: String = text::concat3(
                "ArraySubscript { array: ",
                show_expr(array).as_str(),
                ", index: ",
            );
            m.append(show_expr(index).as_str());
            m.append(" }");
            m
        },
        LogicalExpr::NewRow { column } => text::concat3(
            "NewRow { column: ",
            debug_text::debug_str(column.as_str()).as_str(),
            " }",
        ),
        LogicalExpr::OldRow { column } => text::concat3(
            "OldRow { column: ",
            debug_text::debug_str(column.as_str()).as_str(),
            " }",
        ),
        LogicalExpr::Wildcard => "Wildcard".to_owned(),
        LogicalExpr::DefaultValue => "DefaultValue".to_owned(),
    }
}

/// Shows a plan.
pub fn show_plan(p: &LogicalPlan) -> (r: String)
    ensures
        r@ == plan_text(p@),
    decreases p, 0nat,
{
    match p {
        LogicalPlan::Scan { table_name, alias, schema, projection, as_of } => {
            let mut m: String = text::concat3(
                "Scan { table_name: ",
                debug_text::debug_str(table_name.as_str()).as_str(),
                ", alias: ",
            );
            m.append(debug_text::show_opt_text(alias).as_str());
            m.append(", schema: ");
            m.append(debug_text::show_schema(schema).as_str());
            m.append(", projection: ");
            m.append(show_opt_positions(projection).as_str());
            m.append(", as_of: ");
            m.append(show_opt_as_of(as_of).as_str());
            m.append(" }");
            m
        },
        LogicalPlan::FilteredScan { table_name, alias, schema, projection, predicate, as_of } => {
            let mut m: String = text::concat3(
                "FilteredScan { table_name: ",
                debug_text::debug_str(table_name.as_str()).as_str(),
                ", alias: ",
            );
            m.append(debug_text::show_opt_text(alias).as_str());
            m.append(", schema: ");
            m.append(debug_text::show_schema(schema).as_str());
            m.append(", projection: ");
            m.append(show_opt_positions(projection).as_str());
            m.append(", predicate: ");
            m.append(show_opt_plain(predicate).as_str());
            m.append(", as_of: ");
            m.append(show_opt_as_of(as_of).as_str());
            m.append(" }");
            m
        },
        LogicalPlan::TableFunction { function_name, args, alias } => {
            let mut m: String = text::concat3(
                "TableFunction { function_name: ",
                debug_text::debug_str(function_name.as_str()).as_str(),
                ", args: ",
            );
            m.append(show_exprs(args).as_str());
            m.append(", alias: ");
            m.append(debug_text::show_opt_text(alias).as_str());
            m.append(" }");
            m
        },
        LogicalPlan::Filter { input, predicate } => {
            let mut m: String = text::concat3(
                "Filter { input: ",
                show_plan(input).as_str(),
                ", predicate: ",
            );
            m.append(show_expr(predicate).as_str());
            m.append(" }");
            m
        },
        LogicalPlan::Project { input, exprs, aliases, distinct, distinct_on, source_alias } => {
            let mut m: String = text::concat3(
                "Project { input: ",
                show_plan(input).as_str(),
                ", exprs: ",
            );
            m.append(show_exprs(exprs).as_str());
            m.append(", aliases: ");
            m.append(debug_text::show_texts(aliases).as_str());
            m.append(", distinct: ");
            m.append(debug_text::show_bool(*distinct).as_str());
            m.append(", distinct_on: ");
            m.append(show_opt_exprs(distinct_on).as_str());
            m.append(", source_alias: ");
            m.append(debug_text::show_opt_text(source_alias).as_str());
            m.append(" }");
            m
        },
        LogicalPlan::Limit { input, limit, offset, limit_param, offset_param } => {
            let mut m: String = text::concat3(
                "Limit { input: ",
                show_plan(input).as_str(),
                ", limit: ",
            );
            m.append(debug_text::show_number(*limit as u128).as_str());
            m.append(", offset: ");
            m.append(debug_text::show_number(*offset as u128).as_str());
            m.append(", limit_param: ");
            m.append(debug_text::show_opt_number(*limit_param).as_str());
            m.append(", offset_param: ");
            m.append(debug_text::show_opt_number(*offset_param).as_str());
            m.append(" }");
            m
        },
        LogicalPlan::Sort { input, exprs, asc } => {
            let mut m: String = text::concat3(
                "Sort { input: ",
                show_plan(input).as_str(),
                ", exprs: ",
            );
            m.append(show_exprs(exprs).as_str());
            m.append(", asc: ");
            m.append(show_flags(asc).as_str());
            m.append(" }");
            m
        },
        LogicalPlan::Aggregate { input, group_by, aggr_exprs, having } => {
            let mut m: String = text::concat3(
                "Aggregate { input: ",
                show_plan(input).as_str(),
                ", group_by: ",
            );
            m.append(show_exprs(group_by).as_str());
            m.append(", aggr_exprs: ");
            m.append(show_exprs(aggr_exprs).as_str());
            m.append(", having: ");
            m.append(show_opt_plain(having).as_str());
            m.append(" }");
            m
        },
        LogicalPlan::Join { left, right, join_type, on, lateral } => {
            let mut m: String = text::concat3(
                "Join { left: ",
                show_plan(left).as_str(),
                ", right: ",
            );
            m.append(show_plan(right).as_str());
            m.append(", join_type: ");
            m.append(show_join_type(*join_type).as_str());
            m.append(", on: ");
            m.append(show_opt_plain(on).as_str());
            m.append(", lateral: ");
            m.append(debug_text::show_bool(*lateral).as_str());
            m.append(" }");
            m
        },
        LogicalPlan::Union { left, right, all } => {
            let mut m: String = text::concat3(
                "Union { left: ",
                show_plan(left).as_str(),
                ", right: ",
            );
            m.append(show_plan(right).as_str());
            m.append(", all: ");
            m.append(debug_text::show_bool(*all).as_str());
            m.append(" }");
            m
        },
        LogicalPlan::Intersect { left, right, all } => {
            let mut m: String = text::concat3(
                "Intersect { left: ",
                show_plan(left).as_str(),
                ", right: ",
            );
            m.append(show_plan(right).as_str());
            m.append(", all: ");
            m.append(debug_text::show_bool(*all).as_str());
            m.append(" }");
            m
        },
        LogicalPlan::Except { left, right, all } => {
            let mut m: String = text::concat3(
                "Except { left: ",
                show_plan(left).as_str(),
                ", right: ",
            );
            m.append(show_plan(right).as_str());
            m.append(", all: ");
            m.append(debug_text::show_bool(*all).as_str());
            m.append(" }");
            m
        },
        LogicalPlan::With { ctes, query, recursive } => {
            let mut m: String = text::concat3(
                "With { ctes: ",
                show_ctes(ctes).as_str(),
                ", query: ",
            );
            m.append(show_plan(query).as_str());
            m.append(", recursive: ");
            m.append(debug_text::show_bool(*recursive).as_str());
            m.append(" }");
            m
        },
        LogicalPlan::Explain { input, options } => {
            let mut m: String = text::concat3(
                "Explain { input: ",
                show_plan(input).as_str(),
                ", options: ",
            );
            m.append(show_explain_options(options).as_str());
            m.append(" }");
            m
        },
        LogicalPlan::DualScan => "DualScan".to_owned(),
        LogicalPlan::Rows { schema, rows } => {
            let mut m: String = text::concat3(
                "Rows { schema: ",
                debug_text::show_schema(schema).as_str(),
                ", rows: ",
            );
            m.append(debug_text::show_rows(rows).as_str());
            m.append(" }");
            m
        },
        LogicalPlan::CreateIndex {
            name,
            table_name,
            column_name,
            index_type,
            if_not_exists,
            options,
        } => {
            let mut m: String = text::concat3(
                "CreateIndex { name: ",
                debug_text::debug_str(name.as_str()).as_str(),
                ", table_name: ",
            );
            m.append(debug_text::debug_str(table_name.as_str()).as_str());
            m.append(", column_name: ");
            m.append(debug_text::debug_str(column_name.as_str()).as_str());
            m.append(", index_type: ");
            m.append(debug_text::show_opt_text(index_type).as_str());
            m.append(", if_not_exists: ");
            m.append(debug_text::show_bool(*if_not_exists).as_str());
            m.append(", options: ");
            m.append(show_options(options).as_str());
            m.append(" }");
            m
        },
        LogicalPlan::DropIndex { name, if_exists } => {
            let mut m: String = text::concat3(
                "DropIndex { name: ",
                debug_text::debug_str(name.as_str()).as_str(),
                ", if_exists: ",
            );
            m.append(debug_text::show_bool(*if_exists).as_str());
            m.append(" }");
            m
        },
        LogicalPlan::CreateSequence { name, if_not_exists } => {
            let mut m: String = text::concat3(
                "CreateSequence { name: ",
                debug_text::debug_str(name.as_str()).as_str(),
                ", if_not_exists: ",
            );
            m.append(debug_text::show_bool(*if_not_exists).as_str());
            m.append(" }");
            m
        },
        LogicalPlan::CreateEnumType { name, labels } => {
            let mut m: String = text::concat3(
                "CreateEnumType { name: ",
                debug_text::debug_str(name.as_str()).as_str(),
                ", labels: ",
            );
            m.append(debug_text::show_texts(labels).as_str());
            m.append(" }");
            m
        },
        LogicalPlan::DropEnumType { name, if_exists } => {
            let mut m: String = text::concat3(
                "DropEnumType { name: ",
                debug_text::debug_str(name.as_str()).as_str(),
                ", if_exists: ",
            );
            m.append(debug_text::show_bool(*if_exists).as_str());
            m.append(" }");
            m
        },
        LogicalPlan::CreateSchema { name, if_not_exists } => {
            let mut m: String = text::concat3(
                "CreateSchema { name: ",
                debug_text::debug_str(name.as_str()).as_str(),
                ", if_not_exists: ",
            );
            m.append(debug_text::show_bool(*if_not_exists).as_str());
            m.append(" }");
            m
        },
        LogicalPlan::CreateExtension { name, if_not_exists } => {
            let mut m: String = text::concat3(
                "CreateExtension { name: ",
                debug_text::debug_str(name.as_str()).as_str(),
                ", if_not_exists: ",
            );
            m.append(debug_text::show_bool(*if_not_exists).as_str());
            m.append(" }");
            m
        },
        LogicalPlan::DropExtension { name } => text::concat3(
            "DropExtension { name: ",
            debug_text::debug_str(name.as_str()).as_str(),
            " }",
        ),
        LogicalPlan::CreateDatabase { name } => text::concat3(
            "CreateDatabase { name: ",
            debug_text::debug_str(name.as_str()).as_str(),
            " }",
        ),
        LogicalPlan::DropDatabase { name } => text::concat3(
            "DropDatabase { name: ",
            debug_text::debug_str(name.as_str()).as_str(),
            " }",
        ),
        LogicalPlan::DropTable { name, if_exists } => {
            let mut m: String = text::concat3(
                "DropTable { name: ",
                debug_text::debug_str(name.as_str()).as_str(),
                ", if_exists: ",
            );
            m.append(debug_text::show_bool(*if_exists).as_str());
            m.append(" }");
            m
        },
        LogicalPlan::Truncate { table_name } => text::concat3(
            "Truncate { table_name: ",
            debug_text::debug_str(table_name.as_str()).as_str(),
            " }",
        ),
        LogicalPlan::CreateFunction { name } => text::concat3(
            "CreateFunction { name: ",
            debug_text::debug_str(name.as_str()).as_str(),
            " }",
        ),
        LogicalPlan::CreateProcedure { name } => text::concat3(
            "CreateProcedure { name: ",
            debug_text::debug_str(name.as_str()).as_str(),
            " }",
        ),
        LogicalPlan::DropFunction { name, if_exists } => {
            let mut m: String = text::concat3(
                "DropFunction { name: ",
                debug_text::debug_str(name.as_str()).as_str(),
                ", if_exists: ",
            );
            m.append(debug_text::show_bool(*if_exists).as_str());
            m.append(" }");
            m
        },
        LogicalPlan::DropProcedure { name, if_exists } => {
            let mut m: String = text::concat3(
                "DropProcedure { name: ",
                debug_text::debug_str(name.as_str()).as_str(),
                ", if_exists: ",
            );
            m.append(debug_text::show_bool(*if_exists).as_str());
            m.append(" }");
            m
        },
        LogicalPlan::Call { name, args } => {
            let mut m: String = text::concat3(
                "Call { name: ",
                debug_text::debug_str(name.as_str()).as_str(),
                ", args: ",
            );
            m.append(show_exprs(args).as_str());
            m.append(" }");
            m
        },
        LogicalPlan::Switchover { target_node } => text::concat3(
            "Switchover { target_node: ",
            debug_text::debug_str(target_node.as_str()).as_str(),
            " }",
        ),
        LogicalPlan::SwitchoverCheck { target_node } => text::concat3(
            "SwitchoverCheck { target_node: ",
            debug_text::debug_str(target_node.as_str()).as_str(),
            " }",
        ),
        LogicalPlan::ClusterStatus => "ClusterStatus".to_owned(),
        LogicalPlan::SetNodeAlias { node_id, alias } => {
            let mut m: String = text::concat3(
                "SetNodeAlias { node_id: ",
                debug_text::debug_str(node_id.as_str()).as_str(),
                ", alias: ",
            );
            m.append(debug_text::show_opt_text(alias).as_str());
            m.append(" }");
            m
        },
        LogicalPlan::ShowTopology => "ShowTopology".to_owned(),
    }
}

fn show_opt_expr(o: &Option<Box<LogicalExpr>>) -> (r: String)
    ensures
        r@ == opt_expr_text(materialize::opt_boxed(*o)),
    decreases o, 1nat,
{
    match o {
        Some(x) => debug_text::bracket("Some", show_expr(x).as_str()),
        None => "None".to_owned(),
    }
}

fn show_opt_plain(o: &Option<LogicalExpr>) -> (r: String)
    ensures
        r@ == opt_plain_text(logical_plan::opt_expr(*o)),
    decreases o, 1nat,
{
    match o {
        Some(x) => debug_text::bracket("Some", show_expr(x).as_str()),
        None => "None".to_owned(),
    }
}

fn show_opt_exprs(o: &Option<Vec<LogicalExpr>>) -> (r: String)
    ensures
        r@ == opt_exprs_text(logical_plan::opt_exprs(*o)),
    decreases o, 2nat,
{
    match o {
        Some(x) => debug_text::bracket("Some", show_exprs(x).as_str()),
        None => "None".to_owned(),
    }
}

fn show_exprs(v: &Vec<LogicalExpr>) -> (r: String)
    ensures
        r@ == debug_text::listed(
            exprs_text(logical_plan::exprs_model(v@), logical_plan::exprs_model(v@).len()),
        ),
    decreases v, 1nat,
{
    let ghost s = logical_plan::exprs_model(v@);
    proof {
        logical_plan::lemma_exprs_model(v@);
    }
    let mut out: String = String::new();
    assert(out@ =~= exprs_text(s, 0));
    for i in 0..v.len()
        invariant
            s == logical_plan::exprs_model(v@),
            s.len() == v@.len(),
            out@ == exprs_text(s, i as nat),
    {
        assert(s[i as int] == v@[i as int]@);
        out = debug_text::add_item(out, i == 0, show_expr(&v[i]));
    }
    debug_text::show_listed(out)
}

fn show_pairs(v: &Vec<(LogicalExpr, LogicalExpr)>) -> (r: String)
    ensures
        r@ == debug_text::listed(
            pairs_text(logical_plan::pairs_model(v@), logical_plan::pairs_model(v@).len()),
        ),
    decreases v, 1nat,
{
    let ghost s = logical_plan::pairs_model(v@);
    proof {
        logical_plan::lemma_pairs_model(v@);
    }
    let mut out: String = String::new();
    assert(out@ =~= pairs_text(s, 0));
    for i in 0..v.len()
        invariant
            s == logical_plan::pairs_model(v@),
            s.len() == v@.len(),
            out@ == pairs_text(s, i as nat),
    {
        assert(s[i as int] == (v@[i as int].0@, v@[i as int].1@));
        out = debug_text::add_item(out, i == 0, show_pair(show_expr(&v[i].0), show_expr(&v[i].1)));
    }
    debug_text::show_listed(out)
}

fn show_keys(v: &Vec<(LogicalExpr, bool)>) -> (r: String)
    ensures
        r@ == debug_text::listed(
            keys_text(logical_plan::flagged_model(v@), logical_plan::flagged_model(v@).len()),
        ),
    decreases v, 1nat,
{
    let ghost s = logical_plan::flagged_model(v@);
    let mut out: String = String::new();
    assert(out@ =~= keys_text(s, 0));
    for i in 0..v.len()
        invariant
            s == logical_plan::flagged_model(v@),
            s.len() == v@.len(),
            out@ == keys_text(s, i as nat),
    {
        assert(s[i as int] == (v@[i as int].0@, v@[i as int].1));
        out = debug_text::add_item(
            out,
            i == 0,
            show_pair(show_expr(&v[i].0), debug_text::show_bool(v[i].1)),
        );
    }
    debug_text::show_listed(out)
}

fn show_ctes(v: &Vec<(String, Box<LogicalPlan>, Option<Vec<String>>)>) -> (r: String)
    ensures
        r@ == debug_text::listed(
            ctes_text(logical_plan::ctes_model(v@), logical_plan::ctes_model(v@).len()),
        ),
    decreases v, 1nat,
{
    let ghost s = logical_plan::ctes_model(v@);
    let mut out: String = String::new();
    assert(out@ =~= ctes_text(s, 0));
    for i in 0..v.len()
        invariant
            s == logical_plan::ctes_model(v@),
            s.len() == v@.len(),
            out@ == ctes_text(s, i as nat),
    {
        let ghost entry = v@[i as int];
        assert(s[i as int] == (entry.0@, Box::new((*entry.1)@), logical_plan::opt_names(entry.2)));
        out = debug_text::add_item(
            out,
            i == 0,
            show_cte(
                debug_text::debug_str(v[i].0.as_str()),
                show_plan(&v[i].1),
                show_opt_names(&v[i].2),
            ),
        );
    }
    debug_text::show_listed(out)
}

} // verus!
