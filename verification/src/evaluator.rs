//! Row-at-a-time evaluation of expressions.
//!
//! Three-valued logic: a comparison with NULL is NULL, `AND` and `OR` follow
//! SQL's truth tables and stop at the first operand that decides.

use crate::debug_text;
use crate::compare;
use crate::logical_plan;
use crate::logical_plan::{BinaryOperator, ExprModel, LogicalExpr, UnaryOperator};
use crate::operators;
use crate::schema;
use crate::schema::{ColumnModel, Error, ErrorModel, Schema, Tuple};
use crate::text;
use crate::text::Order;
use crate::value;
use crate::value::{Value, ValueModel};
use std::sync::Arc;
use vstd::prelude::*;
use vstd::string::*;

verus! {

/// A value where a truth value was needed.
pub open spec fn not_boolean(v: ValueModel) -> ErrorModel {
    ErrorModel::QueryExecution("Cannot convert "@ + debug_text::value_text(v) + " to boolean"@)
}

fn not_boolean_error(v: &Value) -> (r: Error)
    ensures
        r@ == not_boolean(v@),
{
    Error::query_execution(
        text::concat3("Cannot convert ", debug_text::show_value(v).as_str(), " to boolean"),
    )
}

/// A column position behind the end of a row.
pub open spec fn out_of_bounds(index: usize) -> ErrorModel {
    ErrorModel::QueryExecution(
        "Column index "@ + text::decimal(index as nat) + " out of bounds in tuple"@,
    )
}

pub fn out_of_bounds_error(index: usize) -> (r: Error)
    ensures
        r@ == out_of_bounds(index),
{
    Error::query_execution(
        text::concat_number("Column index ", index as u128, " out of bounds in tuple"),
    )
}

/// A column as the query spells it.
pub open spec fn spelled_column(table: Option<Seq<char>>, name: Seq<char>) -> Seq<char> {
    match table {
        Some(t) => t + "."@ + name,
        None => name,
    }
}

/// A column that the schema does not have.
pub open spec fn column_missing(table: Option<Seq<char>>, name: Seq<char>) -> ErrorModel {
    ErrorModel::QueryExecution(
        "Column '"@ + spelled_column(table, name) + "' not found in schema"@,
    )
}

fn column_missing_error(table: &Option<String>, name: &String) -> (r: Error)
    ensures
        r@ == column_missing(schema::opt_text(*table), name@),
{
    let spelled: String = match table {
        Some(t) => text::concat3(t.as_str(), ".", name.as_str()),
        None => name.clone(),
    };
    Error::query_execution(
        text::concat3("Column '", spelled.as_str(), "' not found in schema"),
    )
}

/// A bind parameter that the statement was not given.
pub open spec fn parameter_missing(index: usize) -> ErrorModel {
    ErrorModel::QueryExecution("Parameter $"@ + text::decimal(index as nat) + " not provided"@)
}

fn parameter_missing_error(index: usize) -> (r: Error)
    ensures
        r@ == parameter_missing(index),
{
    Error::query_execution(text::concat_number("Parameter $", index as u128, " not provided"))
}

/// Two values that do not compare.
pub open spec fn incomparable(a: ValueModel, b: ValueModel) -> ErrorModel {
    ErrorModel::QueryExecution(
        "Cannot compare "@ + value::kind_text(a) + " with "@ + value::kind_text(b),
    )
}

fn incomparable_error(a: &Value, b: &Value) -> (r: Error)
    ensures
        r@ == incomparable(a@, b@),
{
    let head: String = text::concat3("Cannot compare ", value::kind_name(a), " with ");
    Error::query_execution(head.concat(value::kind_name(b)))
}

/// An operator or expression that is left to the database around the executor.
pub open spec fn unsupported() -> ErrorModel {
    ErrorModel::Unsupported("Expression cannot be evaluated on a row"@)
}

fn unsupported_error() -> (r: Error)
    ensures
        r@ == unsupported(),
{
    Error::unsupported("Expression cannot be evaluated on a row".to_owned())
}

/// Whether a comparison operator holds of an outcome.
pub open spec fn operator_holds(op: BinaryOperator, o: Order) -> bool {
    match op {
        BinaryOperator::Eq => o == Order::Equal,
        BinaryOperator::NotEq => o != Order::Equal,
        BinaryOperator::Lt => o == Order::Less,
        BinaryOperator::LtEq => o != Order::Greater,
        BinaryOperator::Gt => o == Order::Greater,
        BinaryOperator::GtEq => o != Order::Less,
        _ => false,
    }
}

/// The comparison operators.
pub open spec fn is_comparison(op: BinaryOperator) -> bool {
    op == BinaryOperator::Eq || op == BinaryOperator::NotEq || op == BinaryOperator::Lt || op
        == BinaryOperator::LtEq || op == BinaryOperator::Gt || op == BinaryOperator::GtEq
}

/// What an operator gives on two values that neither compares them nor joins truth
/// values: whole numbers are computed with, texts are joined and matched.
pub open spec fn computed_value(a: ValueModel, op: BinaryOperator, b: ValueModel) -> Result<
    ValueModel,
    ErrorModel,
> {
    if operators::is_arithmetic(op) {
        match operators::arithmetic(a, op, b) {
            Some(r) => r,
            None => Err(unsupported()),
        }
    } else {
        let given = if op == BinaryOperator::Concat {
            operators::concatenated(a, b)
        } else if op == BinaryOperator::Like {
            operators::like_value(a, b, false)
        } else if op == BinaryOperator::NotLike {
            operators::like_value(a, b, true)
        } else {
            None
        };
        match given {
            Some(v) => Ok(v),
            None => Err(unsupported()),
        }
    }
}

/// What a binary operator other than `AND` and `OR` gives on two values.
pub open spec fn binary_value(a: ValueModel, op: BinaryOperator, b: ValueModel) -> Result<
    ValueModel,
    ErrorModel,
> {
    if !is_comparison(op) {
        computed_value(a, op, b)
    } else if a is Null || b is Null {
        Ok(ValueModel::Null)
    } else {
        match compare::direct_order(a, b) {
            Some(o) => Ok(ValueModel::Boolean(operator_holds(op, o))),
            None => Err(incomparable(a, b)),
        }
    }
}

/// What a unary operator gives on a value.
pub open spec fn unary_value(op: UnaryOperator, v: ValueModel) -> Result<ValueModel, ErrorModel> {
    match op {
        UnaryOperator::Not => match v {
            ValueModel::Boolean(b) => Ok(ValueModel::Boolean(!b)),
            ValueModel::Null => Ok(ValueModel::Null),
            _ => Err(not_boolean(v)),
        },
        UnaryOperator::Minus => match operators::negated(v) {
            Some(r) => r,
            None => Err(unsupported()),
        },
        UnaryOperator::Plus => if operators::is_number(v) {
            Ok(v)
        } else {
            Err(unsupported())
        },
    }
}

/// Whether a branch of `CASE` is taken: its condition is true, or, where there is a
/// subject, its value equals the subject.
pub open spec fn branch_holds(subject: Option<ValueModel>, w: ValueModel) -> Result<
    bool,
    ErrorModel,
> {
    match subject {
        None => match w {
            ValueModel::Boolean(b) => Ok(b),
            ValueModel::Null => Ok(false),
            _ => Err(not_boolean(w)),
        },
        Some(x) => match binary_value(x, BinaryOperator::Eq, w) {
            Err(e) => Err(e),
            Ok(v) => Ok(v == ValueModel::Boolean(true)),
        },
    }
}

/// The item of an array at a position counted from one, NULL where there is none;
/// `None` where the values are of other kinds.
pub open spec fn array_item(a: ValueModel, i: ValueModel) -> Option<ValueModel> {
    match a {
        ValueModel::Null => Some(ValueModel::Null),
        ValueModel::Array(items) => match compare::int_value(i) {
            Some(n) => if 1 <= n <= items.len() {
                Some(items[n - 1])
            } else {
                Some(ValueModel::Null)
            },
            None => if i is Null {
                Some(ValueModel::Null)
            } else {
                None
            },
        },
        _ => None,
    }
}

/// `AND` of two truth values.
pub open spec fn and_value(a: ValueModel, b: Result<ValueModel, ErrorModel>) -> Result<
    ValueModel,
    ErrorModel,
> {
    match a {
        ValueModel::Boolean(false) => Ok(ValueModel::Boolean(false)),
        ValueModel::Boolean(true) => match b {
            Ok(ValueModel::Boolean(y)) => Ok(ValueModel::Boolean(y)),
            Ok(ValueModel::Null) => Ok(ValueModel::Null),
            Ok(v) => Err(not_boolean(v)),
            Err(e) => Err(e),
        },
        ValueModel::Null => match b {
            Ok(ValueModel::Boolean(false)) => Ok(ValueModel::Boolean(false)),
            Ok(ValueModel::Boolean(true)) => Ok(ValueModel::Null),
            Ok(ValueModel::Null) => Ok(ValueModel::Null),
            Ok(v) => Err(not_boolean(v)),
            Err(e) => Err(e),
        },
        _ => Err(not_boolean(a)),
    }
}

/// `OR` of two truth values.
pub open spec fn or_value(a: ValueModel, b: Result<ValueModel, ErrorModel>) -> Result<
    ValueModel,
    ErrorModel,
> {
    match a {
        ValueModel::Boolean(true) => Ok(ValueModel::Boolean(true)),
        ValueModel::Boolean(false) => match b {
            Ok(ValueModel::Boolean(y)) => Ok(ValueModel::Boolean(y)),
            Ok(ValueModel::Null) => Ok(ValueModel::Null),
            Ok(v) => Err(not_boolean(v)),
            Err(e) => Err(e),
        },
        ValueModel::Null => match b {
            Ok(ValueModel::Boolean(true)) => Ok(ValueModel::Boolean(true)),
            Ok(ValueModel::Boolean(false)) => Ok(ValueModel::Null),
            Ok(ValueModel::Null) => Ok(ValueModel::Null),
            Ok(v) => Err(not_boolean(v)),
            Err(e) => Err(e),
        },
        _ => Err(not_boolean(a)),
    }
}

/// `NOT` of a truth value, where it is asked for.
pub open spec fn negate_if(negated: bool, v: ValueModel) -> ValueModel {
    match v {
        ValueModel::Boolean(b) => ValueModel::Boolean(b != negated),
        _ => v,
    }
}

/// Whether a value equals one of a list from position `i` on. A comparison
/// with NULL on the way leaves the answer open when no other value is equal.
pub open spec fn membership(x: ValueModel, items: Seq<ValueModel>, i: int, open: bool) -> Result<
    ValueModel,
    ErrorModel,
>
    decreases items.len() - i,
{
    if i < 0 || i >= items.len() {
        Ok(if open {
            ValueModel::Null
        } else {
            ValueModel::Boolean(false)
        })
    } else {
        match binary_value(x, BinaryOperator::Eq, items[i]) {
            Err(e) => Err(e),
            Ok(ValueModel::Boolean(true)) => Ok(ValueModel::Boolean(true)),
            Ok(ValueModel::Null) => membership(x, items, i + 1, true),
            Ok(_) => membership(x, items, i + 1, open),
        }
    }
}

/// What an expression gives on a row.
pub open spec fn eval(
    e: ExprModel,
    cols: Seq<ColumnModel>,
    params: Seq<ValueModel>,
    row: Seq<ValueModel>,
) -> Result<ValueModel, ErrorModel>
    decreases e,
{
    match e {
        ExprModel::Literal(v) => Ok(v),
        ExprModel::Column { table, name } => match schema::qualified_index(cols, table, name) {
            Some(i) => if i < row.len() {
                Ok(row[i as int])
            } else {
                Err(out_of_bounds(i))
            },
            None => Err(column_missing(table, name)),
        },
        ExprModel::BoundColumn { index, .. } => if index < row.len() {
            Ok(row[index as int])
        } else {
            Err(out_of_bounds(index))
        },
        ExprModel::Parameter { index } => if 0 < index <= params.len() {
            Ok(params[index - 1])
        } else {
            Err(parameter_missing(index))
        },
        ExprModel::BinaryExpr { left, op, right } => match eval(*left, cols, params, row) {
            Err(x) => Err(x),
            Ok(a) => if op == BinaryOperator::And {
                and_value(a, eval(*right, cols, params, row))
            } else if op == BinaryOperator::Or {
                or_value(a, eval(*right, cols, params, row))
            } else {
                match eval(*right, cols, params, row) {
                    Err(x) => Err(x),
                    Ok(b) => binary_value(a, op, b),
                }
            },
        },
        ExprModel::UnaryExpr { op, expr } => match eval(*expr, cols, params, row) {
            Err(x) => Err(x),
            Ok(v) => unary_value(op, v),
        },
        ExprModel::IsNull { expr, is_null } => match eval(*expr, cols, params, row) {
            Err(x) => Err(x),
            Ok(v) => Ok(ValueModel::Boolean((v is Null) == is_null)),
        },
        ExprModel::Between { expr, low, high, negated } => match eval(*expr, cols, params, row) {
            Err(x) => Err(x),
            Ok(v) => match eval(*low, cols, params, row) {
                Err(x) => Err(x),
                Ok(lo) => match eval(*high, cols, params, row) {
                    Err(x) => Err(x),
                    Ok(hi) => match binary_value(v, BinaryOperator::GtEq, lo) {
                        Err(x) => Err(x),
                        Ok(a) => match and_value(a, binary_value(v, BinaryOperator::LtEq, hi)) {
                            Err(x) => Err(x),
                            Ok(b) => Ok(negate_if(negated, b)),
                        },
                    },
                },
            },
        },
        ExprModel::InList { expr, list, negated } => match eval(*expr, cols, params, row) {
            Err(x) => Err(x),
            Ok(v) => match eval_all(list, cols, params, row) {
                Err(x) => Err(x),
                Ok(items) => match membership(v, items, 0, false) {
                    Err(x) => Err(x),
                    Ok(b) => Ok(negate_if(negated, b)),
                },
            },
        },
        ExprModel::InSet { expr, values, negated } => match eval(*expr, cols, params, row) {
            Err(x) => Err(x),
            Ok(v) => match membership(v, values, 0, false) {
                Err(x) => Err(x),
                Ok(b) => Ok(negate_if(negated, b)),
            },
        },
        ExprModel::Case { expr, when_then, else_result } => {
            let subject = match expr {
                None => Ok(None),
                Some(x) => match eval(*x, cols, params, row) {
                    Err(x) => Err(x),
                    Ok(v) => Ok(Some(v)),
                },
            };
            match subject {
                Err(x) => Err(x),
                Ok(given) => match first_branch(given, when_then, cols, params, row) {
                    Err(x) => Err(x),
                    Ok(Some(v)) => Ok(v),
                    Ok(None) => match else_result {
                        Some(x) => eval(*x, cols, params, row),
                        None => Ok(ValueModel::Null),
                    },
                },
            }
        },
        ExprModel::ArraySubscript { array, index } => match eval(*array, cols, params, row) {
            Err(x) => Err(x),
            Ok(a) => match eval(*index, cols, params, row) {
                Err(x) => Err(x),
                Ok(i) => match array_item(a, i) {
                    Some(v) => Ok(v),
                    None => Err(unsupported()),
                },
            },
        },
        _ => Err(unsupported()),
    }
}

/// What the first branch of `CASE` that is taken gives.
pub open spec fn first_branch(
    subject: Option<ValueModel>,
    branches: Seq<(ExprModel, ExprModel)>,
    cols: Seq<ColumnModel>,
    params: Seq<ValueModel>,
    row: Seq<ValueModel>,
) -> Result<Option<ValueModel>, ErrorModel>
    decreases branches,
{
    if branches.len() == 0 {
        Ok(None)
    } else {
        match eval(branches[0].0, cols, params, row) {
            Err(x) => Err(x),
            Ok(w) => match branch_holds(subject, w) {
                Err(x) => Err(x),
                Ok(true) => match eval(branches[0].1, cols, params, row) {
                    Err(x) => Err(x),
                    Ok(v) => Ok(Some(v)),
                },
                Ok(false) => first_branch(subject, branches.drop_first(), cols, params, row),
            },
        }
    }
}

/// The value of the subject of a `CASE`, where it has one.
pub open spec fn case_subject(
    e: ExprModel,
    cols: Seq<ColumnModel>,
    params: Seq<ValueModel>,
    row: Seq<ValueModel>,
) -> Result<Option<ValueModel>, ErrorModel> {
    match e->Case_expr {
        None => Ok(None),
        Some(x) => match eval(*x, cols, params, row) {
            Err(x) => Err(x),
            Ok(v) => Ok(Some(v)),
        },
    }
}

pub proof fn lemma_case_steps(
    e: ExprModel,
    cols: Seq<ColumnModel>,
    params: Seq<ValueModel>,
    row: Seq<ValueModel>,
)
    requires
        e is Case,
    ensures
        eval(e, cols, params, row) == match case_subject(e, cols, params, row) {
            Err(x) => Err(x),
            Ok(given) => match first_branch(
                given,
                e->Case_when_then,
                cols,
                params,
                row,
            ) {
                Err(x) => Err(x),
                Ok(Some(v)) => Ok(v),
                Ok(None) => match e->Case_else_result {
                    Some(x) => eval(*x, cols, params, row),
                    None => Ok(ValueModel::Null),
                },
            },
        },
{
}

/// What a list of expressions gives on a row; the first error stops it.
pub open spec fn eval_all(
    list: Seq<ExprModel>,
    cols: Seq<ColumnModel>,
    params: Seq<ValueModel>,
    row: Seq<ValueModel>,
) -> Result<Seq<ValueModel>, ErrorModel>
    decreases list,
{
    if list.len() == 0 {
        Ok(Seq::empty())
    } else {
        match eval_all(list.drop_last(), cols, params, row) {
            Err(x) => Err(x),
            Ok(vs) => match eval(list.last(), cols, params, row) {
                Err(x) => Err(x),
                Ok(v) => Ok(vs.push(v)),
            },
        }
    }
}

pub proof fn lemma_list_values(
    exprs: Seq<ExprModel>,
    cols: Seq<ColumnModel>,
    params: Seq<ValueModel>,
    row: Seq<ValueModel>,
)
    ensures
        eval_all(exprs, cols, params, row) matches Ok(vs) ==> {
            &&& vs.len() == exprs.len()
            &&& forall|i: int|
                0 <= i < exprs.len() ==> eval(#[trigger] exprs[i], cols, params, row)
                    == Ok::<ValueModel, ErrorModel>(vs[i])
        },
    decreases exprs.len(),
{
    if exprs.len() > 0 {
        let shorter = exprs.drop_last();
        lemma_list_values(shorter, cols, params, row);
        if eval_all(exprs, cols, params, row) is Ok {
            let vs = eval_all(exprs, cols, params, row)->Ok_0;
            assert forall|i: int| 0 <= i < exprs.len() implies eval(
                #[trigger] exprs[i],
                cols,
                params,
                row,
            ) == Ok::<ValueModel, ErrorModel>(vs[i]) by {
                if i < shorter.len() {
                    assert(shorter[i] == exprs[i]);
                }
            }
        }
    }
}

/// An expression with its column names replaced by positions, as far as the
/// schema resolves them. Subqueries are left as they are.
pub open spec fn bind_expr(e: ExprModel, cols: Seq<ColumnModel>) -> ExprModel
    decreases e,
{
    match e {
        ExprModel::Column { table, name } => match schema::qualified_index(cols, table, name) {
            Some(index) => ExprModel::BoundColumn { index, table, name },
            None => e,
        },
        ExprModel::BinaryExpr { left, op, right } => ExprModel::BinaryExpr {
            left: Box::new(bind_expr(*left, cols)),
            op,
            right: Box::new(bind_expr(*right, cols)),
        },
        ExprModel::UnaryExpr { op, expr } => ExprModel::UnaryExpr {
            op,
            expr: Box::new(bind_expr(*expr, cols)),
        },
        ExprModel::Cast { expr, data_type } => ExprModel::Cast {
            expr: Box::new(bind_expr(*expr, cols)),
            data_type,
        },
        ExprModel::IsNull { expr, is_null } => ExprModel::IsNull {
            expr: Box::new(bind_expr(*expr, cols)),
            is_null,
        },
        ExprModel::Between { expr, low, high, negated } => ExprModel::Between {
            expr: Box::new(bind_expr(*expr, cols)),
            low: Box::new(bind_expr(*low, cols)),
            high: Box::new(bind_expr(*high, cols)),
            negated,
        },
        ExprModel::InList { expr, list, negated } => ExprModel::InList {
            expr: Box::new(bind_expr(*expr, cols)),
            list: bind_exprs(list, cols),
            negated,
        },
        ExprModel::InSet { expr, values, negated } => ExprModel::InSet {
            expr: Box::new(bind_expr(*expr, cols)),
            values,
            negated,
        },
        ExprModel::InSubquery { expr, subquery, negated } => ExprModel::InSubquery {
            expr: Box::new(bind_expr(*expr, cols)),
            subquery,
            negated,
        },
        ExprModel::Case { expr, when_then, else_result } => ExprModel::Case {
            expr: match expr { Some(b) => Some(Box::new(bind_expr(*b, cols))), None => None },
            when_then: bind_pairs(when_then, cols),
            else_result: match else_result { Some(b) => Some(Box::new(bind_expr(*b, cols))), None => None },
        },
        ExprModel::ScalarFunction { fun, args } => ExprModel::ScalarFunction {
            fun,
            args: bind_exprs(args, cols),
        },
        ExprModel::AggregateFunction { fun, args, distinct } => ExprModel::AggregateFunction {
            fun,
            args: bind_exprs(args, cols),
            distinct,
        },
        ExprModel::WindowFunction { fun, args, partition_by, order_by } => ExprModel::WindowFunction {
            fun,
            args: bind_exprs(args, cols),
            partition_by: bind_exprs(partition_by, cols),
            order_by: bind_flagged(order_by, cols),
        },
        ExprModel::Tuple { items } => ExprModel::Tuple {
            items: bind_exprs(items, cols),
        },
        ExprModel::ArraySubscript { array, index } => ExprModel::ArraySubscript {
            array: Box::new(bind_expr(*array, cols)),
            index: Box::new(bind_expr(*index, cols)),
        },
        _ => e,
    }
}

pub open spec fn bind_exprs(s: Seq<ExprModel>, cols: Seq<ColumnModel>) -> Seq<ExprModel>
    decreases s,
{
    Seq::new(
        s.len(),
        |i: int|
            if 0 <= i < s.len() {
                bind_expr(s[i], cols)
            } else {
                arbitrary()
            },
    )
}

pub open spec fn bind_pairs(s: Seq<(ExprModel, ExprModel)>, cols: Seq<ColumnModel>) -> Seq<
    (ExprModel, ExprModel),
>
    decreases s,
{
    Seq::new(
        s.len(),
        |i: int|
            if 0 <= i < s.len() {
                (bind_expr(s[i].0, cols), bind_expr(s[i].1, cols))
            } else {
                arbitrary()
            },
    )
}

pub open spec fn bind_flagged(s: Seq<(ExprModel, bool)>, cols: Seq<ColumnModel>) -> Seq<
    (ExprModel, bool),
>
    decreases s,
{
    Seq::new(
        s.len(),
        |i: int|
            if 0 <= i < s.len() {
                (bind_expr(s[i].0, cols), s[i].1)
            } else {
                arbitrary()
            },
    )
}

fn bind_columns(e: &LogicalExpr, schema: &Schema) -> (r: LogicalExpr)
    ensures
        r@ == bind_expr(e@, schema@),
    decreases e,
{
    match e {
        LogicalExpr::Column { table, name } => {
            match schema.get_qualified_column_index(schema::as_str(table), name.as_str()) {
                Some(index) => LogicalExpr::BoundColumn {
                    index,
                    table: table.clone(),
                    name: name.clone(),
                },
                None => e.clone(),
            }
        },
        LogicalExpr::BinaryExpr { left, op, right } => LogicalExpr::BinaryExpr {
            left: Box::new(bind_columns(left, schema)),
            op: *op,
            right: Box::new(bind_columns(right, schema)),
        },
        LogicalExpr::UnaryExpr { op, expr } => LogicalExpr::UnaryExpr {
            op: *op,
            expr: Box::new(bind_columns(expr, schema)),
        },
        LogicalExpr::Cast { expr, data_type } => LogicalExpr::Cast {
            expr: Box::new(bind_columns(expr, schema)),
            data_type: data_type.clone(),
        },
        LogicalExpr::IsNull { expr, is_null } => LogicalExpr::IsNull {
            expr: Box::new(bind_columns(expr, schema)),
            is_null: *is_null,
        },
        LogicalExpr::Between { expr, low, high, negated } => LogicalExpr::Between {
            expr: Box::new(bind_columns(expr, schema)),
            low: Box::new(bind_columns(low, schema)),
            high: Box::new(bind_columns(high, schema)),
            negated: *negated,
        },
        LogicalExpr::InList { expr, list, negated } => LogicalExpr::InList {
            expr: Box::new(bind_columns(expr, schema)),
            list: bind_all(list, schema),
            negated: *negated,
        },
        LogicalExpr::InSet { expr, values, negated } => LogicalExpr::InSet {
            expr: Box::new(bind_columns(expr, schema)),
            values: value::clone_values(values),
            negated: *negated,
        },
        LogicalExpr::InSubquery { expr, subquery, negated } => LogicalExpr::InSubquery {
            expr: Box::new(bind_columns(expr, schema)),
            subquery: Box::new(logical_plan::clone_plan(subquery)),
            negated: *negated,
        },
        LogicalExpr::Case { expr, when_then, else_result } => LogicalExpr::Case {
            expr: match expr { Some(b) => Some(Box::new(bind_columns(b, schema))), None => None },
            when_then: bind_all_pairs(when_then, schema),
            else_result: match else_result { Some(b) => Some(Box::new(bind_columns(b, schema))), None => None },
        },
        LogicalExpr::ScalarFunction { fun, args } => LogicalExpr::ScalarFunction {
            fun: fun.clone(),
            args: bind_all(args, schema),
        },
        LogicalExpr::AggregateFunction { fun, args, distinct } => LogicalExpr::AggregateFunction {
            fun: *fun,
            args: bind_all(args, schema),
            distinct: *distinct,
        },
        LogicalExpr::WindowFunction { fun, args, partition_by, order_by } => LogicalExpr::WindowFunction {
            fun: fun.clone(),
            args: bind_all(args, schema),
            partition_by: bind_all(partition_by, schema),
            order_by: bind_all_flagged(order_by, schema),
        },
        LogicalExpr::Tuple { items } => LogicalExpr::Tuple {
            items: bind_all(items, schema),
        },
        LogicalExpr::ArraySubscript { array, index } => LogicalExpr::ArraySubscript {
            array: Box::new(bind_columns(array, schema)),
            index: Box::new(bind_columns(index, schema)),
        },
        _ => e.clone(),
    }
}

fn bind_all(v: &Vec<LogicalExpr>, schema: &Schema) -> (r: Vec<LogicalExpr>)
    ensures
        logical_plan::exprs_model(r@) == bind_exprs(logical_plan::exprs_model(v@), schema@),
    decreases v,
{
    let mut out: Vec<LogicalExpr> = Vec::new();
    for i in 0..v.len()
        invariant
            out.len() == i,
            forall|j: int| 0 <= j < i ==> (#[trigger] out@[j])@ == bind_expr(v@[j]@, schema@),
    {
        out.push(bind_columns(&v[i], schema));
    }
    assert(logical_plan::exprs_model(out@) =~= bind_exprs(
        logical_plan::exprs_model(v@),
        schema@,
    ));
    out
}

fn bind_all_pairs(v: &Vec<(LogicalExpr, LogicalExpr)>, schema: &Schema) -> (r: Vec<
    (LogicalExpr, LogicalExpr),
>)
    ensures
        logical_plan::pairs_model(r@) == bind_pairs(logical_plan::pairs_model(v@), schema@),
    decreases v,
{
    let mut out: Vec<(LogicalExpr, LogicalExpr)> = Vec::new();
    for i in 0..v.len()
        invariant
            out.len() == i,
            forall|j: int|
                0 <= j < i ==> (#[trigger] out@[j]).0@ == bind_expr(v@[j].0@, schema@)
                    && out@[j].1@ == bind_expr(v@[j].1@, schema@),
    {
        out.push((bind_columns(&v[i].0, schema), bind_columns(&v[i].1, schema)));
    }
    assert(logical_plan::pairs_model(out@) =~= bind_pairs(
        logical_plan::pairs_model(v@),
        schema@,
    ));
    out
}

fn bind_all_flagged(v: &Vec<(LogicalExpr, bool)>, schema: &Schema) -> (r: Vec<(LogicalExpr, bool)>)
    ensures
        logical_plan::flagged_model(r@) == bind_flagged(logical_plan::flagged_model(v@), schema@),
    decreases v,
{
    let mut out: Vec<(LogicalExpr, bool)> = Vec::new();
    for i in 0..v.len()
        invariant
            out.len() == i,
            forall|j: int|
                0 <= j < i ==> (#[trigger] out@[j]).0@ == bind_expr(v@[j].0@, schema@) && out@[j].1
                    == v@[j].1,
    {
        out.push((bind_columns(&v[i].0, schema), v[i].1));
    }
    assert(logical_plan::flagged_model(out@) =~= bind_flagged(
        logical_plan::flagged_model(v@),
        schema@,
    ));
    out
}

proof fn lemma_bound_list_evaluates_alike(
    list: Seq<ExprModel>,
    cols: Seq<ColumnModel>,
    params: Seq<ValueModel>,
    row: Seq<ValueModel>,
)
    ensures
        eval_all(bind_exprs(list, cols), cols, params, row) == eval_all(list, cols, params, row),
    decreases list,
{
    if list.len() != 0 {
        let bound = bind_exprs(list, cols);
        assert(bound.drop_last() =~= bind_exprs(list.drop_last(), cols));
        assert(bound.last() == bind_expr(list.last(), cols));
        lemma_bound_list_evaluates_alike(list.drop_last(), cols, params, row);
        law_binding_keeps_the_meaning(list.last(), cols, params, row);
    }
}

proof fn lemma_bound_branches(
    subject: Option<ValueModel>,
    branches: Seq<(ExprModel, ExprModel)>,
    cols: Seq<ColumnModel>,
    params: Seq<ValueModel>,
    row: Seq<ValueModel>,
)
    ensures
        first_branch(subject, bind_pairs(branches, cols), cols, params, row) == first_branch(
            subject,
            branches,
            cols,
            params,
            row,
        ),
    decreases branches,
{
    if branches.len() != 0 {
        let bound = bind_pairs(branches, cols);
        assert(bound[0] == (bind_expr(branches[0].0, cols), bind_expr(branches[0].1, cols)));
        assert(bound.drop_first() =~= bind_pairs(branches.drop_first(), cols));
        law_binding_keeps_the_meaning(branches[0].0, cols, params, row);
        law_binding_keeps_the_meaning(branches[0].1, cols, params, row);
        lemma_bound_branches(subject, branches.drop_first(), cols, params, row);
    }
}

/// Resolving column names to positions first does not change what an
/// expression gives on any row.
pub proof fn law_binding_keeps_the_meaning(
    e: ExprModel,
    cols: Seq<ColumnModel>,
    params: Seq<ValueModel>,
    row: Seq<ValueModel>,
)
    ensures
        eval(bind_expr(e, cols), cols, params, row) == eval(e, cols, params, row),
    decreases e,
{
    match e {
        ExprModel::BinaryExpr { left, op, right } => {
            law_binding_keeps_the_meaning(*left, cols, params, row);
            law_binding_keeps_the_meaning(*right, cols, params, row);
        },
        ExprModel::UnaryExpr { op, expr } => {
            law_binding_keeps_the_meaning(*expr, cols, params, row);
        },
        ExprModel::IsNull { expr, is_null } => {
            law_binding_keeps_the_meaning(*expr, cols, params, row);
        },
        ExprModel::Between { expr, low, high, negated } => {
            law_binding_keeps_the_meaning(*expr, cols, params, row);
            law_binding_keeps_the_meaning(*low, cols, params, row);
            law_binding_keeps_the_meaning(*high, cols, params, row);
        },
        ExprModel::InList { expr, list, negated } => {
            law_binding_keeps_the_meaning(*expr, cols, params, row);
            lemma_bound_list_evaluates_alike(list, cols, params, row);
        },
        ExprModel::InSet { expr, values, negated } => {
            law_binding_keeps_the_meaning(*expr, cols, params, row);
        },
        ExprModel::Case { expr, when_then, else_result } => {
            if let Some(x) = expr {
                law_binding_keeps_the_meaning(*x, cols, params, row);
                if let Ok(v) = eval(*x, cols, params, row) {
                    lemma_bound_branches(Some(v), when_then, cols, params, row);
                }
            } else {
                lemma_bound_branches(None, when_then, cols, params, row);
            }
            if let Some(x) = else_result {
                law_binding_keeps_the_meaning(*x, cols, params, row);
            }
        },
        ExprModel::ArraySubscript { array, index } => {
            law_binding_keeps_the_meaning(*array, cols, params, row);
            law_binding_keeps_the_meaning(*index, cols, params, row);
        },
        _ => {},
    }
}

/// Evaluates expressions against rows of one schema, with the statement's bind
/// parameters.
pub struct Evaluator {
    schema: Arc<Schema>,
    parameters: Vec<Value>,
}

impl Evaluator {
    /// The columns that names resolve against.
    pub closed spec fn columns(&self) -> Seq<ColumnModel> {
        self.schema@
    }

    /// The bind parameters.
    pub closed spec fn params(&self) -> Seq<ValueModel> {
        value::values_model(self.parameters@)
    }

    pub fn new(schema: Arc<Schema>) -> (r: Evaluator)
        ensures
            r.columns() == schema@,
            r.params() == Seq::<ValueModel>::empty(),
    {
        let parameters: Vec<Value> = Vec::new();
        assert(value::values_model(parameters@) =~= Seq::<ValueModel>::empty());
        Evaluator { schema, parameters }
    }

    pub fn with_parameters(schema: Arc<Schema>, parameters: Vec<Value>) -> (r: Evaluator)
        ensures
            r.columns() == schema@,
            r.params() == value::values_model(parameters@),
    {
        Evaluator { schema, parameters }
    }

    /// Replaces column names by positions.
    pub fn bind(&self, expr: LogicalExpr) -> (r: LogicalExpr)
        ensures
            r@ == bind_expr(expr@, self.columns()),
    {
        bind_columns(&expr, &self.schema)
    }

    /// Evaluates an expression on a row.
    pub fn evaluate(&self, expr: &LogicalExpr, tuple: &Tuple) -> (r: Result<Value, Error>)
        ensures
            result_model(r) == eval(expr@, self.columns(), self.params(), tuple@.values),
        decreases expr,
    {
        match expr {
            LogicalExpr::Literal(v) => Ok(v.clone()),
            LogicalExpr::Column { table, name } => {
                match self.schema.get_qualified_column_index(schema::as_str(table), name.as_str()) {
                    Some(i) => match tuple.get(i) {
                        Some(v) => Ok(v.clone()),
                        None => Err(out_of_bounds_error(i)),
                    },
                    None => Err(column_missing_error(table, name)),
                }
            },
            LogicalExpr::BoundColumn { index, .. } => match tuple.get(*index) {
                Some(v) => Ok(v.clone()),
                None => Err(out_of_bounds_error(*index)),
            },
            LogicalExpr::Parameter { index } => {
                if 0 < *index && *index <= self.parameters.len() {
                    Ok(self.parameters[*index - 1].clone())
                } else {
                    Err(parameter_missing_error(*index))
                }
            },
            LogicalExpr::BinaryExpr { left, op, right } => {
                let a: Value = match self.evaluate(left, tuple) {
                    Ok(v) => v,
                    Err(e) => {
                        return Err(e);
                    },
                };
                match op {
                    BinaryOperator::And => {
                        if let Value::Boolean(false) = a {
                            return Ok(Value::Boolean(false));
                        }
                        if !is_truth_value(&a) {
                            return Err(not_boolean_error(&a));
                        }
                        and_values(&a, self.evaluate(right, tuple))
                    },
                    BinaryOperator::Or => {
                        if let Value::Boolean(true) = a {
                            return Ok(Value::Boolean(true));
                        }
                        if !is_truth_value(&a) {
                            return Err(not_boolean_error(&a));
                        }
                        or_values(&a, self.evaluate(right, tuple))
                    },
                    _ => {
                        let b: Value = match self.evaluate(right, tuple) {
                            Ok(v) => v,
                            Err(e) => {
                                return Err(e);
                            },
                        };
                        self.evaluate_binary_op(&a, op, &b)
                    },
                }
            },
            LogicalExpr::UnaryExpr { op, expr: inner } => {
                match self.evaluate(inner, tuple) {
                    Ok(v) => self.evaluate_unary_op(op, &v),
                    Err(e) => Err(e),
                }
            },
            LogicalExpr::IsNull { expr: inner, is_null } => {
                match self.evaluate(inner, tuple) {
                    Ok(v) => Ok(Value::Boolean(matches!(v, Value::Null) == *is_null)),
                    Err(e) => Err(e),
                }
            },
            LogicalExpr::Between { expr: inner, low, high, negated } => {
                let v: Value = match self.evaluate(inner, tuple) {
                    Ok(v) => v,
                    Err(e) => {
                        return Err(e);
                    },
                };
                let lo: Value = match self.evaluate(low, tuple) {
                    Ok(v) => v,
                    Err(e) => {
                        return Err(e);
                    },
                };
                let hi: Value = match self.evaluate(high, tuple) {
                    Ok(v) => v,
                    Err(e) => {
                        return Err(e);
                    },
                };
                let a: Value = match self.evaluate_binary_op(&v, &BinaryOperator::GtEq, &lo) {
                    Ok(v) => v,
                    Err(e) => {
                        return Err(e);
                    },
                };
                match and_values(&a, self.evaluate_binary_op(&v, &BinaryOperator::LtEq, &hi)) {
                    Ok(b) => Ok(negated_value(*negated, b)),
                    Err(e) => Err(e),
                }
            },
            LogicalExpr::InList { expr: inner, list, negated } => {
                let v: Value = match self.evaluate(inner, tuple) {
                    Ok(v) => v,
                    Err(e) => {
                        return Err(e);
                    },
                };
                let items: Vec<Value> = match self.evaluate_all(list, tuple) {
                    Ok(vs) => vs,
                    Err(e) => {
                        return Err(e);
                    },
                };
                match self.find_member(&v, &items) {
                    Ok(b) => Ok(negated_value(*negated, b)),
                    Err(e) => Err(e),
                }
            },
            LogicalExpr::InSet { expr: inner, values, negated } => {
                let v: Value = match self.evaluate(inner, tuple) {
                    Ok(v) => v,
                    Err(e) => {
                        return Err(e);
                    },
                };
                match self.find_member(&v, values) {
                    Ok(b) => Ok(negated_value(*negated, b)),
                    Err(e) => Err(e),
                }
            },
            LogicalExpr::Case { expr: subject, when_then, else_result } => {
                let given: Option<Value> = match subject {
                    None => None,
                    Some(x) => match self.evaluate(x, tuple) {
                        Ok(v) => Some(v),
                        Err(e) => {
                            return Err(e);
                        },
                    },
                };
                match self.evaluate_branches(&given, when_then, tuple) {
                    Err(e) => Err(e),
                    Ok(Some(v)) => Ok(v),
                    Ok(None) => match else_result {
                        Some(x) => self.evaluate(x, tuple),
                        None => Ok(Value::Null),
                    },
                }
            },
            LogicalExpr::ArraySubscript { array, index } => {
                let a: Value = match self.evaluate(array, tuple) {
                    Ok(v) => v,
                    Err(e) => {
                        return Err(e);
                    },
                };
                let i: Value = match self.evaluate(index, tuple) {
                    Ok(v) => v,
                    Err(e) => {
                        return Err(e);
                    },
                };
                match find_array_item(&a, &i) {
                    Some(v) => Ok(v),
                    None => Err(unsupported_error()),
                }
            },
            _ => Err(unsupported_error()),
        }
    }

    /// Whether a branch of `CASE` is taken.
    fn takes_branch(&self, subject: &Option<Value>, w: &Value) -> (r: Result<bool, Error>)
        ensures
            match r {
                Ok(b) => branch_holds(value::opt_value_model(*subject), w@) == Ok::<
                    bool,
                    ErrorModel,
                >(b),
                Err(e) => branch_holds(value::opt_value_model(*subject), w@) == Err::<
                    bool,
                    ErrorModel,
                >(e@),
            },
    {
        match subject {
            None => match w {
                Value::Boolean(b) => Ok(*b),
                Value::Null => Ok(false),
                _ => Err(not_boolean_error(w)),
            },
            Some(x) => match self.evaluate_binary_op(x, &BinaryOperator::Eq, w) {
                Ok(v) => Ok(matches!(v, Value::Boolean(true))),
                Err(e) => Err(e),
            },
        }
    }

    /// Evaluates the branches of `CASE` up to the one that is taken.
    #[verifier::rlimit(30)]
    fn evaluate_branches(
        &self,
        subject: &Option<Value>,
        branches: &Vec<(LogicalExpr, LogicalExpr)>,
        tuple: &Tuple,
    ) -> (r: Result<Option<Value>, Error>)
        ensures
            ({
                let expected = first_branch(
                    value::opt_value_model(*subject),
                    logical_plan::pairs_model(branches@),
                    self.columns(),
                    self.params(),
                    tuple@.values,
                );
                match r {
                    Ok(v) => expected == Ok::<Option<ValueModel>, ErrorModel>(
                        value::opt_value_model(v),
                    ),
                    Err(e) => expected == Err::<Option<ValueModel>, ErrorModel>(e@),
                }
            }),
        decreases branches,
    {
        let ghost all = logical_plan::pairs_model(branches@);
        let ghost given = value::opt_value_model(*subject);
        proof {
            logical_plan::lemma_pairs_model(branches@);
        }
        assert(all.skip(0) =~= all);
        for i in 0..branches.len()
            invariant
                all == logical_plan::pairs_model(branches@),
                all.len() == branches.len(),
                forall|j: int|
                    0 <= j < branches.len() ==> #[trigger] all[j] == (
                        branches@[j].0@,
                        branches@[j].1@,
                    ),
                given == value::opt_value_model(*subject),
                first_branch(given, all.skip(i as int), self.columns(), self.params(), tuple@.values)
                    == first_branch(given, all, self.columns(), self.params(), tuple@.values),
        {
            let ghost rest = all.skip(i as int);
            assert(rest[0] == all[i as int]);
            assert(rest.drop_first() =~= all.skip(i + 1));
            let w: Value = match self.evaluate(&branches[i].0, tuple) {
                Ok(v) => v,
                Err(e) => {
                    return Err(e);
                },
            };
            let taken: bool = match self.takes_branch(subject, &w) {
                Ok(b) => b,
                Err(e) => {
                    return Err(e);
                },
            };
            if taken {
                return match self.evaluate(&branches[i].1, tuple) {
                    Ok(v) => Ok(Some(v)),
                    Err(e) => Err(e),
                };
            }
        }
        Ok(None)
    }

    /// Evaluates a list of expressions on a row.
    pub fn evaluate_all(&self, list: &Vec<LogicalExpr>, tuple: &Tuple) -> (r: Result<Vec<Value>, Error>)
        ensures
            match r {
                Ok(vs) => eval_all(
                    logical_plan::exprs_model(list@),
                    self.columns(),
                    self.params(),
                    tuple@.values,
                ) == Ok::<Seq<ValueModel>, ErrorModel>(value::values_model(vs@)),
                Err(e) => eval_all(
                    logical_plan::exprs_model(list@),
                    self.columns(),
                    self.params(),
                    tuple@.values,
                ) == Err::<Seq<ValueModel>, ErrorModel>(e@),
            },
        decreases list,
    {
        let ghost all = logical_plan::exprs_model(list@);
        let mut out: Vec<Value> = Vec::new();
        proof {
            logical_plan::lemma_exprs_model(list@);
        }
        assert(all.take(0) =~= Seq::<ExprModel>::empty());
        assert(value::values_model(out@) =~= Seq::<ValueModel>::empty());
        for i in 0..list.len()
            invariant
                all == logical_plan::exprs_model(list@),
                all.len() == list.len(),
                forall|j: int| 0 <= j < list.len() ==> #[trigger] all[j] == list@[j]@,
                eval_all(all.take(i as int), self.columns(), self.params(), tuple@.values) == Ok::<
                    Seq<ValueModel>,
                    ErrorModel,
                >(value::values_model(out@)),
        {
            let ghost next = all.take(i + 1);
            assert(next.drop_last() =~= all.take(i as int));
            assert(next.last() == list@[i as int]@);
            match self.evaluate(&list[i], tuple) {
                Ok(v) => {
                    proof {
                        value::lemma_values_model_push(out@, v);
                    }
                    out.push(v);
                },
                Err(e) => {
                    proof {
                        lemma_eval_all_stops(
                            all,
                            self.columns(),
                            self.params(),
                            tuple@.values,
                            i + 1,
                            e@,
                        );
                    }
                    return Err(e);
                },
            }
        }
        assert(all.take(list.len() as int) =~= all);
        Ok(out)
    }

    fn find_member(&self, v: &Value, items: &Vec<Value>) -> (r: Result<Value, Error>)
        ensures
            result_model(r) == membership(v@, value::values_model(items@), 0, false),
    {
        let ghost all = value::values_model(items@);
        let mut i: usize = 0;
        let mut open: bool = false;
        proof {
            value::lemma_values_model(items@);
        }
        while i < items.len()
            invariant
                all == value::values_model(items@),
                all.len() == items.len(),
                forall|j: int| 0 <= j < items.len() ==> #[trigger] all[j] == items@[j]@,
                i <= items.len(),
                membership(v@, all, i as int, open) == membership(v@, all, 0, false),
            decreases items.len() - i,
        {
            assert(all[i as int] == items@[i as int]@);
            match self.evaluate_binary_op(v, &BinaryOperator::Eq, &items[i]) {
                Err(e) => {
                    return Err(e);
                },
                Ok(Value::Boolean(true)) => {
                    return Ok(Value::Boolean(true));
                },
                Ok(Value::Null) => {
                    open = true;
                },
                Ok(_) => {},
            }
            i = i + 1;
        }
        if open {
            Ok(Value::Null)
        } else {
            Ok(Value::Boolean(false))
        }
    }

    /// Applies a binary operator other than `AND` and `OR` to two values.
    pub fn evaluate_binary_op(&self, left: &Value, op: &BinaryOperator, right: &Value) -> (r: Result<
        Value,
        Error,
    >)
        ensures
            result_model(r) == binary_value(left@, *op, right@),
    {
        match op {
            BinaryOperator::Eq
            | BinaryOperator::NotEq
            | BinaryOperator::Lt
            | BinaryOperator::LtEq
            | BinaryOperator::Gt
            | BinaryOperator::GtEq => {},
            _ => {
                return compute_value(left, *op, right);
            },
        }
        if matches!(left, Value::Null) || matches!(right, Value::Null) {
            return Ok(Value::Null);
        }
        match compare::compare_direct_values(left, right) {
            Some(o) => Ok(
                Value::Boolean(
                    match op {
                        BinaryOperator::Eq => matches!(o, Order::Equal),
                        BinaryOperator::NotEq => !matches!(o, Order::Equal),
                        BinaryOperator::Lt => matches!(o, Order::Less),
                        BinaryOperator::LtEq => !matches!(o, Order::Greater),
                        BinaryOperator::Gt => matches!(o, Order::Greater),
                        _ => !matches!(o, Order::Less),
                    },
                ),
            ),
            None => Err(incomparable_error(left, right)),
        }
    }

    /// Applies a unary operator to a value.
    pub fn evaluate_unary_op(&self, op: &UnaryOperator, v: &Value) -> (r: Result<Value, Error>)
        ensures
            result_model(r) == unary_value(*op, v@),
    {
        match op {
            UnaryOperator::Not => match v {
                Value::Boolean(b) => Ok(Value::Boolean(!*b)),
                Value::Null => Ok(Value::Null),
                _ => Err(not_boolean_error(v)),
            },
            UnaryOperator::Minus => match operators::negate(v) {
                Some(r) => r,
                None => Err(unsupported_error()),
            },
            UnaryOperator::Plus => if operators::number_or_null(v) {
                Ok(v.clone())
            } else {
                Err(unsupported_error())
            },
        }
    }
}

fn compute_value(a: &Value, op: BinaryOperator, b: &Value) -> (r: Result<Value, Error>)
    requires
        !is_comparison(op),
    ensures
        result_model(r) == computed_value(a@, op, b@),
{
    match op {
        BinaryOperator::Plus
        | BinaryOperator::Minus
        | BinaryOperator::Multiply
        | BinaryOperator::Divide
        | BinaryOperator::Modulo => match operators::apply_arithmetic(a, op, b) {
            Some(r) => r,
            None => Err(unsupported_error()),
        },
        _ => {
            let given: Option<Value> = match op {
                BinaryOperator::Concat => operators::concatenate(a, b),
                BinaryOperator::Like => operators::match_pattern(a, b, false),
                BinaryOperator::NotLike => operators::match_pattern(a, b, true),
                _ => None,
            };
            match given {
                Some(v) => Ok(v),
                None => Err(unsupported_error()),
            }
        },
    }
}

fn find_array_item(a: &Value, i: &Value) -> (r: Option<Value>)
    ensures
        value::opt_value_model(r) == array_item(a@, i@),
{
    match a {
        Value::Null => Some(Value::Null),
        Value::Array(items) => {
            proof {
                value::lemma_values_model(items@);
            }
            match compare::value_int(i) {
                Some(n) => if 1 <= n && n as u64 <= items.len() as u64 {
                    let at: usize = (n - 1) as usize;
                    assert(value::values_model(items@)[at as int] == items@[at as int]@);
                    Some(items[at].clone())
                } else {
                    Some(Value::Null)
                },
                None => if matches!(i, Value::Null) {
                    Some(Value::Null)
                } else {
                    None
                },
            }
        },
        _ => None,
    }
}

proof fn lemma_eval_all_stops(
    all: Seq<ExprModel>,
    cols: Seq<ColumnModel>,
    params: Seq<ValueModel>,
    row: Seq<ValueModel>,
    n: int,
    e: ErrorModel,
)
    requires
        0 <= n <= all.len(),
        eval_all(all.take(n), cols, params, row) == Err::<Seq<ValueModel>, ErrorModel>(e),
    ensures
        eval_all(all, cols, params, row) == Err::<Seq<ValueModel>, ErrorModel>(e),
    decreases all.len(),
{
    if n == all.len() {
        assert(all.take(n) =~= all);
    } else {
        assert(all.drop_last().take(n) =~= all.take(n));
        lemma_eval_all_stops(all.drop_last(), cols, params, row, n, e);
    }
}

/// What an evaluation result stands for.
pub open spec fn result_model(r: Result<Value, Error>) -> Result<ValueModel, ErrorModel> {
    match r {
        Ok(v) => Ok(v@),
        Err(e) => Err(e@),
    }
}

/// The values that `AND`, `OR` and `NOT` work on.
pub fn is_truth_value(v: &Value) -> (r: bool)
    ensures
        r == (v@ is Boolean || v@ is Null),
{
    match v {
        Value::Boolean(_) => true,
        Value::Null => true,
        _ => false,
    }
}

/// `AND` of a truth value and what the other operand gave.
pub fn and_values(a: &Value, b: Result<Value, Error>) -> (r: Result<Value, Error>)
    ensures
        result_model(r) == and_value(a@, result_model(b)),
{
    match a {
        Value::Boolean(false) => Ok(Value::Boolean(false)),
        Value::Boolean(true) => match b {
            Ok(Value::Boolean(y)) => Ok(Value::Boolean(y)),
            Ok(Value::Null) => Ok(Value::Null),
            Ok(v) => Err(not_boolean_error(&v)),
            Err(e) => Err(e),
        },
        Value::Null => match b {
            Ok(Value::Boolean(false)) => Ok(Value::Boolean(false)),
            Ok(Value::Boolean(true)) => Ok(Value::Null),
            Ok(Value::Null) => Ok(Value::Null),
            Ok(v) => Err(not_boolean_error(&v)),
            Err(e) => Err(e),
        },
        _ => Err(not_boolean_error(a)),
    }
}

/// `OR` of a truth value and what the other operand gave.
pub fn or_values(a: &Value, b: Result<Value, Error>) -> (r: Result<Value, Error>)
    ensures
        result_model(r) == or_value(a@, result_model(b)),
{
    match a {
        Value::Boolean(true) => Ok(Value::Boolean(true)),
        Value::Boolean(false) => match b {
            Ok(Value::Boolean(y)) => Ok(Value::Boolean(y)),
            Ok(Value::Null) => Ok(Value::Null),
            Ok(v) => Err(not_boolean_error(&v)),
            Err(e) => Err(e),
        },
        Value::Null => match b {
            Ok(Value::Boolean(true)) => Ok(Value::Boolean(true)),
            Ok(Value::Boolean(false)) => Ok(Value::Null),
            Ok(Value::Null) => Ok(Value::Null),
            Ok(v) => Err(not_boolean_error(&v)),
            Err(e) => Err(e),
        },
        _ => Err(not_boolean_error(a)),
    }
}

fn negated_value(negated: bool, v: Value) -> (r: Value)
    ensures
        r@ == negate_if(negated, v@),
{
    match v {
        Value::Boolean(b) => Value::Boolean(b != negated),
        _ => v,
    }
}

} // verus!
