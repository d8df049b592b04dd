//! Correlated subqueries: which columns of a subquery belong to the query
//! around it, and how they are replaced by the values of one outer row.

use crate::logical_plan;
use crate::logical_plan::{ExprModel, LogicalExpr, LogicalPlan, PlanModel};
use crate::schema;
use crate::schema::{ColumnModel, Schema, Tuple};
use crate::value::ValueModel;
use std::sync::Arc;
use vstd::prelude::*;

verus! {

/// How much there is to do for an expression: its parts, with the subqueries
/// in it.
pub open spec fn expr_size(e: ExprModel) -> nat
    decreases e, 0nat,
{
    match e {
        ExprModel::BinaryExpr { left, op, right } => 1 + expr_size(*left) + expr_size(*right),
        ExprModel::UnaryExpr { op, expr } => 1 + expr_size(*expr),
        ExprModel::IsNull { expr, is_null } => 1 + expr_size(*expr),
        ExprModel::Between { expr, low, high, negated } => 1 + expr_size(*expr) + expr_size(*low)
            + expr_size(*high),
        ExprModel::InList { expr, list, negated } => 1 + expr_size(*expr) + exprs_size(
            list,
            list.len(),
        ),
        ExprModel::Case { expr, when_then, else_result } => 1 + (match expr {
            Some(b) => expr_size(*b),
            None => 0nat,
        }) + pairs_size(when_then, when_then.len()) + (match else_result {
            Some(b) => expr_size(*b),
            None => 0nat,
        }),
        ExprModel::InSubquery { expr, subquery, negated } => 1 + expr_size(*expr) + plan_size(
            *subquery,
        ),
        ExprModel::ScalarSubquery { subquery } => 1 + plan_size(*subquery),
        ExprModel::Exists { subquery, negated } => 1 + plan_size(*subquery),
        _ => 1,
    }
}

/// The size of the first `n` expressions of a list.
pub open spec fn exprs_size(s: Seq<ExprModel>, n: nat) -> nat
    decreases s, n,
{
    if n == 0 || n > s.len() {
        0
    } else {
        exprs_size(s, (n - 1) as nat) + expr_size(s[n - 1])
    }
}

/// The size of the first `n` pairs of a list.
pub open spec fn pairs_size(s: Seq<(ExprModel, ExprModel)>, n: nat) -> nat
    decreases s, n,
{
    if n == 0 || n > s.len() {
        0
    } else {
        pairs_size(s, (n - 1) as nat) + expr_size(s[n - 1].0) + expr_size(s[n - 1].1)
    }
}

/// The size of the first `n` common table expressions of a list.
pub open spec fn ctes_size(
    s: Seq<(Seq<char>, Box<PlanModel>, Option<Seq<Seq<char>>>)>,
    n: nat,
) -> nat
    decreases s, n,
{
    if n == 0 || n > s.len() {
        0
    } else {
        ctes_size(s, (n - 1) as nat) + plan_size(*s[n - 1].1)
    }
}

/// How much there is to do for a plan: its nodes, with their expressions.
pub open spec fn plan_size(p: PlanModel) -> nat
    decreases p, 0nat,
{
    match p {
        PlanModel::FilteredScan { table_name, alias, schema, projection, predicate, as_of } => 2
            + match predicate {
            Some(e) => expr_size(e),
            None => 0nat,
        },
        PlanModel::Filter { input, predicate } => 2 + plan_size(*input) + expr_size(predicate),
        PlanModel::Project { input, exprs, aliases, distinct, distinct_on, source_alias } => 2
            + plan_size(*input) + exprs_size(exprs, exprs.len()),
        PlanModel::Limit { input, limit, offset, limit_param, offset_param } => 2 + plan_size(
            *input,
        ),
        PlanModel::Sort { input, exprs, asc } => 2 + plan_size(*input),
        PlanModel::Aggregate { input, group_by, aggr_exprs, having } => 2 + plan_size(*input)
            + match having {
            Some(e) => expr_size(e),
            None => 0nat,
        },
        PlanModel::Join { left, right, join_type, on, lateral } => 2 + plan_size(*left) + plan_size(
            *right,
        ) + match on {
            Some(e) => expr_size(e),
            None => 0nat,
        },
        PlanModel::Union { left, right, all } => 2 + plan_size(*left) + plan_size(*right),
        PlanModel::Intersect { left, right, all } => 2 + plan_size(*left) + plan_size(*right),
        PlanModel::Except { left, right, all } => 2 + plan_size(*left) + plan_size(*right),
        PlanModel::With { ctes, query, recursive } => 2 + ctes_size(ctes, ctes.len()) + plan_size(
            *query,
        ),
        PlanModel::Explain { input, options } => 2 + plan_size(*input),
        _ => 2,
    }
}

pub proof fn lemma_size_is_positive(e: ExprModel)
    ensures
        expr_size(e) >= 1,
{
}

pub proof fn lemma_expr_in_list(s: Seq<ExprModel>, i: int, n: nat)
    requires
        0 <= i < n <= s.len(),
    ensures
        expr_size(s[i]) <= exprs_size(s, n),
    decreases n,
{
    if i < n - 1 {
        lemma_expr_in_list(s, i, (n - 1) as nat);
    }
}

pub proof fn lemma_pair_in_list(s: Seq<(ExprModel, ExprModel)>, i: int, n: nat)
    requires
        0 <= i < n <= s.len(),
    ensures
        expr_size(s[i].0) + expr_size(s[i].1) <= pairs_size(s, n),
    decreases n,
{
    if i < n - 1 {
        lemma_pair_in_list(s, i, (n - 1) as nat);
    }
}

pub proof fn lemma_cte_in_list(
    s: Seq<(Seq<char>, Box<PlanModel>, Option<Seq<Seq<char>>>)>,
    i: int,
    n: nat,
)
    requires
        0 <= i < n <= s.len(),
    ensures
        plan_size(*s[i].1) <= ctes_size(s, n),
    decreases n,
{
    if i < n - 1 {
        lemma_cte_in_list(s, i, (n - 1) as nat);
    }
}

/// The columns of the table or the rows that a single-table subquery reads.
pub open spec fn base_columns(p: PlanModel) -> Option<Seq<ColumnModel>>
    decreases p,
{
    match p {
        PlanModel::Scan { table_name, alias, schema, projection, as_of } => Some(schema),
        PlanModel::FilteredScan { table_name, alias, schema, projection, predicate, as_of } => Some(
            schema,
        ),
        PlanModel::Rows { schema, rows } => Some(schema),
        PlanModel::Filter { input, predicate } => base_columns(*input),
        PlanModel::Project { input, exprs, aliases, distinct, distinct_on, source_alias } =>
            base_columns(*input),
        PlanModel::Aggregate { input, group_by, aggr_exprs, having } => base_columns(*input),
        PlanModel::Sort { input, exprs, asc } => base_columns(*input),
        PlanModel::Limit { input, limit, offset, limit_param, offset_param } => base_columns(
            *input,
        ),
        _ => None,
    }
}

pub open spec fn opt_schema(s: Option<Arc<Schema>>) -> Option<Seq<ColumnModel>> {
    match s {
        Some(x) => Some(x@),
        None => None,
    }
}

/// The schema of the table or the rows that a single-table subquery reads.
pub fn base_scan_schema(plan: &LogicalPlan) -> (r: Option<Arc<Schema>>)
    ensures
        opt_schema(r) == base_columns(plan@),
    decreases plan,
{
    match plan {
        LogicalPlan::Scan { schema, .. } => Some(schema.clone()),
        LogicalPlan::FilteredScan { schema, .. } => Some(schema.clone()),
        LogicalPlan::Rows { schema, .. } => Some(schema.clone()),
        LogicalPlan::Filter { input, .. } => base_scan_schema(input),
        LogicalPlan::Project { input, .. } => base_scan_schema(input),
        LogicalPlan::Aggregate { input, .. } => base_scan_schema(input),
        LogicalPlan::Sort { input, .. } => base_scan_schema(input),
        LogicalPlan::Limit { input, .. } => base_scan_schema(input),
        _ => None,
    }
}

/// Whether the subquery's own table has a column.
pub open spec fn is_inner(
    table: Option<Seq<char>>,
    name: Seq<char>,
    inner: Option<Seq<ColumnModel>>,
) -> bool {
    match inner {
        Some(cols) => schema::qualified_index(cols, table, name) is Some,
        None => false,
    }
}

/// Whether a column belongs to the query around a subquery: the subquery's own
/// table does not have it, and the outer row does.
pub open spec fn is_free(
    table: Option<Seq<char>>,
    name: Seq<char>,
    inner: Option<Seq<ColumnModel>>,
    outer: Seq<ColumnModel>,
) -> bool {
    !is_inner(table, name, inner) && schema::qualified_index(outer, table, name) is Some
}

fn is_inner_column(table: &Option<String>, name: &str, inner: &Option<Arc<Schema>>) -> (r: bool)
    ensures
        r == is_inner(schema::opt_text(*table), name@, opt_schema(*inner)),
{
    match inner {
        Some(s) => s.get_qualified_column_index(schema::as_str(table), name).is_some(),
        None => false,
    }
}

/// Whether a column belongs to the query around a subquery.
pub fn col_is_free_outer(
    table: &Option<String>,
    name: &str,
    inner: &Option<Arc<Schema>>,
    outer: &Schema,
) -> (r: bool)
    ensures
        r == is_free(schema::opt_text(*table), name@, opt_schema(*inner), outer@),
{
    !is_inner_column(table, name, inner) && outer.get_qualified_column_index(
        schema::as_str(table),
        name,
    ).is_some()
}

/// Whether an expression of a subquery refers to the query around it.
pub open spec fn refers_out(
    e: ExprModel,
    inner: Option<Seq<ColumnModel>>,
    outer: Seq<ColumnModel>,
) -> bool
    decreases e, 0nat,
{
    match e {
        ExprModel::Column { table, name } => is_free(table, name, inner, outer),
        ExprModel::BinaryExpr { left, op, right } => refers_out(*left, inner, outer) || refers_out(
            *right,
            inner,
            outer,
        ),
        ExprModel::UnaryExpr { op, expr } => refers_out(*expr, inner, outer),
        ExprModel::IsNull { expr, is_null } => refers_out(*expr, inner, outer),
        ExprModel::Between { expr, low, high, negated } => refers_out(*expr, inner, outer)
            || refers_out(*low, inner, outer) || refers_out(*high, inner, outer),
        ExprModel::InList { expr, list, negated } => refers_out(*expr, inner, outer)
            || any_refers_out(list, list.len(), inner, outer),
        ExprModel::Case { expr, when_then, else_result } => (match expr {
            Some(b) => refers_out(*b, inner, outer),
            None => false,
        }) || any_branch_refers_out(when_then, when_then.len(), inner, outer) || (match else_result {
            Some(b) => refers_out(*b, inner, outer),
            None => false,
        }),
        _ => false,
    }
}

pub open spec fn any_refers_out(
    s: Seq<ExprModel>,
    n: nat,
    inner: Option<Seq<ColumnModel>>,
    outer: Seq<ColumnModel>,
) -> bool
    decreases s, n,
{
    n != 0 && n <= s.len() && (any_refers_out(s, (n - 1) as nat, inner, outer) || refers_out(
        s[n - 1],
        inner,
        outer,
    ))
}

pub open spec fn any_branch_refers_out(
    s: Seq<(ExprModel, ExprModel)>,
    n: nat,
    inner: Option<Seq<ColumnModel>>,
    outer: Seq<ColumnModel>,
) -> bool
    decreases s, n,
{
    n != 0 && n <= s.len() && (any_branch_refers_out(s, (n - 1) as nat, inner, outer)
        || refers_out(s[n - 1].0, inner, outer) || refers_out(s[n - 1].1, inner, outer))
}

/// Whether an expression of a subquery refers to the query around it.
pub fn expr_has_free_outer_ref(expr: &LogicalExpr, inner: &Option<Arc<Schema>>, outer: &Schema) -> (r:
    bool)
    ensures
        r == refers_out(expr@, opt_schema(*inner), outer@),
    decreases expr,
{
    match expr {
        LogicalExpr::Column { table, name } => col_is_free_outer(
            table,
            name.as_str(),
            inner,
            outer,
        ),
        LogicalExpr::BinaryExpr { left, op, right } => expr_has_free_outer_ref(left, inner, outer)
            || expr_has_free_outer_ref(right, inner, outer),
        LogicalExpr::UnaryExpr { op, expr: e } => expr_has_free_outer_ref(e, inner, outer),
        LogicalExpr::IsNull { expr: e, is_null } => expr_has_free_outer_ref(e, inner, outer),
        LogicalExpr::Between { expr: e, low, high, negated } => expr_has_free_outer_ref(
            e,
            inner,
            outer,
        ) || expr_has_free_outer_ref(low, inner, outer) || expr_has_free_outer_ref(
            high,
            inner,
            outer,
        ),
        LogicalExpr::InList { expr: e, list, negated } => expr_has_free_outer_ref(e, inner, outer)
            || list_has_free_outer_ref(list, inner, outer),
        LogicalExpr::Case { expr: e, when_then, else_result } => {
            let first: bool = match e {
                Some(b) => expr_has_free_outer_ref(b, inner, outer),
                None => false,
            };
            let last: bool = match else_result {
                Some(b) => expr_has_free_outer_ref(b, inner, outer),
                None => false,
            };
            first || branches_have_free_outer_ref(when_then, inner, outer) || last
        },
        _ => false,
    }
}

fn list_has_free_outer_ref(v: &Vec<LogicalExpr>, inner: &Option<Arc<Schema>>, outer: &Schema) -> (r:
    bool)
    ensures
        r == any_refers_out(
            logical_plan::exprs_model(v@),
            v@.len(),
            opt_schema(*inner),
            outer@,
        ),
    decreases v,
{
    let ghost s = logical_plan::exprs_model(v@);
    let mut any: bool = false;
    for i in 0..v.len()
        invariant
            s == logical_plan::exprs_model(v@),
            any == any_refers_out(s, i as nat, opt_schema(*inner), outer@),
    {
        let here: bool = expr_has_free_outer_ref(&v[i], inner, outer);
        assert(s[i as int] == v@[i as int]@);
        any = any || here;
    }
    any
}

fn branches_have_free_outer_ref(
    v: &Vec<(LogicalExpr, LogicalExpr)>,
    inner: &Option<Arc<Schema>>,
    outer: &Schema,
) -> (r: bool)
    ensures
        r == any_branch_refers_out(
            logical_plan::pairs_model(v@),
            v@.len(),
            opt_schema(*inner),
            outer@,
        ),
    decreases v,
{
    let ghost s = logical_plan::pairs_model(v@);
    let mut any: bool = false;
    for i in 0..v.len()
        invariant
            s == logical_plan::pairs_model(v@),
            any == any_branch_refers_out(s, i as nat, opt_schema(*inner), outer@),
    {
        let when: bool = expr_has_free_outer_ref(&v[i].0, inner, outer);
        let what: bool = expr_has_free_outer_ref(&v[i].1, inner, outer);
        assert(s[i as int] == (v@[i as int].0@, v@[i as int].1@));
        any = any || when || what;
    }
    any
}

/// Whether a subquery refers to the query around it, in a filter.
pub open spec fn plan_refers_out(p: PlanModel, outer: Seq<ColumnModel>) -> bool
    decreases p,
{
    match p {
        PlanModel::FilteredScan { table_name, alias, schema, projection, predicate, as_of } =>
            match predicate {
            Some(e) => refers_out(e, Some(schema), outer),
            None => false,
        },
        PlanModel::Filter { input, predicate } => refers_out(
            predicate,
            base_columns(*input),
            outer,
        ) || plan_refers_out(*input, outer),
        PlanModel::Project { input, exprs, aliases, distinct, distinct_on, source_alias } =>
            plan_refers_out(*input, outer),
        PlanModel::Aggregate { input, group_by, aggr_exprs, having } => plan_refers_out(
            *input,
            outer,
        ),
        PlanModel::Sort { input, exprs, asc } => plan_refers_out(*input, outer),
        PlanModel::Limit { input, limit, offset, limit_param, offset_param } => plan_refers_out(
            *input,
            outer,
        ),
        _ => false,
    }
}

/// Whether a subquery refers to the query around it, in a filter.
pub fn plan_has_free_outer_ref(plan: &LogicalPlan, outer: &Schema) -> (r: bool)
    ensures
        r == plan_refers_out(plan@, outer@),
    decreases plan,
{
    match plan {
        LogicalPlan::FilteredScan { schema, predicate, .. } => match predicate {
            Some(p) => {
                let inner: Option<Arc<Schema>> = Some(schema.clone());
                expr_has_free_outer_ref(p, &inner, outer)
            },
            None => false,
        },
        LogicalPlan::Filter { input, predicate } => {
            let inner: Option<Arc<Schema>> = base_scan_schema(input);
            expr_has_free_outer_ref(predicate, &inner, outer) || plan_has_free_outer_ref(
                input,
                outer,
            )
        },
        LogicalPlan::Project { input, .. } => plan_has_free_outer_ref(input, outer),
        LogicalPlan::Aggregate { input, .. } => plan_has_free_outer_ref(input, outer),
        LogicalPlan::Sort { input, .. } => plan_has_free_outer_ref(input, outer),
        LogicalPlan::Limit { input, .. } => plan_has_free_outer_ref(input, outer),
        _ => false,
    }
}

/// Whether an expression holds a correlated subquery.
pub open spec fn correlated(e: ExprModel, outer: Seq<ColumnModel>) -> bool
    decreases e, 0nat,
{
    match e {
        ExprModel::Exists { subquery, negated } => plan_refers_out(*subquery, outer),
        ExprModel::ScalarSubquery { subquery } => plan_refers_out(*subquery, outer),
        ExprModel::InSubquery { expr, subquery, negated } => plan_refers_out(*subquery, outer),
        ExprModel::BinaryExpr { left, op, right } => correlated(*left, outer) || correlated(
            *right,
            outer,
        ),
        ExprModel::UnaryExpr { op, expr } => correlated(*expr, outer),
        ExprModel::IsNull { expr, is_null } => correlated(*expr, outer),
        ExprModel::Between { expr, low, high, negated } => correlated(*expr, outer) || correlated(
            *low,
            outer,
        ) || correlated(*high, outer),
        ExprModel::InList { expr, list, negated } => correlated(*expr, outer) || any_correlated(
            list,
            list.len(),
            outer,
        ),
        ExprModel::Case { expr, when_then, else_result } => (match expr {
            Some(b) => correlated(*b, outer),
            None => false,
        }) || any_branch_correlated(when_then, when_then.len(), outer) || (match else_result {
            Some(b) => correlated(*b, outer),
            None => false,
        }),
        _ => false,
    }
}

pub open spec fn any_correlated(s: Seq<ExprModel>, n: nat, outer: Seq<ColumnModel>) -> bool
    decreases s, n,
{
    n != 0 && n <= s.len() && (any_correlated(s, (n - 1) as nat, outer) || correlated(
        s[n - 1],
        outer,
    ))
}

pub open spec fn any_branch_correlated(
    s: Seq<(ExprModel, ExprModel)>,
    n: nat,
    outer: Seq<ColumnModel>,
) -> bool
    decreases s, n,
{
    n != 0 && n <= s.len() && (any_branch_correlated(s, (n - 1) as nat, outer) || correlated(
        s[n - 1].0,
        outer,
    ) || correlated(s[n - 1].1, outer))
}

/// Whether an expression holds a correlated subquery.
pub fn expr_has_correlated_subquery(expr: &LogicalExpr, outer: &Schema) -> (r: bool)
    ensures
        r == correlated(expr@, outer@),
    decreases expr,
{
    match expr {
        LogicalExpr::Exists { subquery, negated } => plan_has_free_outer_ref(subquery, outer),
        LogicalExpr::ScalarSubquery { subquery } => plan_has_free_outer_ref(subquery, outer),
        LogicalExpr::InSubquery { expr: e, subquery, negated } => plan_has_free_outer_ref(
            subquery,
            outer,
        ),
        LogicalExpr::BinaryExpr { left, op, right } => expr_has_correlated_subquery(left, outer)
            || expr_has_correlated_subquery(right, outer),
        LogicalExpr::UnaryExpr { op, expr: e } => expr_has_correlated_subquery(e, outer),
        LogicalExpr::IsNull { expr: e, is_null } => expr_has_correlated_subquery(e, outer),
        LogicalExpr::Between { expr: e, low, high, negated } => expr_has_correlated_subquery(
            e,
            outer,
        ) || expr_has_correlated_subquery(low, outer) || expr_has_correlated_subquery(high, outer),
        LogicalExpr::InList { expr: e, list, negated } => expr_has_correlated_subquery(e, outer)
            || any_expr_correlated(list, outer),
        LogicalExpr::Case { expr: e, when_then, else_result } => {
            let first: bool = match e {
                Some(b) => expr_has_correlated_subquery(b, outer),
                None => false,
            };
            let last: bool = match else_result {
                Some(b) => expr_has_correlated_subquery(b, outer),
                None => false,
            };
            first || any_branch_expr_correlated(when_then, outer) || last
        },
        _ => false,
    }
}

/// Whether one of several expressions holds a correlated subquery.
pub fn any_expr_correlated(v: &Vec<LogicalExpr>, outer: &Schema) -> (r: bool)
    ensures
        r == any_correlated(logical_plan::exprs_model(v@), v@.len(), outer@),
    decreases v,
{
    let ghost s = logical_plan::exprs_model(v@);
    let mut any: bool = false;
    for i in 0..v.len()
        invariant
            s == logical_plan::exprs_model(v@),
            any == any_correlated(s, i as nat, outer@),
    {
        let here: bool = expr_has_correlated_subquery(&v[i], outer);
        assert(s[i as int] == v@[i as int]@);
        any = any || here;
    }
    any
}

fn any_branch_expr_correlated(v: &Vec<(LogicalExpr, LogicalExpr)>, outer: &Schema) -> (r: bool)
    ensures
        r == any_branch_correlated(logical_plan::pairs_model(v@), v@.len(), outer@),
    decreases v,
{
    let ghost s = logical_plan::pairs_model(v@);
    let mut any: bool = false;
    for i in 0..v.len()
        invariant
            s == logical_plan::pairs_model(v@),
            any == any_branch_correlated(s, i as nat, outer@),
    {
        let when: bool = expr_has_correlated_subquery(&v[i].0, outer);
        let what: bool = expr_has_correlated_subquery(&v[i].1, outer);
        assert(s[i as int] == (v@[i as int].0@, v@[i as int].1@));
        any = any || when || what;
    }
    any
}

/// The row around a subquery, with its columns.
pub struct OuterRow {
    pub cols: Seq<ColumnModel>,
    pub row: Seq<ValueModel>,
}

/// An expression of a subquery with the outer columns replaced by the values of
/// the row around it.
pub open spec fn filled(e: ExprModel, inner: Option<Seq<ColumnModel>>, o: OuterRow) -> ExprModel
    decreases e,
{
    match e {
        ExprModel::Column { table, name } => if is_inner(table, name, inner) {
            e
        } else {
            match schema::qualified_index(o.cols, table, name) {
                Some(i) => if i < o.row.len() {
                    ExprModel::Literal(o.row[i as int])
                } else {
                    e
                },
                None => e,
            }
        },
        ExprModel::BinaryExpr { left, op, right } => ExprModel::BinaryExpr {
            left: Box::new(filled(*left, inner, o)),
            op,
            right: Box::new(filled(*right, inner, o)),
        },
        ExprModel::UnaryExpr { op, expr } => ExprModel::UnaryExpr {
            op,
            expr: Box::new(filled(*expr, inner, o)),
        },
        ExprModel::IsNull { expr, is_null } => ExprModel::IsNull {
            expr: Box::new(filled(*expr, inner, o)),
            is_null,
        },
        ExprModel::Between { expr, low, high, negated } => ExprModel::Between {
            expr: Box::new(filled(*expr, inner, o)),
            low: Box::new(filled(*low, inner, o)),
            high: Box::new(filled(*high, inner, o)),
            negated,
        },
        ExprModel::InList { expr, list, negated } => ExprModel::InList {
            expr: Box::new(filled(*expr, inner, o)),
            list: filled_list(list, inner, o),
            negated,
        },
        ExprModel::Case { expr, when_then, else_result } => ExprModel::Case {
            expr: match expr {
                Some(b) => Some(Box::new(filled(*b, inner, o))),
                None => None,
            },
            when_then: filled_pairs(when_then, inner, o),
            else_result: match else_result {
                Some(b) => Some(Box::new(filled(*b, inner, o))),
                None => None,
            },
        },
        _ => e,
    }
}

pub open spec fn filled_list(
    s: Seq<ExprModel>,
    inner: Option<Seq<ColumnModel>>,
    o: OuterRow,
) -> Seq<ExprModel>
    decreases s,
{
    Seq::new(
        s.len(),
        |i: int|
            if 0 <= i < s.len() {
                filled(s[i], inner, o)
            } else {
                arbitrary()
            },
    )
}

pub open spec fn filled_pairs(
    s: Seq<(ExprModel, ExprModel)>,
    inner: Option<Seq<ColumnModel>>,
    o: OuterRow,
) -> Seq<(ExprModel, ExprModel)>
    decreases s,
{
    Seq::new(
        s.len(),
        |i: int|
            if 0 <= i < s.len() {
                (filled(s[i].0, inner, o), filled(s[i].1, inner, o))
            } else {
                arbitrary()
            },
    )
}

/// Replaces the outer columns of a subquery's expression by the values of the
/// row around it.
pub fn bind_expr_to_outer(
    expr: &LogicalExpr,
    inner: &Option<Arc<Schema>>,
    outer: &Schema,
    row: &Tuple,
) -> (r: LogicalExpr)
    ensures
        r@ == filled(
            expr@,
            opt_schema(*inner),
            (OuterRow { cols: outer@, row: row@.values }),
        ),
    decreases expr,
{
    match expr {
        LogicalExpr::Column { table, name } => {
            if is_inner_column(table, name.as_str(), inner) {
                return expr.clone();
            }
            match outer.get_qualified_column_index(schema::as_str(table), name.as_str()) {
                Some(i) => match row.get(i) {
                    Some(v) => LogicalExpr::Literal(v.clone()),
                    None => expr.clone(),
                },
                None => expr.clone(),
            }
        },
        LogicalExpr::BinaryExpr { left, op, right } => LogicalExpr::BinaryExpr {
            left: Box::new(bind_expr_to_outer(left, inner, outer, row)),
            op: *op,
            right: Box::new(bind_expr_to_outer(right, inner, outer, row)),
        },
        LogicalExpr::UnaryExpr { op, expr: e } => LogicalExpr::UnaryExpr {
            op: *op,
            expr: Box::new(bind_expr_to_outer(e, inner, outer, row)),
        },
        LogicalExpr::IsNull { expr: e, is_null } => LogicalExpr::IsNull {
            expr: Box::new(bind_expr_to_outer(e, inner, outer, row)),
            is_null: *is_null,
        },
        LogicalExpr::Between { expr: e, low, high, negated } => LogicalExpr::Between {
            expr: Box::new(bind_expr_to_outer(e, inner, outer, row)),
            low: Box::new(bind_expr_to_outer(low, inner, outer, row)),
            high: Box::new(bind_expr_to_outer(high, inner, outer, row)),
            negated: *negated,
        },
        LogicalExpr::InList { expr: e, list, negated } => LogicalExpr::InList {
            expr: Box::new(bind_expr_to_outer(e, inner, outer, row)),
            list: bind_list_to_outer(list, inner, outer, row),
            negated: *negated,
        },
        LogicalExpr::Case { expr: e, when_then, else_result } => LogicalExpr::Case {
            expr: match e {
                Some(b) => Some(Box::new(bind_expr_to_outer(b, inner, outer, row))),
                None => None,
            },
            when_then: bind_pairs_to_outer(when_then, inner, outer, row),
            else_result: match else_result {
                Some(b) => Some(Box::new(bind_expr_to_outer(b, inner, outer, row))),
                None => None,
            },
        },
        _ => expr.clone(),
    }
}

fn bind_list_to_outer(
    v: &Vec<LogicalExpr>,
    inner: &Option<Arc<Schema>>,
    outer: &Schema,
    row: &Tuple,
) -> (r: Vec<LogicalExpr>)
    ensures
        logical_plan::exprs_model(r@) == filled_list(
            logical_plan::exprs_model(v@),
            opt_schema(*inner),
            (OuterRow { cols: outer@, row: row@.values }),
        ),
    decreases v,
{
    let ghost o = OuterRow { cols: outer@, row: row@.values };
    let mut out: Vec<LogicalExpr> = Vec::new();
    for i in 0..v.len()
        invariant
            o == (OuterRow { cols: outer@, row: row@.values }),
            out.len() == i,
            forall|j: int|
                0 <= j < i ==> (#[trigger] out@[j])@ == filled(v@[j]@, opt_schema(*inner), o),
    {
        out.push(bind_expr_to_outer(&v[i], inner, outer, row));
    }
    assert(logical_plan::exprs_model(out@) =~= filled_list(
        logical_plan::exprs_model(v@),
        opt_schema(*inner),
        o,
    ));
    out
}

fn bind_pairs_to_outer(
    v: &Vec<(LogicalExpr, LogicalExpr)>,
    inner: &Option<Arc<Schema>>,
    outer: &Schema,
    row: &Tuple,
) -> (r: Vec<(LogicalExpr, LogicalExpr)>)
    ensures
        logical_plan::pairs_model(r@) == filled_pairs(
            logical_plan::pairs_model(v@),
            opt_schema(*inner),
            (OuterRow { cols: outer@, row: row@.values }),
        ),
    decreases v,
{
    let ghost o = OuterRow { cols: outer@, row: row@.values };
    let mut out: Vec<(LogicalExpr, LogicalExpr)> = Vec::new();
    for i in 0..v.len()
        invariant
            o == (OuterRow { cols: outer@, row: row@.values }),
            out.len() == i,
            forall|j: int|
                0 <= j < i ==> (#[trigger] out@[j]).0@ == filled(v@[j].0@, opt_schema(*inner), o)
                    && out@[j].1@ == filled(v@[j].1@, opt_schema(*inner), o),
    {
        out.push(
            (
                bind_expr_to_outer(&v[i].0, inner, outer, row),
                bind_expr_to_outer(&v[i].1, inner, outer, row),
            ),
        );
    }
    assert(logical_plan::pairs_model(out@) =~= filled_pairs(
        logical_plan::pairs_model(v@),
        opt_schema(*inner),
        o,
    ));
    out
}

/// A subquery with the outer columns in its filters replaced by the values of
/// the row around it.
pub open spec fn filled_plan(p: PlanModel, o: OuterRow) -> PlanModel
    decreases p,
{
    match p {
        PlanModel::FilteredScan { table_name, alias, schema, projection, predicate, as_of } =>
            PlanModel::FilteredScan {
            table_name,
            alias,
            schema,
            projection,
            predicate: match predicate {
                Some(e) => Some(filled(e, Some(schema), o)),
                None => None,
            },
            as_of,
        },
        PlanModel::Filter { input, predicate } => PlanModel::Filter {
            input: Box::new(filled_plan(*input, o)),
            predicate: filled(predicate, base_columns(*input), o),
        },
        PlanModel::Project { input, exprs, aliases, distinct, distinct_on, source_alias } =>
            PlanModel::Project {
            input: Box::new(filled_plan(*input, o)),
            exprs,
            aliases,
            distinct,
            distinct_on,
            source_alias,
        },
        PlanModel::Aggregate { input, group_by, aggr_exprs, having } => PlanModel::Aggregate {
            input: Box::new(filled_plan(*input, o)),
            group_by,
            aggr_exprs,
            having,
        },
        PlanModel::Sort { input, exprs, asc } => PlanModel::Sort {
            input: Box::new(filled_plan(*input, o)),
            exprs,
            asc,
        },
        PlanModel::Limit { input, limit, offset, limit_param, offset_param } => PlanModel::Limit {
            input: Box::new(filled_plan(*input, o)),
            limit,
            offset,
            limit_param,
            offset_param,
        },
        _ => p,
    }
}

/// Replaces the outer columns in a subquery's filters by the values of the row
/// around it.
pub fn bind_plan_to_outer(plan: &LogicalPlan, outer: &Schema, row: &Tuple) -> (r: LogicalPlan)
    ensures
        r@ == filled_plan(plan@, (OuterRow { cols: outer@, row: row@.values })),
    decreases plan,
{
    match plan {
        LogicalPlan::FilteredScan {
            table_name,
            alias,
            schema,
            projection,
            predicate,
            as_of,
        } => {
            let inner: Option<Arc<Schema>> = Some(schema.clone());
            LogicalPlan::FilteredScan {
                table_name: table_name.clone(),
                alias: alias.clone(),
                schema: schema.clone(),
                projection: logical_plan::clone_positions(projection),
                predicate: match predicate {
                    Some(p) => Some(bind_expr_to_outer(p, &inner, outer, row)),
                    None => None,
                },
                as_of: logical_plan::clone_as_of(as_of),
            }
        },
        LogicalPlan::Filter { input, predicate } => {
            let inner: Option<Arc<Schema>> = base_scan_schema(input);
            LogicalPlan::Filter {
                input: Box::new(bind_plan_to_outer(input, outer, row)),
                predicate: bind_expr_to_outer(predicate, &inner, outer, row),
            }
        },
        LogicalPlan::Project { input, exprs, aliases, distinct, distinct_on, source_alias } =>
            LogicalPlan::Project {
            input: Box::new(bind_plan_to_outer(input, outer, row)),
            exprs: logical_plan::clone_exprs(exprs),
            aliases: schema::clone_texts(aliases),
            distinct: *distinct,
            distinct_on: match distinct_on {
                Some(on) => Some(logical_plan::clone_exprs(on)),
                None => None,
            },
            source_alias: source_alias.clone(),
        },
        LogicalPlan::Aggregate { input, group_by, aggr_exprs, having } => LogicalPlan::Aggregate {
            input: Box::new(bind_plan_to_outer(input, outer, row)),
            group_by: logical_plan::clone_exprs(group_by),
            aggr_exprs: logical_plan::clone_exprs(aggr_exprs),
            having: match having {
                Some(h) => Some(h.clone()),
                None => None,
            },
        },
        LogicalPlan::Sort { input, exprs, asc } => {
            let kept: Vec<bool> = asc.clone();
            assert(kept@ =~= asc@);
            LogicalPlan::Sort {
                input: Box::new(bind_plan_to_outer(input, outer, row)),
                exprs: logical_plan::clone_exprs(exprs),
                asc: kept,
            }
        },
        LogicalPlan::Limit { input, limit, offset, limit_param, offset_param } =>
            LogicalPlan::Limit {
            input: Box::new(bind_plan_to_outer(input, outer, row)),
            limit: *limit,
            offset: *offset,
            limit_param: *limit_param,
            offset_param: *offset_param,
        },
        _ => plan.clone(),
    }
}

proof fn lemma_filled_list_size(
    s: Seq<ExprModel>,
    n: nat,
    inner: Option<Seq<ColumnModel>>,
    o: OuterRow,
)
    requires
        n <= s.len(),
    ensures
        exprs_size(filled_list(s, inner, o), n) == exprs_size(s, n),
    decreases s, n,
{
    if n > 0 {
        lemma_filled_list_size(s, (n - 1) as nat, inner, o);
        lemma_filled_size(s[n - 1], inner, o);
    }
}

proof fn lemma_filled_pairs_size(
    s: Seq<(ExprModel, ExprModel)>,
    n: nat,
    inner: Option<Seq<ColumnModel>>,
    o: OuterRow,
)
    requires
        n <= s.len(),
    ensures
        pairs_size(filled_pairs(s, inner, o), n) == pairs_size(s, n),
    decreases s, n,
{
    if n > 0 {
        lemma_filled_pairs_size(s, (n - 1) as nat, inner, o);
        lemma_filled_size(s[n - 1].0, inner, o);
        lemma_filled_size(s[n - 1].1, inner, o);
    }
}

/// Filling in values does not change how much there is to do.
pub proof fn lemma_filled_size(e: ExprModel, inner: Option<Seq<ColumnModel>>, o: OuterRow)
    ensures
        expr_size(filled(e, inner, o)) == expr_size(e),
    decreases e, 0nat,
{
    match e {
        ExprModel::BinaryExpr { left, op, right } => {
            lemma_filled_size(*left, inner, o);
            lemma_filled_size(*right, inner, o);
        },
        ExprModel::UnaryExpr { op, expr } => {
            lemma_filled_size(*expr, inner, o);
        },
        ExprModel::IsNull { expr, is_null } => {
            lemma_filled_size(*expr, inner, o);
        },
        ExprModel::Between { expr, low, high, negated } => {
            lemma_filled_size(*expr, inner, o);
            lemma_filled_size(*low, inner, o);
            lemma_filled_size(*high, inner, o);
        },
        ExprModel::InList { expr, list, negated } => {
            lemma_filled_size(*expr, inner, o);
            lemma_filled_list_size(list, list.len(), inner, o);
        },
        ExprModel::Case { expr, when_then, else_result } => {
            match expr {
                Some(b) => {
                    lemma_filled_size(*b, inner, o);
                },
                None => {},
            }
            lemma_filled_pairs_size(when_then, when_then.len(), inner, o);
            match else_result {
                Some(b) => {
                    lemma_filled_size(*b, inner, o);
                },
                None => {},
            }
        },
        _ => {},
    }
}

pub proof fn lemma_filled_plan_size(p: PlanModel, o: OuterRow)
    ensures
        plan_size(filled_plan(p, o)) == plan_size(p),
    decreases p,
{
    match p {
        PlanModel::FilteredScan { table_name, alias, schema, projection, predicate, as_of } => {
            match predicate {
                Some(e) => {
                    lemma_filled_size(e, Some(schema), o);
                },
                None => {},
            }
        },
        PlanModel::Filter { input, predicate } => {
            lemma_filled_plan_size(*input, o);
            lemma_filled_size(predicate, base_columns(*input), o);
        },
        PlanModel::Project { input, exprs, aliases, distinct, distinct_on, source_alias } => {
            lemma_filled_plan_size(*input, o);
        },
        PlanModel::Aggregate { input, group_by, aggr_exprs, having } => {
            lemma_filled_plan_size(*input, o);
        },
        PlanModel::Sort { input, exprs, asc } => {
            lemma_filled_plan_size(*input, o);
        },
        PlanModel::Limit { input, limit, offset, limit_param, offset_param } => {
            lemma_filled_plan_size(*input, o);
        },
        _ => {},
    }
}

/// A subquery with an outer row filled in refers to nothing outside, where the
/// row has a value for each of its columns.
pub proof fn law_filled_subquery_is_closed(p: PlanModel, o: OuterRow)
    requires
        o.cols.len() <= o.row.len(),
        o.cols.len() <= usize::MAX,
    ensures
        !plan_refers_out(filled_plan(p, o), o.cols),
    decreases p,
{
    lemma_filled_keeps_base(p, o);
    match p {
        PlanModel::FilteredScan { table_name, alias, schema, projection, predicate, as_of } => {
            match predicate {
                Some(e) => {
                    lemma_filled_is_closed(e, Some(schema), o);
                },
                None => {},
            }
        },
        PlanModel::Filter { input, predicate } => {
            law_filled_subquery_is_closed(*input, o);
            lemma_filled_keeps_base(*input, o);
            lemma_filled_is_closed(predicate, base_columns(*input), o);
        },
        PlanModel::Project { input, exprs, aliases, distinct, distinct_on, source_alias } => {
            law_filled_subquery_is_closed(*input, o);
        },
        PlanModel::Aggregate { input, group_by, aggr_exprs, having } => {
            law_filled_subquery_is_closed(*input, o);
        },
        PlanModel::Sort { input, exprs, asc } => {
            law_filled_subquery_is_closed(*input, o);
        },
        PlanModel::Limit { input, limit, offset, limit_param, offset_param } => {
            law_filled_subquery_is_closed(*input, o);
        },
        _ => {},
    }
}

proof fn lemma_filled_keeps_base(p: PlanModel, o: OuterRow)
    ensures
        base_columns(filled_plan(p, o)) == base_columns(p),
    decreases p,
{
    match p {
        PlanModel::Filter { input, predicate } => {
            lemma_filled_keeps_base(*input, o);
        },
        PlanModel::Project { input, exprs, aliases, distinct, distinct_on, source_alias } => {
            lemma_filled_keeps_base(*input, o);
        },
        PlanModel::Aggregate { input, group_by, aggr_exprs, having } => {
            lemma_filled_keeps_base(*input, o);
        },
        PlanModel::Sort { input, exprs, asc } => {
            lemma_filled_keeps_base(*input, o);
        },
        PlanModel::Limit { input, limit, offset, limit_param, offset_param } => {
            lemma_filled_keeps_base(*input, o);
        },
        _ => {},
    }
}

proof fn lemma_filled_list_is_closed(
    s: Seq<ExprModel>,
    n: nat,
    inner: Option<Seq<ColumnModel>>,
    o: OuterRow,
)
    requires
        n <= s.len(),
        o.cols.len() <= o.row.len(),
        o.cols.len() <= usize::MAX,
    ensures
        !any_refers_out(filled_list(s, inner, o), n, inner, o.cols),
    decreases s, n,
{
    if n > 0 {
        lemma_filled_list_is_closed(s, (n - 1) as nat, inner, o);
        lemma_filled_is_closed(s[n - 1], inner, o);
    }
}

proof fn lemma_filled_pairs_is_closed(
    s: Seq<(ExprModel, ExprModel)>,
    n: nat,
    inner: Option<Seq<ColumnModel>>,
    o: OuterRow,
)
    requires
        n <= s.len(),
        o.cols.len() <= o.row.len(),
        o.cols.len() <= usize::MAX,
    ensures
        !any_branch_refers_out(filled_pairs(s, inner, o), n, inner, o.cols),
    decreases s, n,
{
    if n > 0 {
        lemma_filled_pairs_is_closed(s, (n - 1) as nat, inner, o);
        lemma_filled_is_closed(s[n - 1].0, inner, o);
        lemma_filled_is_closed(s[n - 1].1, inner, o);
    }
}

proof fn lemma_filled_is_closed(e: ExprModel, inner: Option<Seq<ColumnModel>>, o: OuterRow)
    requires
        o.cols.len() <= o.row.len(),
        o.cols.len() <= usize::MAX,
    ensures
        !refers_out(filled(e, inner, o), inner, o.cols),
    decreases e, 0nat,
{
    match e {
        ExprModel::Column { table, name } => {
            schema::lemma_qualified_index_in_range(o.cols, table, name);
        },
        ExprModel::BinaryExpr { left, op, right } => {
            lemma_filled_is_closed(*left, inner, o);
            lemma_filled_is_closed(*right, inner, o);
        },
        ExprModel::UnaryExpr { op, expr } => {
            lemma_filled_is_closed(*expr, inner, o);
        },
        ExprModel::IsNull { expr, is_null } => {
            lemma_filled_is_closed(*expr, inner, o);
        },
        ExprModel::Between { expr, low, high, negated } => {
            lemma_filled_is_closed(*expr, inner, o);
            lemma_filled_is_closed(*low, inner, o);
            lemma_filled_is_closed(*high, inner, o);
        },
        ExprModel::InList { expr, list, negated } => {
            lemma_filled_is_closed(*expr, inner, o);
            lemma_filled_list_is_closed(list, list.len(), inner, o);
        },
        ExprModel::Case { expr, when_then, else_result } => {
            match expr {
                Some(b) => {
                    lemma_filled_is_closed(*b, inner, o);
                },
                None => {},
            }
            lemma_filled_pairs_is_closed(when_then, when_then.len(), inner, o);
            match else_result {
                Some(b) => {
                    lemma_filled_is_closed(*b, inner, o);
                },
                None => {},
            }
        },
        _ => {},
    }
}

} // verus!
