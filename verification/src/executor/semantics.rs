//! What a query means: the rows that each plan gives over a storage.

use crate::evaluator;
use crate::executor::cluster;
use crate::executor::ddl;
use crate::executor::filter;
use crate::executor::hash_join::HashJoinBuildSide;
use crate::executor::index_lookup;
use crate::executor::join_build;
use crate::executor::join_build::JoinTerms;
use crate::executor::join_keys;
use crate::executor::join_pair;
use crate::executor::join_planning;
use crate::executor::key_range;
use crate::executor::operator;
use crate::executor::operator::{Relation, RowStream};
use crate::executor::ordered_topk;
use crate::executor::ordered_topk::{TopkModel, TopkQuery, WrapModel};
use crate::executor::project;
use crate::executor::scan;
use crate::executor::set_ops;
use crate::executor::set_ops::SetOperation;
use crate::executor::sort;
use crate::executor::sources;
use crate::executor::sources::{CteModel, Env};
use crate::executor::storage_view;
use crate::executor::subquery;
use crate::executor::subquery::OuterRow;
use crate::executor::table_function;
use crate::logical_plan::{AggregateFunction, AsOfModel, ExprModel, JoinType, PlanModel};
use crate::schema;
use crate::schema::{ColumnModel, ErrorModel, TupleModel};
use crate::text;
use crate::tree_text;
use crate::value::{DataType, ValueModel};
use vstd::prelude::*;

verus! {

/// The common table expressions that a query can see, by name.
pub type Ctes = spec_fn(Seq<char>) -> Option<CteModel>;

pub open spec fn no_ctes() -> Ctes {
    |name: Seq<char>| None::<CteModel>
}

/// The common table expressions with one more, which hides another one of its
/// name.
pub open spec fn with_cte(ctes: Ctes, cte: CteModel) -> Ctes {
    |name: Seq<char>|
        if name == cte.name {
            Some(cte)
        } else {
            ctes(name)
        }
}

/// What building a plan comes to: its rows, and the common table expressions
/// that can be seen from then on.
#[verifier::ext_equal]
pub struct Built {
    pub rel: Relation,
    pub ctes: Ctes,
}

/// What a subquery runs on: the storage and the parameters of the query around
/// it, without its transaction.
pub open spec fn inner_env(env: Env) -> Env {
    Env { transaction: None, ..env }
}

/// All rows of a stream, or the error that ends it.
pub open spec fn all_rows(s: RowStream) -> Result<Seq<TupleModel>, ErrorModel> {
    match s.end {
        Some(e) => Err(e),
        None => Ok(s.rows),
    }
}

/// All rows of a built plan.
pub open spec fn rows_given(b: Result<Built, ErrorModel>) -> Result<Seq<TupleModel>, ErrorModel> {
    match b {
        Err(e) => Err(e),
        Ok(b) => all_rows(b.rel.rows),
    }
}

/// A relation that leaves the common table expressions as they were.
pub open spec fn built(r: Result<Relation, ErrorModel>, ctes: Ctes) -> Result<Built, ErrorModel> {
    match r {
        Ok(rel) => Ok(Built { rel, ctes }),
        Err(e) => Err(e),
    }
}

/// Rows at hand with their columns.
pub open spec fn at_hand(columns: Seq<ColumnModel>, rows: Seq<TupleModel>) -> Relation {
    Relation { columns, rows: operator::just_rows(rows), timed: false }
}

/// Rows with their columns, handed out under the time limit of the query.
pub open spec fn under_limit(columns: Seq<ColumnModel>, rows: Seq<TupleModel>) -> Relation {
    Relation { columns, rows: operator::just_rows(rows), timed: true }
}

/// No rows and no columns, handed out under the time limit of the query.
pub open spec fn no_result() -> Relation {
    under_limit(Seq::empty(), Seq::empty())
}

/// No rows and no columns.
pub open spec fn nothing() -> Relation {
    at_hand(Seq::empty(), Seq::empty())
}

/// One row with a status message.
pub open spec fn status(message: Seq<char>) -> Relation {
    at_hand(
        seq![scan::status_column()],
        seq![scan::single_value_row(ValueModel::String(message))],
    )
}

pub open spec fn query_error(message: Seq<char>) -> ErrorModel {
    ErrorModel::QueryExecution(message)
}

/// The error for a plan that no operator exists for.
pub open spec fn not_implemented(p: PlanModel) -> ErrorModel {
    query_error("Operator not yet implemented: "@ + tree_text::plan_text(p))
}

/// The answer to a plan that is left to the database around the executor.
pub open spec fn left_unanswered(p: PlanModel) -> ErrorModel {
    ErrorModel::Unsupported("Operator not yet implemented: "@ + tree_text::plan_text(p))
}

/// A scan: its table, the name it is seen under, the columns that the plan knows
/// of, those that it keeps, and the time it looks at.
#[verifier::ext_equal]
pub struct ScanNode {
    pub table: Seq<char>,
    pub alias: Option<Seq<char>>,
    pub cols: Seq<ColumnModel>,
    pub projection: Option<Seq<usize>>,
    pub as_of: Option<AsOfModel>,
}

/// The scan that a plan is.
pub open spec fn scan_node(p: PlanModel) -> Option<ScanNode> {
    match p {
        PlanModel::Scan { table_name, alias, schema, projection, as_of } => Some(
            ScanNode { table: table_name, alias, cols: schema, projection, as_of },
        ),
        _ => None,
    }
}

/// The scan that a plan is, or that a `SELECT` list stands on.
pub open spec fn scan_below(p: PlanModel) -> Option<ScanNode> {
    match p {
        PlanModel::Project { input, exprs, aliases, distinct, distinct_on, source_alias } =>
            scan_node(*input),
        _ => scan_node(p),
    }
}

/// What a scan gives of rows with their columns.
pub open spec fn scanned(n: ScanNode, cols: Seq<ColumnModel>, rows: Seq<TupleModel>) -> Relation {
    under_limit(scan::scanned_columns(n.projection, cols), scan::scanned(n.projection, rows))
}

pub open spec fn source_of(n: ScanNode, env: Env, ctes: Ctes) -> Result<
    (Seq<ColumnModel>, Seq<TupleModel>),
    ErrorModel,
> {
    sources::scan_source(n.table, n.alias, n.cols, n.as_of, env, ctes(n.table))
}

/// What a scan gives.
pub open spec fn scan_rows(n: ScanNode, env: Env, ctes: Ctes) -> Result<Relation, ErrorModel> {
    match source_of(n, env, ctes) {
        Err(e) => Err(e),
        Ok(s) => Ok(scanned(n, s.0, s.1)),
    }
}

/// What a scan gives of the rows that a predicate keeps.
pub open spec fn filtered_scan_rows(n: ScanNode, predicate: ExprModel, env: Env, ctes: Ctes) -> Result<
    Relation,
    ErrorModel,
> {
    match source_of(n, env, ctes) {
        Err(e) => Err(e),
        Ok(s) => match sources::kept_rows(s.1, predicate, s.0, env.params) {
            Err(e) => Err(e),
            Ok(rows) => Ok(scanned(n, s.0, rows)),
        },
    }
}

/// What a scan gives of rows that were looked up in an index.
pub open spec fn looked_up(
    n: ScanNode,
    rows: Result<Option<Seq<TupleModel>>, ErrorModel>,
) -> Result<Option<Relation>, ErrorModel> {
    match rows {
        Err(e) => Err(e),
        Ok(None) => Ok(None),
        Ok(Some(rows)) => Ok(
            Some(
                scanned(
                    n,
                    sources::sourced(n.cols, sources::source_name(n.alias, n.table), n.table),
                    rows,
                ),
            ),
        ),
    }
}

/// The first values of rows; rows without a value are passed over.
pub open spec fn first_values(rows: Seq<TupleModel>, n: nat) -> Seq<ValueModel>
    decreases n,
{
    if n == 0 || n > rows.len() {
        Seq::empty()
    } else {
        let before = first_values(rows, (n - 1) as nat);
        if rows[n - 1].values.len() > 0 {
            before.push(rows[n - 1].values[0])
        } else {
            before
        }
    }
}

pub open spec fn literals(s: Seq<ValueModel>) -> Seq<ExprModel> {
    Seq::new(s.len(), |i: int| ExprModel::Literal(s[i]))
}

/// `IN` over the rows of a subquery: over a set where there are many.
pub open spec fn membership(
    expr: ExprModel,
    rows: Seq<TupleModel>,
    negated: bool,
    as_set: bool,
) -> ExprModel {
    let values = first_values(rows, rows.len());
    if as_set && rows.len() > 16 {
        ExprModel::InSet { expr: Box::new(expr), values, negated }
    } else {
        ExprModel::InList { expr: Box::new(expr), list: literals(values), negated }
    }
}

/// The rows that a subquery is answered with: none where it fails. That something
/// is left to the database is no failure of the subquery, and no answer.
pub open spec fn answered_rows(rows: Result<Seq<TupleModel>, ErrorModel>) -> Result<
    Seq<TupleModel>,
    ErrorModel,
> {
    match rows {
        Ok(rows) => Ok(rows),
        Err(e) => if e is Unsupported {
            Err(e)
        } else {
            Ok(Seq::empty())
        },
    }
}

/// The value of a scalar subquery: the first value of its first row, else NULL.
pub open spec fn scalar(rows: Seq<TupleModel>) -> ValueModel {
    if rows.len() > 0 && rows[0].values.len() > 0 {
        rows[0].values[0]
    } else {
        ValueModel::Null
    }
}

/// What `EXISTS` says of the rows of a subquery.
pub open spec fn existence(rows: Seq<TupleModel>, negated: bool) -> ValueModel {
    ValueModel::Boolean((rows.len() > 0) != negated)
}

/// An expression with its subqueries replaced by what they give.
pub open spec fn materialized(e: ExprModel, env: Env) -> Result<ExprModel, ErrorModel>
    decreases subquery::expr_size(e), 1nat, 0nat,
{
    match e {
        ExprModel::InSubquery { expr, subquery, negated } => match rows_given(
            run(*subquery, inner_env(env), no_ctes()),
        ) {
            Err(err) => Err(err),
            Ok(rows) => match materialized(*expr, env) {
                Err(err) => Err(err),
                Ok(m) => Ok(membership(m, rows, negated, true)),
            },
        },
        ExprModel::ScalarSubquery { subquery } => match answered_rows(
            rows_given(run(*subquery, inner_env(env), no_ctes())),
        ) {
            Err(err) => Err(err),
            Ok(rows) => Ok(ExprModel::Literal(scalar(rows))),
        },
        ExprModel::Exists { subquery, negated } => match answered_rows(
            rows_given(run(*subquery, inner_env(env), no_ctes())),
        ) {
            Err(err) => Err(err),
            Ok(rows) => Ok(ExprModel::Literal(existence(rows, negated))),
        },
        ExprModel::BinaryExpr { left, op, right } => match materialized(*left, env) {
            Err(err) => Err(err),
            Ok(l) => match materialized(*right, env) {
                Err(err) => Err(err),
                Ok(r) => Ok(
                    ExprModel::BinaryExpr { left: Box::new(l), op, right: Box::new(r) },
                ),
            },
        },
        ExprModel::UnaryExpr { op, expr } => match materialized(*expr, env) {
            Err(err) => Err(err),
            Ok(m) => Ok(ExprModel::UnaryExpr { op, expr: Box::new(m) }),
        },
        ExprModel::IsNull { expr, is_null } => match materialized(*expr, env) {
            Err(err) => Err(err),
            Ok(m) => Ok(ExprModel::IsNull { expr: Box::new(m), is_null }),
        },
        ExprModel::Between { expr, low, high, negated } => match materialized(*expr, env) {
            Err(err) => Err(err),
            Ok(x) => match materialized(*low, env) {
                Err(err) => Err(err),
                Ok(l) => match materialized(*high, env) {
                    Err(err) => Err(err),
                    Ok(h) => Ok(
                        ExprModel::Between {
                            expr: Box::new(x),
                            low: Box::new(l),
                            high: Box::new(h),
                            negated,
                        },
                    ),
                },
            },
        },
        ExprModel::InList { expr, list, negated } => match materialized(*expr, env) {
            Err(err) => Err(err),
            Ok(x) => {
                proof {
                    subquery::lemma_size_is_positive(*expr);
                }
                match materialized_list(list, list.len(), env) {
                    Err(err) => Err(err),
                    Ok(l) => Ok(ExprModel::InList { expr: Box::new(x), list: l, negated }),
                }
            },
        },
        ExprModel::Case { expr, when_then, else_result } => match materialized_opt(expr, env) {
            Err(err) => Err(err),
            Ok(x) => match materialized_opt(else_result, env) {
                Err(err) => Err(err),
                Ok(y) => match materialized_pairs(when_then, when_then.len(), env) {
                    Err(err) => Err(err),
                    Ok(w) => Ok(ExprModel::Case { expr: x, when_then: w, else_result: y }),
                },
            },
        },
        _ => Ok(e),
    }
}

pub open spec fn opt_expr_size(e: Option<Box<ExprModel>>) -> nat {
    match e {
        Some(b) => subquery::expr_size(*b),
        None => 0,
    }
}

pub open spec fn materialized_opt(e: Option<Box<ExprModel>>, env: Env) -> Result<
    Option<Box<ExprModel>>,
    ErrorModel,
>
    decreases opt_expr_size(e), 2nat, 0nat,
{
    match e {
        None => Ok(None),
        Some(b) => match materialized(*b, env) {
            Err(err) => Err(err),
            Ok(m) => Ok(Some(Box::new(m))),
        },
    }
}

/// The first `n` expressions of a list with their subqueries replaced.
pub open spec fn materialized_list(s: Seq<ExprModel>, n: nat, env: Env) -> Result<
    Seq<ExprModel>,
    ErrorModel,
>
    decreases subquery::exprs_size(s, s.len()), 2nat, n,
{
    if n == 0 || n > s.len() {
        Ok(Seq::empty())
    } else {
        proof {
            subquery::lemma_expr_in_list(s, n - 1, s.len());
        }
        match materialized_list(s, (n - 1) as nat, env) {
            Err(err) => Err(err),
            Ok(l) => match materialized(s[n - 1], env) {
                Err(err) => Err(err),
                Ok(m) => Ok(l.push(m)),
            },
        }
    }
}

/// The first `n` branches of a list with their subqueries replaced.
pub open spec fn materialized_pairs(s: Seq<(ExprModel, ExprModel)>, n: nat, env: Env) -> Result<
    Seq<(ExprModel, ExprModel)>,
    ErrorModel,
>
    decreases subquery::pairs_size(s, s.len()), 2nat, n,
{
    if n == 0 || n > s.len() {
        Ok(Seq::empty())
    } else {
        proof {
            subquery::lemma_pair_in_list(s, n - 1, s.len());
        }
        match materialized_pairs(s, (n - 1) as nat, env) {
            Err(err) => Err(err),
            Ok(l) => match materialized(s[n - 1].0, env) {
                Err(err) => Err(err),
                Ok(w) => match materialized(s[n - 1].1, env) {
                    Err(err) => Err(err),
                    Ok(t) => Ok(l.push((w, t))),
                },
            },
        }
    }
}

/// The rows that a subquery is answered with for one outer row.
pub open spec fn rows_for(p: PlanModel, o: OuterRow, env: Env, ctes: Ctes) -> Result<
    Seq<TupleModel>,
    ErrorModel,
>
    decreases subquery::plan_size(p), 4nat, 0nat,
{
    proof {
        subquery::lemma_filled_plan_size(p, o);
    }
    answered_rows(rows_given(run(subquery::filled_plan(p, o), inner_env(env), ctes)))
}

/// An expression with its subqueries replaced by what they give for one outer
/// row.
pub open spec fn materialized_for(e: ExprModel, o: OuterRow, env: Env, ctes: Ctes) -> Result<
    ExprModel,
    ErrorModel,
>
    decreases subquery::expr_size(e), 1nat, 0nat,
{
    match e {
        ExprModel::InSubquery { expr, subquery, negated } => match rows_for(
            *subquery,
            o,
            env,
            ctes,
        ) {
            Err(err) => Err(err),
            Ok(rows) => match materialized_for(*expr, o, env, ctes) {
                Err(err) => Err(err),
                Ok(x) => Ok(membership(x, rows, negated, false)),
            },
        },
        ExprModel::ScalarSubquery { subquery } => match rows_for(*subquery, o, env, ctes) {
            Err(err) => Err(err),
            Ok(rows) => Ok(ExprModel::Literal(scalar(rows))),
        },
        ExprModel::Exists { subquery, negated } => match rows_for(*subquery, o, env, ctes) {
            Err(err) => Err(err),
            Ok(rows) => Ok(ExprModel::Literal(existence(rows, negated))),
        },
        ExprModel::BinaryExpr { left, op, right } => match materialized_for(*left, o, env, ctes) {
            Err(err) => Err(err),
            Ok(l) => match materialized_for(*right, o, env, ctes) {
                Err(err) => Err(err),
                Ok(r) => Ok(
                    ExprModel::BinaryExpr { left: Box::new(l), op, right: Box::new(r) },
                ),
            },
        },
        ExprModel::UnaryExpr { op, expr } => match materialized_for(*expr, o, env, ctes) {
            Err(err) => Err(err),
            Ok(m) => Ok(ExprModel::UnaryExpr { op, expr: Box::new(m) }),
        },
        ExprModel::IsNull { expr, is_null } => match materialized_for(*expr, o, env, ctes) {
            Err(err) => Err(err),
            Ok(m) => Ok(ExprModel::IsNull { expr: Box::new(m), is_null }),
        },
        ExprModel::Between { expr, low, high, negated } => match materialized_for(*expr, o, env, ctes) {
            Err(err) => Err(err),
            Ok(x) => match materialized_for(*low, o, env, ctes) {
                Err(err) => Err(err),
                Ok(l) => match materialized_for(*high, o, env, ctes) {
                    Err(err) => Err(err),
                    Ok(h) => Ok(
                        ExprModel::Between {
                            expr: Box::new(x),
                            low: Box::new(l),
                            high: Box::new(h),
                            negated,
                        },
                    ),
                },
            },
        },
        ExprModel::InList { expr, list, negated } => match materialized_for(*expr, o, env, ctes) {
            Err(err) => Err(err),
            Ok(x) => {
                proof {
                    subquery::lemma_size_is_positive(*expr);
                }
                match list_for(list, list.len(), o, env, ctes) {
                    Err(err) => Err(err),
                    Ok(l) => Ok(ExprModel::InList { expr: Box::new(x), list: l, negated }),
                }
            },
        },
        ExprModel::Case { expr, when_then, else_result } => match opt_for(expr, o, env, ctes) {
            Err(err) => Err(err),
            Ok(x) => match opt_for(else_result, o, env, ctes) {
                Err(err) => Err(err),
                Ok(y) => match pairs_for(when_then, when_then.len(), o, env, ctes) {
                    Err(err) => Err(err),
                    Ok(w) => Ok(ExprModel::Case { expr: x, when_then: w, else_result: y }),
                },
            },
        },
        _ => Ok(e),
    }
}

pub open spec fn opt_for(e: Option<Box<ExprModel>>, o: OuterRow, env: Env, ctes: Ctes) -> Result<
    Option<Box<ExprModel>>,
    ErrorModel,
>
    decreases opt_expr_size(e), 2nat, 0nat,
{
    match e {
        None => Ok(None),
        Some(b) => match materialized_for(*b, o, env, ctes) {
            Err(err) => Err(err),
            Ok(m) => Ok(Some(Box::new(m))),
        },
    }
}

/// The first `n` expressions of a list with their subqueries replaced for one outer
/// row.
pub open spec fn list_for(s: Seq<ExprModel>, n: nat, o: OuterRow, env: Env, ctes: Ctes) -> Result<
    Seq<ExprModel>,
    ErrorModel,
>
    decreases subquery::exprs_size(s, s.len()), 2nat, n,
{
    if n == 0 || n > s.len() {
        Ok(Seq::empty())
    } else {
        proof {
            subquery::lemma_expr_in_list(s, n - 1, s.len());
        }
        match list_for(s, (n - 1) as nat, o, env, ctes) {
            Err(err) => Err(err),
            Ok(l) => match materialized_for(s[n - 1], o, env, ctes) {
                Err(err) => Err(err),
                Ok(m) => Ok(l.push(m)),
            },
        }
    }
}

/// The first `n` branches of a list with their subqueries replaced for one outer row.
pub open spec fn pairs_for(
    s: Seq<(ExprModel, ExprModel)>,
    n: nat,
    o: OuterRow,
    env: Env,
    ctes: Ctes,
) -> Result<
    Seq<(ExprModel, ExprModel)>,
    ErrorModel,
>
    decreases subquery::pairs_size(s, s.len()), 2nat, n,
{
    if n == 0 || n > s.len() {
        Ok(Seq::empty())
    } else {
        proof {
            subquery::lemma_pair_in_list(s, n - 1, s.len());
        }
        match pairs_for(s, (n - 1) as nat, o, env, ctes) {
            Err(err) => Err(err),
            Ok(l) => match materialized_for(s[n - 1].0, o, env, ctes) {
                Err(err) => Err(err),
                Ok(w) => match materialized_for(s[n - 1].1, o, env, ctes) {
                    Err(err) => Err(err),
                    Ok(t) => Ok(l.push((w, t))),
                },
            },
        }
    }
}

/// What an index has for the value that a predicate asks for.
pub open spec fn pointed(n: ScanNode, predicate: ExprModel, env: Env, ctes: Ctes) -> Result<
    Option<Relation>,
    ErrorModel,
>
    decreases subquery::expr_size(predicate), 2nat, 0nat,
{
    if !sources::can_look_up(env, ctes(n.table), n.table, n.as_of) {
        Ok(None)
    } else {
        match materialized(predicate, env) {
            Err(e) => Err(e),
            Ok(m) => looked_up(
                n,
                sources::point_rows(env.storage->Some_0, env.params, n.table, n.alias, n.cols, m),
            ),
        }
    }
}

/// What an index has in the range that a predicate asks for.
pub open spec fn ranged(n: ScanNode, predicate: ExprModel, env: Env, ctes: Ctes) -> Result<
    Option<Relation>,
    ErrorModel,
>
    decreases subquery::expr_size(predicate), 2nat, 0nat,
{
    if env.settings.index_range_off || !sources::can_look_up(
        env,
        ctes(n.table),
        n.table,
        n.as_of,
    ) {
        Ok(None)
    } else {
        match index_lookup::index_range(
            predicate,
            n.cols,
            env.params,
            env.storage->Some_0.indexes,
            n.table,
        ) {
            None => Ok(None),
            Some(range) => match materialized(predicate, env) {
                Err(e) => Err(e),
                Ok(m) => looked_up(
                    n,
                    sources::range_rows(
                        env.storage->Some_0,
                        env.params,
                        n.table,
                        n.alias,
                        n.cols,
                        range,
                        m,
                    ),
                ),
            },
        }
    }
}

/// What an index gives for a predicate on a scan, where it can serve it.
pub open spec fn indexed(n: ScanNode, predicate: ExprModel, env: Env, ctes: Ctes) -> Result<
    Option<Relation>,
    ErrorModel,
>
    decreases subquery::expr_size(predicate), 3nat, 0nat,
{
    match pointed(n, predicate, env, ctes) {
        Ok(None) => ranged(n, predicate, env, ctes),
        r => r,
    }
}

/// A scan with a predicate.
pub open spec fn run_filtered_scan(n: ScanNode, predicate: ExprModel, env: Env, ctes: Ctes) -> Result<
    Relation,
    ErrorModel,
>
    decreases subquery::expr_size(predicate), 4nat, 0nat,
{
    match indexed(n, predicate, env, ctes) {
        Err(e) => Err(e),
        Ok(Some(rel)) => Ok(rel),
        Ok(None) => match materialized(predicate, env) {
            Err(e) => Err(e),
            Ok(m) => filtered_scan_rows(n, m, env, ctes),
        },
    }
}

/// The first `n` rows that a predicate with correlated subqueries keeps: those
/// on which it is true.
pub open spec fn correlated_rows(
    predicate: ExprModel,
    cols: Seq<ColumnModel>,
    rows: Seq<TupleModel>,
    n: nat,
    env: Env,
    ctes: Ctes,
) -> Result<Seq<TupleModel>, ErrorModel>
    decreases subquery::expr_size(predicate), 2nat, n,
{
    if n == 0 || n > rows.len() {
        Ok(Seq::empty())
    } else {
        match correlated_rows(predicate, cols, rows, (n - 1) as nat, env, ctes) {
            Err(e) => Err(e),
            Ok(s) => {
                let row = rows[n - 1];
                let value = match materialized_for(
                    predicate,
                    (OuterRow { cols, row: row.values }),
                    env,
                    ctes,
                ) {
                    Err(e) => Err(e),
                    Ok(m) => evaluator::eval(m, cols, env.params, row.values),
                };
                match value {
                    Err(e) => Err(e),
                    Ok(v) => if v == ValueModel::Boolean(true) {
                        Ok(s.push(row))
                    } else {
                        Ok(s)
                    },
                }
            },
        }
    }
}

/// Rows that were computed one by one, unless the stream behind them fails.
pub open spec fn unless_failing(
    rows: Result<Seq<TupleModel>, ErrorModel>,
    end: Option<ErrorModel>,
) -> Result<Seq<TupleModel>, ErrorModel> {
    match rows {
        Err(e) => Err(e),
        Ok(s) => match end {
            Some(e) => Err(e),
            None => Ok(s),
        },
    }
}

pub open spec fn relation_at_hand(
    columns: Seq<ColumnModel>,
    rows: Result<Seq<TupleModel>, ErrorModel>,
) -> Result<Relation, ErrorModel> {
    match rows {
        Err(e) => Err(e),
        Ok(s) => Ok(at_hand(columns, s)),
    }
}

/// A filter over a built input.
pub open spec fn filter_above(b: Built, predicate: ExprModel, env: Env) -> Result<
    Relation,
    ErrorModel,
>
    decreases subquery::expr_size(predicate), 3nat, 0nat,
{
    if subquery::correlated(predicate, b.rel.columns) {
        relation_at_hand(
            b.rel.columns,
            unless_failing(
                correlated_rows(
                    predicate,
                    b.rel.columns,
                    b.rel.rows.rows,
                    b.rel.rows.rows.len(),
                    env,
                    b.ctes,
                ),
                b.rel.rows.end,
            ),
        )
    } else {
        match materialized(predicate, env) {
            Err(e) => Err(e),
            Ok(m) => Ok(
                Relation {
                    columns: b.rel.columns,
                    rows: filter::filtered(b.rel.rows, m, b.rel.columns, env.params),
                    timed: true,
                },
            ),
        }
    }
}

/// A filter.
pub open spec fn run_filter(input: PlanModel, predicate: ExprModel, env: Env, ctes: Ctes) -> Result<
    Built,
    ErrorModel,
>
    decreases subquery::plan_size(input) + subquery::expr_size(predicate) + 1, 5nat, 0nat,
{
    proof {
        subquery::lemma_size_is_positive(predicate);
    }
    let quick = match scan_node(input) {
        Some(n) => indexed(n, predicate, env, ctes),
        None => Ok(None),
    };
    match quick {
        Err(e) => Err(e),
        Ok(Some(rel)) => Ok(Built { rel, ctes }),
        Ok(None) => match run(input, env, ctes) {
            Err(e) => Err(e),
            Ok(b) => built(filter_above(b, predicate, env), b.ctes),
        },
    }
}

/// The values of the first `n` items of a `SELECT` list with correlated
/// subqueries, for one row.
pub open spec fn item_values(
    exprs: Seq<ExprModel>,
    n: nat,
    cols: Seq<ColumnModel>,
    row: TupleModel,
    env: Env,
    ctes: Ctes,
) -> Result<Seq<ValueModel>, ErrorModel>
    decreases subquery::exprs_size(exprs, exprs.len()), 2nat, n,
{
    if n == 0 || n > exprs.len() {
        Ok(Seq::empty())
    } else {
        proof {
            subquery::lemma_expr_in_list(exprs, n - 1, exprs.len());
        }
        match item_values(exprs, (n - 1) as nat, cols, row, env, ctes) {
            Err(e) => Err(e),
            Ok(s) => {
                let value = match materialized_for(
                    exprs[n - 1],
                    (OuterRow { cols, row: row.values }),
                    env,
                    ctes,
                ) {
                    Err(e) => Err(e),
                    Ok(m) => evaluator::eval(m, cols, env.params, row.values),
                };
                match value {
                    Err(e) => Err(e),
                    Ok(v) => Ok(s.push(v)),
                }
            },
        }
    }
}

/// The first `n` rows of a `SELECT` list with correlated subqueries.
pub open spec fn item_rows(
    exprs: Seq<ExprModel>,
    cols: Seq<ColumnModel>,
    rows: Seq<TupleModel>,
    n: nat,
    env: Env,
    ctes: Ctes,
) -> Result<Seq<TupleModel>, ErrorModel>
    decreases subquery::exprs_size(exprs, exprs.len()), 3nat, n,
{
    if n == 0 || n > rows.len() {
        Ok(Seq::empty())
    } else {
        match item_rows(exprs, cols, rows, (n - 1) as nat, env, ctes) {
            Err(e) => Err(e),
            Ok(s) => match item_values(exprs, exprs.len(), cols, rows[n - 1], env, ctes) {
                Err(e) => Err(e),
                Ok(values) => Ok(
                    s.push(
                        TupleModel { values, row_id: rows[n - 1].row_id, branch_id: None },
                    ),
                ),
            },
        }
    }
}

/// A `SELECT` list over a relation.
pub open spec fn shown(
    rel: Relation,
    exprs: Seq<ExprModel>,
    aliases: Seq<Seq<char>>,
    distinct: bool,
    distinct_on: Option<Seq<ExprModel>>,
    params: Seq<ValueModel>,
) -> Relation {
    Relation {
        columns: project::output_columns(aliases, exprs, rel.columns),
        rows: project::projected(
            rel.rows,
            exprs,
            rel.columns,
            params,
            project::distinct_mode(distinct, distinct_on),
            Seq::empty(),
        ),
        timed: rel.timed,
    }
}

/// A `SELECT` list, with its subqueries replaced, over a relation.
pub open spec fn select_above(
    rel: Relation,
    exprs: Seq<ExprModel>,
    aliases: Seq<Seq<char>>,
    distinct: bool,
    distinct_on: Option<Seq<ExprModel>>,
    env: Env,
) -> Result<Relation, ErrorModel>
    decreases subquery::exprs_size(exprs, exprs.len()), 3nat, 0nat,
{
    match materialized_list(exprs, exprs.len(), env) {
        Err(e) => Err(e),
        Ok(m) => Ok(shown(rel, m, aliases, distinct, distinct_on, env.params)),
    }
}

/// A `SELECT` list over a built input.
pub open spec fn project_above(
    b: Built,
    exprs: Seq<ExprModel>,
    aliases: Seq<Seq<char>>,
    distinct: bool,
    distinct_on: Option<Seq<ExprModel>>,
    env: Env,
) -> Result<Relation, ErrorModel>
    decreases subquery::exprs_size(exprs, exprs.len()), 4nat, 0nat,
{
    if !distinct && distinct_on is None && subquery::any_correlated(
        exprs,
        exprs.len(),
        b.rel.columns,
    ) {
        relation_at_hand(
            project::output_columns(aliases, exprs, b.rel.columns),
            unless_failing(
                item_rows(
                    exprs,
                    b.rel.columns,
                    b.rel.rows.rows,
                    b.rel.rows.rows.len(),
                    env,
                    b.ctes,
                ),
                b.rel.rows.end,
            ),
        )
    } else {
        select_above(b.rel, exprs, aliases, distinct, distinct_on, env)
    }
}

/// Whether one of the first `n` items is a window function.
pub open spec fn has_window(exprs: Seq<ExprModel>, n: nat) -> bool
    decreases n,
{
    n != 0 && n <= exprs.len() && (has_window(exprs, (n - 1) as nat)
        || exprs[n - 1] is WindowFunction)
}

/// Whether the first `n` items are plain columns.
pub open spec fn all_columns(exprs: Seq<ExprModel>, n: nat) -> bool
    decreases n,
{
    n == 0 || n > exprs.len() || (all_columns(exprs, (n - 1) as nat) && exprs[n - 1] is Column)
}

/// A join: its inputs, its kind and its condition.
#[verifier::ext_equal]
pub struct JoinNode {
    pub left: PlanModel,
    pub right: PlanModel,
    pub join_type: JoinType,
    pub condition: ExprModel,
}

/// How a join went that may be left to others: done, or declined with what has
/// been seen so far.
pub enum Attempt {
    Done(Result<Built, ErrorModel>),
    Declined(Ctes),
}

/// The error for a join condition with a correlated subquery.
pub open spec fn correlated_join() -> ErrorModel {
    query_error("Correlated subqueries are not supported in JOIN conditions"@)
}

/// A join condition with its subqueries replaced; a correlated one is refused.
pub open spec fn join_condition(condition: ExprModel, cols: Seq<ColumnModel>, env: Env) -> Result<
    ExprModel,
    ErrorModel,
>
    decreases subquery::expr_size(condition), 2nat, 0nat,
{
    if subquery::correlated(condition, cols) {
        Err(correlated_join())
    } else {
        materialized(condition, env)
    }
}

/// Which side the table of keys of an inner join is built from.
pub open spec fn build_side(left: PlanModel, right: PlanModel, inner: bool, env: Env) -> HashJoinBuildSide {
    if inner && !env.settings.build_right_only && join_planning::builds_left(
        join_planning::estimate(env.storage, left),
        join_planning::estimate(env.storage, right),
    ) {
        HashJoinBuildSide::Left
    } else {
        HashJoinBuildSide::Right
    }
}

pub open spec fn terms(side: HashJoinBuildSide, env: Env) -> JoinTerms {
    JoinTerms { params: env.params, limit: env.settings.join_memory_limit, side }
}

/// How many rows the left side of a join is expected to look up.
pub open spec fn lookups_expected(left: PlanModel, inner: bool, env: Env) -> Option<usize> {
    if inner && join_planning::lookup_estimate(env.storage, left) is Some {
        join_planning::lookup_estimate(env.storage, left)
    } else {
        join_planning::estimate(env.storage, left)
    }
}

/// How a join looks up its right rows, where it does.
pub open spec fn join_lookups(j: JoinNode, env: Env) -> Option<join_planning::LookupModel> {
    if (j.join_type == JoinType::Inner || j.join_type == JoinType::Left)
        && join_keys::equal_columns(j.condition) is Some && join_planning::tries_lookups(
        env.settings.lookup_join_off,
        lookups_expected(j.left, j.join_type == JoinType::Inner, env),
        join_planning::estimate(env.storage, j.right),
    ) && join_planning::plain_scan(j.right) {
        join_planning::lookup_plan(env.storage, env.transaction, j.right, j.condition)
    } else {
        None
    }
}

/// What a join by lookups gives over its left rows.
pub open spec fn looked_up_join(
    left: Relation,
    lookup: join_planning::LookupModel,
    position: usize,
    keep_left: bool,
    store: storage_view::StoreModel,
) -> Result<Relation, ErrorModel> {
    match all_rows(left.rows) {
        Err(e) => Err(e),
        Ok(rows) => Ok(
            at_hand(
                left.columns + sources::sourced(
                    lookup.info.columns,
                    sources::source_name(lookup.info.alias, lookup.info.table),
                    lookup.info.table,
                ),
                join_planning::lookup_join(
                    rows,
                    rows.len(),
                    position,
                    sources::known_entries(store, lookup.index_name),
                    sources::rows_of_table(store.tables, lookup.info.table),
                    lookup.info.columns.len(),
                    keep_left,
                ),
            ),
        ),
    }
}

/// A join by lookups, where it can be done that way.
pub open spec fn run_lookup_join(j: JoinNode, env: Env, ctes: Ctes) -> Attempt
    decreases subquery::plan_size(j.left), 4nat, 0nat,
{
    match join_lookups(j, env) {
        None => Attempt::Declined(ctes),
        Some(lookup) => match run(j.left, env, ctes) {
            Err(e) => Attempt::Done(Err(e)),
            Ok(b) => match join_planning::lookup_position(lookup, b.rel.columns) {
                None => Attempt::Declined(b.ctes),
                Some(position) => Attempt::Done(
                    built(
                        looked_up_join(
                            b.rel,
                            lookup,
                            position,
                            j.join_type == JoinType::Left,
                            env.storage->Some_0,
                        ),
                        b.ctes,
                    ),
                ),
            },
        },
    }
}

/// Both inputs of a join, left before right.
pub open spec fn run_both(left: PlanModel, right: PlanModel, env: Env, ctes: Ctes) -> Result<
    (Relation, Relation, Ctes),
    ErrorModel,
>
    decreases subquery::plan_size(left) + subquery::plan_size(right), 4nat, 0nat,
{
    match run(left, env, ctes) {
        Err(e) => Err(e),
        Ok(l) => match run(right, env, l.ctes) {
            Err(e) => Err(e),
            Ok(r) => Ok((l.rel, r.rel, r.ctes)),
        },
    }
}

pub proof fn lemma_plan_size_is_positive(p: PlanModel)
    ensures
        subquery::plan_size(p) >= 2,
{
}

/// A join with a condition, by keys or by testing every pair.
pub open spec fn run_keyed_join(j: JoinNode, env: Env, ctes: Ctes) -> Result<Built, ErrorModel>
    decreases
        subquery::plan_size(j.left) + subquery::plan_size(j.right) + subquery::expr_size(
            j.condition,
        ),
        5nat,
        0nat,
{
    proof {
        lemma_plan_size_is_positive(j.left);
        subquery::lemma_size_is_positive(j.condition);
    }
    match run_both(j.left, j.right, env, ctes) {
        Err(e) => Err(e),
        Ok(both) => match join_condition(j.condition, both.0.columns + both.1.columns, env) {
            Err(e) => Err(e),
            Ok(m) => built(
                join_build::joined_on(
                    both.0,
                    both.1,
                    j.join_type,
                    m,
                    terms(build_side(j.left, j.right, j.join_type == JoinType::Inner, env), env),
                ),
                both.2,
            ),
        },
    }
}

/// A join.
pub open spec fn run_join(
    left: PlanModel,
    right: PlanModel,
    join_type: JoinType,
    on: Option<ExprModel>,
    lateral: bool,
    env: Env,
    ctes: Ctes,
) -> Result<Built, ErrorModel>
    decreases
        subquery::plan_size(left) + subquery::plan_size(right) + (match on {
            Some(e) => subquery::expr_size(e),
            None => 0nat,
        }),
        6nat,
        0nat,
{
    proof {
        lemma_plan_size_is_positive(right);
    }
    if lateral {
        match run_both(left, right, env, ctes) {
            Err(e) => Err(e),
            Ok(both) => built(
                join_build::looped(
                    both.0,
                    both.1,
                    join_type,
                    on,
                    terms(HashJoinBuildSide::Right, env),
                ),
                both.2,
            ),
        }
    } else {
        match on {
            None => match run_both(left, right, env, ctes) {
                Err(e) => Err(e),
                Ok(both) => built(
                    join_build::joined_all(
                        both.0,
                        both.1,
                        join_type,
                        terms(HashJoinBuildSide::Right, env),
                    ),
                    both.2,
                ),
            },
            Some(condition) => {
                let j = JoinNode { left, right, join_type, condition };
                match run_lookup_join(j, env, ctes) {
                    Attempt::Done(r) => r,
                    Attempt::Declined(seen) => run_keyed_join(j, env, seen),
                }
            },
        }
    }
}

/// The inner join that a `SELECT` list of plain columns stands on, with the
/// predicate between them.
pub open spec fn join_below(input: PlanModel) -> Option<(JoinNode, Option<ExprModel>)> {
    match input {
        PlanModel::Join { left, right, join_type, on, lateral } => plain_join(input, None),
        PlanModel::Filter { input: inner, predicate } => plain_join(*inner, Some(predicate)),
        _ => None,
    }
}

/// An inner join on equalities alone.
pub open spec fn plain_join(p: PlanModel, predicate: Option<ExprModel>) -> Option<
    (JoinNode, Option<ExprModel>),
> {
    match p {
        PlanModel::Join { left, right, join_type, on, lateral } => match on {
            Some(condition) => if lateral || join_type != JoinType::Inner || join_keys::combined(
                join_keys::equality_terms(condition),
            ) is None || join_keys::combined(join_keys::other_terms(condition)) is Some {
                None
            } else {
                Some((JoinNode { left: *left, right: *right, join_type, condition }, predicate))
            },
            None => None,
        },
        _ => None,
    }
}

pub proof fn lemma_narrowed_size(p: PlanModel, positions: Seq<usize>)
    ensures
        subquery::plan_size(join_planning::narrowed(p, positions)) == subquery::plan_size(p),
    decreases p,
{
    match p {
        PlanModel::Filter { input, predicate } => {
            lemma_narrowed_size(*input, positions);
        },
        _ => {},
    }
}

/// The inputs of a join under a `SELECT` list, cut down where that saves
/// columns.
pub open spec fn join_inputs(j: JoinNode, predicate: Option<ExprModel>, exprs: Seq<ExprModel>) -> Option<
    (PlanModel, PlanModel),
> {
    match join_planning::compacted(
        j.left,
        j.right,
        join_keys::combined(join_keys::equality_terms(j.condition))->Some_0,
        predicate,
        exprs,
    ) {
        Some(p) => Some(p),
        None => if predicate is Some {
            None
        } else {
            Some((j.left, j.right))
        },
    }
}

pub proof fn lemma_join_inputs_size(
    j: JoinNode,
    predicate: Option<ExprModel>,
    exprs: Seq<ExprModel>,
)
    ensures
        join_inputs(j, predicate, exprs) matches Some(p) ==> subquery::plan_size(p.0)
            == subquery::plan_size(j.left) && subquery::plan_size(p.1) == subquery::plan_size(
            j.right,
        ),
{
    let condition = join_keys::combined(join_keys::equality_terms(j.condition))->Some_0;
    if let Some(lm) = join_planning::needed(j.left, condition, predicate, exprs) {
        lemma_narrowed_size(j.left, join_planning::marked_positions(lm));
    }
    if let Some(rm) = join_planning::needed(j.right, condition, predicate, exprs) {
        lemma_narrowed_size(j.right, join_planning::marked_positions(rm));
    }
}

pub open spec fn opt_plain_size(e: Option<ExprModel>) -> nat {
    match e {
        Some(x) => subquery::expr_size(x),
        None => 0,
    }
}

/// A `SELECT` list over a relation that may have failed.
pub open spec fn shown_result(
    r: Result<Relation, ErrorModel>,
    exprs: Seq<ExprModel>,
    aliases: Seq<Seq<char>>,
    params: Seq<ValueModel>,
) -> Result<Relation, ErrorModel> {
    join_build::projected_relation(r, exprs, aliases, params)
}

/// A join under a `SELECT` list of plain columns, built from both inputs.
pub open spec fn shown_join(
    j: JoinNode,
    predicate: Option<ExprModel>,
    exprs: Seq<ExprModel>,
    aliases: Seq<Seq<char>>,
    both: (Relation, Relation, Ctes),
    m: ExprModel,
    env: Env,
) -> Attempt
    decreases opt_plain_size(predicate), 3nat, 0nat,
{
    let t = terms(build_side(j.left, j.right, true, env), env);
    match predicate {
        None => match join_build::joined_and_shown(both.0, both.1, m, exprs, aliases, t) {
            None => Attempt::Declined(both.2),
            Some(r) => Attempt::Done(built(r, both.2)),
        },
        Some(p) => match join_build::joined_on(both.0, both.1, JoinType::Inner, m, t) {
            Err(e) => Attempt::Done(Err(e)),
            Ok(rel) => match materialized(p, env) {
                Err(e) => Attempt::Done(Err(e)),
                Ok(mp) => Attempt::Done(
                    built(
                        shown_result(
                            join_build::filtered_relation(Ok(rel), Some(mp), env.params),
                            exprs,
                            aliases,
                            env.params,
                        ),
                        both.2,
                    ),
                ),
            },
        },
    }
}

/// A join under a `SELECT` list of plain columns, by keys or by testing every
/// pair.
pub open spec fn run_shown_join(
    j: JoinNode,
    predicate: Option<ExprModel>,
    exprs: Seq<ExprModel>,
    aliases: Seq<Seq<char>>,
    env: Env,
    ctes: Ctes,
) -> Attempt
    decreases
        subquery::plan_size(j.left) + subquery::plan_size(j.right) + subquery::expr_size(
            j.condition,
        ) + opt_plain_size(predicate),
        5nat,
        0nat,
{
    proof {
        lemma_join_inputs_size(j, predicate, exprs);
        lemma_plan_size_is_positive(j.left);
        subquery::lemma_size_is_positive(j.condition);
    }
    match join_inputs(j, predicate, exprs) {
        None => Attempt::Declined(ctes),
        Some(inputs) => match run_both(inputs.0, inputs.1, env, ctes) {
            Err(e) => Attempt::Done(Err(e)),
            Ok(both) => match join_condition(j.condition, both.0.columns + both.1.columns, env) {
                Err(e) => Attempt::Done(Err(e)),
                Ok(m) => shown_join(j, predicate, exprs, aliases, both, m, env),
            },
        },
    }
}

/// A join under a `SELECT` list of plain columns, where it can be done at once.
pub open spec fn run_projected_join(
    input: PlanModel,
    exprs: Seq<ExprModel>,
    aliases: Seq<Seq<char>>,
    env: Env,
    ctes: Ctes,
) -> Attempt
    decreases subquery::plan_size(input), 4nat, 0nat,
{
    proof {
        reveal_with_fuel(subquery::plan_size, 3);
    }
    match join_below(input) {
        None => Attempt::Declined(ctes),
        Some(found) => if !all_columns(exprs, exprs.len()) {
            Attempt::Declined(ctes)
        } else {
            let first = if found.1 is None {
                run_lookup_join(found.0, env, ctes)
            } else {
                Attempt::Declined(ctes)
            };
            match first {
                Attempt::Done(r) => Attempt::Done(
                    match r {
                        Err(e) => Err(e),
                        Ok(b) => built(
                            shown_result(Ok(b.rel), exprs, aliases, env.params),
                            b.ctes,
                        ),
                    },
                ),
                Attempt::Declined(seen) => run_shown_join(
                    found.0,
                    found.1,
                    exprs,
                    aliases,
                    env,
                    seen,
                ),
            }
        },
    }
}

/// A `SELECT` list.
pub open spec fn run_project(
    input: PlanModel,
    exprs: Seq<ExprModel>,
    aliases: Seq<Seq<char>>,
    distinct: bool,
    distinct_on: Option<Seq<ExprModel>>,
    env: Env,
    ctes: Ctes,
) -> Result<Built, ErrorModel>
    decreases subquery::plan_size(input) + subquery::exprs_size(exprs, exprs.len()) + 1, 5nat, 0nat,
{
    if has_window(exprs, exprs.len()) {
        Err(ErrorModel::Unsupported("Operator not yet implemented: WindowFunction"@))
    } else {
        let first = if !distinct && distinct_on is None {
            run_projected_join(input, exprs, aliases, env, ctes)
        } else {
            Attempt::Declined(ctes)
        };
        match first {
            Attempt::Done(r) => r,
            Attempt::Declined(seen) => match run(input, env, seen) {
                Err(e) => Err(e),
                Ok(b) => {
                    proof {
                        lemma_plan_size_is_positive(input);
                    }
                    built(project_above(b, exprs, aliases, distinct, distinct_on, env), b.ctes)
                },
            },
        }
    }
}

/// A sum that stops at the largest `usize`.
pub open spec fn row_budget(limit: usize, offset: usize) -> usize {
    join_pair::capped((limit + offset) as nat)
}

/// A sort over a built input.
pub open spec fn sort_above(rel: Relation, exprs: Seq<ExprModel>, asc: Seq<bool>, env: Env) -> Result<
    Relation,
    ErrorModel,
> {
    match all_rows(rel.rows) {
        Err(e) => Err(e),
        Ok(rows) => match sort::sorted_rows(rows, exprs, asc, rel.columns, env.params) {
            Err(e) => Err(e),
            Ok(sorted) => Ok(under_limit(rel.columns, sorted)),
        },
    }
}

pub open spec fn limited(rel: Relation, limit: usize, offset: usize) -> Relation {
    Relation {
        columns: rel.columns,
        rows: project::window(rel.rows, offset as nat, limit as nat),
        timed: rel.timed,
    }
}

/// Whether a plan is a `SELECT` list that gives one row for each row of the scan
/// below it.
pub open spec fn is_list_over_scan(p: PlanModel) -> bool {
    match p {
        PlanModel::Project { input, exprs, aliases, distinct, distinct_on, source_alias } =>
            scan_node(*input) is Some && !distinct && distinct_on is None && !has_window(
            exprs,
            exprs.len(),
        ),
        _ => false,
    }
}

/// The first rows of a `SELECT` list over a scan: the scan is cut, so that the list
/// is computed for no other row.
pub open spec fn limited_list(
    input: PlanModel,
    limit: usize,
    offset: usize,
    env: Env,
    ctes: Ctes,
) -> Result<Relation, ErrorModel>
    decreases subquery::plan_size(input), 4nat, 0nat,
{
    match input {
        PlanModel::Project { input: inner, exprs, aliases, distinct, distinct_on, source_alias } =>
            match scan_rows(scan_node(*inner)->Some_0, env, ctes) {
            Err(e) => Err(e),
            Ok(rel) => project_above(
                (Built { rel: limited(rel, limit, offset), ctes }),
                exprs,
                aliases,
                distinct,
                distinct_on,
                env,
            ),
        },
        _ => Ok(nothing()),
    }
}

/// The first rows in some order.
pub open spec fn top_rows(
    input: PlanModel,
    exprs: Seq<ExprModel>,
    asc: Seq<bool>,
    k: usize,
    env: Env,
    ctes: Ctes,
) -> Result<Built, ErrorModel>
    decreases subquery::plan_size(input), 4nat, 0nat,
{
    match run(input, env, ctes) {
        Err(e) => Err(e),
        Ok(b) => match sort_above(b.rel, exprs, asc, env) {
            Err(e) => Err(e),
            Ok(rel) => Ok(Built { rel: limited(rel, k, 0), ctes: b.ctes }),
        },
    }
}

pub proof fn lemma_served_sizes(input: PlanModel, env: Env, ctes: Ctes)
    ensures
        ordered_topk::served_by_index(input, env, ctes) matches Some(t) ==> opt_plain_size(
            t.predicate,
        ) < subquery::plan_size(input) && (t.wrap matches Some(w) ==> subquery::exprs_size(
            w.exprs,
            w.exprs.len(),
        ) < subquery::plan_size(input)),
{
    reveal_with_fuel(subquery::plan_size, 4);
}

pub open spec fn materialized_plain(e: Option<ExprModel>, env: Env) -> Result<
    Option<ExprModel>,
    ErrorModel,
>
    decreases opt_plain_size(e), 2nat, 0nat,
{
    match e {
        None => Ok(None),
        Some(x) => match materialized(x, env) {
            Err(err) => Err(err),
            Ok(m) => Ok(Some(m)),
        },
    }
}

/// What an index is asked for the first rows in its order.
pub open spec fn topk_query(t: TopkModel, predicate: Option<ExprModel>, k: usize, env: Env) -> TopkQuery {
    TopkQuery {
        rows: sources::rows_of_table(env.storage->Some_0.tables, t.node.table),
        at: t.at,
        predicate,
        cols: sources::sourced(
            t.node.cols,
            sources::source_name(t.node.alias, t.node.table),
            t.node.table,
        ),
        params: env.params,
        k: k as nat,
    }
}

/// The first rows of a table in the order of an index.
pub open spec fn topk_rows(t: TopkModel, predicate: Option<ExprModel>, k: usize, env: Env) -> Result<
    Seq<TupleModel>,
    ErrorModel,
> {
    let entries = sources::known_entries(env.storage->Some_0, t.index);
    let total = entries.len() as usize;
    ordered_topk::ordered_rows(
        storage_view::entries_within(entries, t.lower, t.upper),
        ordered_topk::first_fetch(k, total),
        total,
        topk_query(t, predicate, k, env),
    )
}

/// The `SELECT` list above a sort, over the sorted rows.
pub open spec fn wrapped(rel: Relation, wrap: Option<WrapModel>, env: Env) -> Result<
    Relation,
    ErrorModel,
>
    decreases
        match wrap {
            Some(w) => subquery::exprs_size(w.exprs, w.exprs.len()),
            None => 0nat,
        },
        4nat,
        0nat,
{
    match wrap {
        None => Ok(rel),
        Some(w) => select_above(rel, w.exprs, w.aliases, w.distinct, w.distinct_on, env),
    }
}

/// A limit over a sort that an index serves.
pub open spec fn run_ordered(
    input: PlanModel,
    limit: usize,
    offset: usize,
    env: Env,
    ctes: Ctes,
) -> Result<Option<Relation>, ErrorModel>
    decreases subquery::plan_size(input), 4nat, 0nat,
{
    proof {
        lemma_served_sizes(input, env, ctes);
    }
    match ordered_topk::served_by_index(input, env, ctes) {
        None => Ok(None),
        Some(t) => match materialized_plain(t.predicate, env) {
            Err(e) => Err(e),
            Ok(m) => match topk_rows(t, m, row_budget(limit, offset), env) {
                Err(e) => Err(e),
                Ok(rows) => {
                    let cols = sources::sourced(
                        t.node.cols,
                        sources::source_name(t.node.alias, t.node.table),
                        t.node.table,
                    );
                    match wrapped(scanned(t.node, cols, rows), t.wrap, env) {
                        Err(e) => Err(e),
                        Ok(rel) => Ok(Some(limited(rel, limit, offset))),
                    }
                },
            },
        },
    }
}

/// A limit over a sort.
pub open spec fn limit_sorted(
    input: PlanModel,
    limit: usize,
    offset: usize,
    env: Env,
    ctes: Ctes,
) -> Result<Built, ErrorModel>
    decreases subquery::plan_size(input), 5nat, 0nat,
{
    proof {
        reveal_with_fuel(subquery::plan_size, 3);
    }
    match run_ordered(input, limit, offset, env, ctes) {
        Err(e) => Err(e),
        Ok(Some(rel)) => Ok(Built { rel, ctes }),
        Ok(None) => match ordered_topk::sort_below(input) {
            None => limit_above(input, limit, offset, env, ctes),
            Some(s) => match top_rows(
                s.input,
                s.exprs,
                s.asc,
                row_budget(limit, offset),
                env,
                ctes,
            ) {
                Err(e) => Err(e),
                Ok(b) => match wrapped(b.rel, s.wrap, env) {
                    Err(e) => Err(e),
                    Ok(rel) => Ok(Built { rel: limited(rel, limit, offset), ctes: b.ctes }),
                },
            },
        },
    }
}

/// A `LIMIT` whose numbers are known.
pub open spec fn limit_known(
    input: PlanModel,
    limit: usize,
    offset: usize,
    env: Env,
    ctes: Ctes,
) -> Result<Built, ErrorModel>
    decreases subquery::plan_size(input), 6nat, 0nat,
{
    if is_list_over_scan(input) {
        built(limited_list(input, limit, offset, env, ctes), ctes)
    } else if scan_below(input) is Some || limit == usize::MAX {
        limit_above(input, limit, offset, env, ctes)
    } else {
        limit_sorted(input, limit, offset, env, ctes)
    }
}

/// A window over a built input.
pub open spec fn limit_above(
    input: PlanModel,
    limit: usize,
    offset: usize,
    env: Env,
    ctes: Ctes,
) -> Result<Built, ErrorModel>
    decreases subquery::plan_size(input), 4nat, 0nat,
{
    match run(input, env, ctes) {
        Err(e) => Err(e),
        Ok(b) => Ok(Built { rel: limited(b.rel, limit, offset), ctes: b.ctes }),
    }
}

/// The first `n` rows whose values no earlier row has.
pub open spec fn distinct_rows(rows: Seq<TupleModel>, n: nat) -> Seq<TupleModel>
    decreases n,
{
    if n == 0 || n > rows.len() {
        Seq::empty()
    } else {
        let before = distinct_rows(rows, (n - 1) as nat);
        if has_values(before, rows[n - 1].values) {
            before
        } else {
            before.push(rows[n - 1])
        }
    }
}

/// Whether a row has some values.
pub open spec fn has_values(rows: Seq<TupleModel>, values: Seq<ValueModel>) -> bool {
    exists|i: int| 0 <= i < rows.len() && (#[trigger] rows[i]).values == values
}

/// The rows of one relation, then those of another.
pub open spec fn run_union(left: PlanModel, right: PlanModel, all: bool, env: Env, ctes: Ctes) -> Result<
    Built,
    ErrorModel,
>
    decreases subquery::plan_size(left) + subquery::plan_size(right), 5nat, 0nat,
{
    match run_both(left, right, env, ctes) {
        Err(e) => Err(e),
        Ok(both) => match (all_rows(both.0.rows), all_rows(both.1.rows)) {
            (Err(e), _) => Err(e),
            (_, Err(e)) => Err(e),
            (Ok(l), Ok(r)) => Ok(
                Built {
                    rel: at_hand(
                        both.0.columns,
                        if all {
                            l + r
                        } else {
                            distinct_rows(l + r, (l + r).len())
                        },
                    ),
                    ctes: both.2,
                },
            ),
        },
    }
}

/// The rows of one relation that a set operation with another leaves.
pub open spec fn run_set_operation(
    left: PlanModel,
    right: PlanModel,
    op: SetOperation,
    all: bool,
    env: Env,
    ctes: Ctes,
) -> Result<Built, ErrorModel>
    decreases subquery::plan_size(left) + subquery::plan_size(right), 5nat, 0nat,
{
    match run_both(left, right, env, ctes) {
        Err(e) => Err(e),
        Ok(both) => match (all_rows(both.0.rows), all_rows(both.1.rows)) {
            (Err(e), _) => Err(e),
            (_, Err(e)) => Err(e),
            (Ok(l), Ok(r)) => Ok(
                Built {
                    rel: at_hand(both.0.columns, set_ops::picked(op, all, l, r, l.len())),
                    ctes: both.2,
                },
            ),
        },
    }
}

/// How often a recursive common table expression is evaluated at most.
pub const MAX_RECURSION_DEPTH: usize = 1000;

/// The rows among the first `n` that are not among others.
pub open spec fn new_rows(rows: Seq<TupleModel>, n: nat, known: Seq<TupleModel>) -> Seq<TupleModel>
    decreases n,
{
    if n == 0 || n > rows.len() {
        Seq::empty()
    } else {
        let before = new_rows(rows, (n - 1) as nat, known);
        if known.contains(rows[n - 1]) {
            before
        } else {
            before.push(rows[n - 1])
        }
    }
}

/// The rows of a recursive common table expression: evaluated over the rows
/// that the last evaluation added, until it adds none.
pub open spec fn fixpoint(
    p: PlanModel,
    name: Seq<char>,
    cols: Seq<ColumnModel>,
    all: Seq<TupleModel>,
    last: Seq<TupleModel>,
    k: nat,
    env: Env,
    ctes: Ctes,
) -> Result<(Seq<TupleModel>, Ctes), ErrorModel>
    decreases subquery::plan_size(p), 4nat, (MAX_RECURSION_DEPTH - k) as nat,
{
    if last.len() == 0 || k >= MAX_RECURSION_DEPTH {
        Ok((all, ctes))
    } else {
        match run(p, env, with_cte(ctes, (CteModel { name, rows: last, columns: cols }))) {
            Err(e) => Err(e),
            Ok(b) => match all_rows(b.rel.rows) {
                Err(e) => Err(e),
                Ok(rows) => {
                    let more = new_rows(rows, rows.len(), all);
                    fixpoint(p, name, cols, all + more, more, k + 1, env, b.ctes)
                },
            },
        }
    }
}

/// The common table expressions after one more of them was evaluated.
pub open spec fn run_cte(
    name: Seq<char>,
    p: PlanModel,
    names: Option<Seq<Seq<char>>>,
    recursive: bool,
    env: Env,
    ctes: Ctes,
) -> Result<Ctes, ErrorModel>
    decreases subquery::plan_size(p), 5nat, 0nat,
{
    let cols = sources::cte_columns(p, names);
    let start = if recursive {
        with_cte(ctes, (CteModel { name, rows: Seq::empty(), columns: cols }))
    } else {
        ctes
    };
    match run(p, env, start) {
        Err(e) => Err(e),
        Ok(b) => match all_rows(b.rel.rows) {
            Err(e) => Err(e),
            Ok(rows) => if recursive {
                match fixpoint(p, name, cols, rows, rows, 0, env, b.ctes) {
                    Err(e) => Err(e),
                    Ok(end) => Ok(
                        with_cte(end.1, (CteModel { name, rows: end.0, columns: cols })),
                    ),
                }
            } else {
                Ok(with_cte(b.ctes, (CteModel { name, rows, columns: cols })))
            },
        },
    }
}

/// The common table expressions after the first `n` of a list were evaluated.
pub open spec fn run_ctes(
    list: Seq<(Seq<char>, Box<PlanModel>, Option<Seq<Seq<char>>>)>,
    n: nat,
    recursive: bool,
    env: Env,
    ctes: Ctes,
) -> Result<Ctes, ErrorModel>
    decreases subquery::ctes_size(list, list.len()), 6nat, n,
{
    if n == 0 || n > list.len() {
        Ok(ctes)
    } else {
        proof {
            subquery::lemma_cte_in_list(list, n - 1, list.len());
        }
        match run_ctes(list, (n - 1) as nat, recursive, env, ctes) {
            Err(e) => Err(e),
            Ok(c) => run_cte(
                list[n - 1].0,
                *list[n - 1].1,
                list[n - 1].2,
                recursive,
                env,
                c,
            ),
        }
    }
}

/// The column of a count.
pub open spec fn count_column() -> ColumnModel {
    ColumnModel { nullable: false, ..schema::plain_column("agg_0"@, DataType::Int8) }
}

/// A count as the one row of a relation.
pub open spec fn counted(n: nat) -> Relation {
    at_hand(seq![count_column()], seq![scan::number_row(n as int)])
}

/// Whether an aggregation is `COUNT(*)` and nothing else.
pub open spec fn is_count_star(
    group_by: Seq<ExprModel>,
    aggr_exprs: Seq<ExprModel>,
    having: Option<ExprModel>,
) -> bool {
    group_by.len() == 0 && having is None && aggr_exprs.len() == 1 && (match aggr_exprs[0] {
        ExprModel::AggregateFunction { fun, args, distinct } => fun == AggregateFunction::Count
            && !distinct && args.len() > 0 && args[0] is Wildcard,
        _ => false,
    })
}

/// How many of the first `n` rows a predicate is true on.
pub open spec fn true_rows(
    rows: Seq<TupleModel>,
    n: nat,
    predicate: ExprModel,
    cols: Seq<ColumnModel>,
    params: Seq<ValueModel>,
) -> Result<nat, ErrorModel>
    decreases n,
{
    if n == 0 || n > rows.len() {
        Ok(0)
    } else {
        match true_rows(rows, (n - 1) as nat, predicate, cols, params) {
            Err(e) => Err(e),
            Ok(k) => match evaluator::eval(predicate, cols, params, rows[n - 1].values) {
                Err(e) => Err(e),
                Ok(v) => if v == ValueModel::Boolean(true) {
                    Ok(k + 1)
                } else {
                    Ok(k)
                },
            },
        }
    }
}

/// A predicate that fails on some row fails on all of them.
pub proof fn lemma_true_rows_stop(
    rows: Seq<TupleModel>,
    n: nat,
    m: nat,
    predicate: ExprModel,
    cols: Seq<ColumnModel>,
    params: Seq<ValueModel>,
)
    requires
        n <= m <= rows.len(),
        true_rows(rows, n, predicate, cols, params) is Err,
    ensures
        true_rows(rows, m, predicate, cols, params) == true_rows(rows, n, predicate, cols, params),
    decreases m - n,
{
    if n < m {
        lemma_true_rows_stop(rows, n, (m - 1) as nat, predicate, cols, params);
    }
}

/// How many rows a stored table or materialized view has.
pub open spec fn stored_count(table: Seq<char>, s: storage_view::StoreModel) -> Result<
    nat,
    ErrorModel,
> {
    match sources::counted_table(Some(s), table) {
        Err(e) => Err(e),
        Ok(name) => match storage_view::table_named(s.tables, name, 0) {
            None => Err(sources::no_such_table(name)),
            Some(t) => Ok(t.rows.len()),
        },
    }
}

pub open spec fn count_result(n: Result<nat, ErrorModel>) -> Result<Relation, ErrorModel> {
    match n {
        Ok(n) => Ok(counted(n)),
        Err(e) => Err(e),
    }
}

/// How many rows a predicate on the primary key of a table asks for, where it
/// asks for nothing else.
pub open spec fn keyed(n: ScanNode, predicate: ExprModel, env: Env, ctes: Ctes) -> Result<
    Option<nat>,
    ErrorModel,
>
    decreases subquery::expr_size(predicate), 2nat, 0nat,
{
    if !sources::can_look_up(env, ctes(n.table), n.table, n.as_of) {
        Ok(None)
    } else {
        match key_range::single_key(n.cols, 0) {
            None => Ok(None),
            Some(at) => match materialized(predicate, env) {
                Err(e) => Err(e),
                Ok(m) => Ok(
                    key_range::key_count(
                        m,
                        n.cols,
                        at,
                        sources::rows_of_table(env.storage->Some_0.tables, n.table),
                        env.params,
                    ),
                ),
            },
        }
    }
}

/// How many rows of a scan an index or the primary key has for a predicate.
pub open spec fn quick_count(n: ScanNode, predicate: ExprModel, env: Env, ctes: Ctes) -> Result<
    Option<nat>,
    ErrorModel,
>
    decreases subquery::expr_size(predicate), 3nat, 0nat,
{
    match pointed(n, predicate, env, ctes) {
        Err(e) => Err(e),
        Ok(Some(rel)) => Ok(Some(rel.rows.rows.len())),
        Ok(None) => keyed(n, predicate, env, ctes),
    }
}

/// As many as a relation has rows.
pub open spec fn count_of(r: Result<Built, ErrorModel>) -> Result<Built, ErrorModel> {
    match r {
        Err(e) => Err(e),
        Ok(b) => match b.rel.rows.end {
            Some(e) => Err(e),
            None => Ok(Built { rel: counted(b.rel.rows.rows.len()), ctes: b.ctes }),
        },
    }
}

/// Whether the rows of a plan are the current rows of a stored table, one for one.
pub open spec fn counts_as_stored(p: PlanModel, env: Env, ctes: Ctes) -> bool {
    &&& scan_node(p) is Some || is_list_over_scan(p)
    &&& scan_below(p) matches Some(n) && sources::can_look_up(env, ctes(n.table), n.table, n.as_of)
    &&& env.transaction is None
    &&& storage_view::table_named(
        env.storage->Some_0.system_views,
        scan_below(p)->Some_0.table,
        0,
    ) is None
}

/// Whether `COUNT(*)` of a filter over a plan tests the rows of a scan itself.
pub open spec fn tests_stored_rows(p: PlanModel, env: Env, ctes: Ctes) -> bool {
    &&& env.storage is Some
    &&& !is_windowed(p)
    &&& scan_below(p) matches Some(n)
    &&& ctes(n.table) is None
}

/// As many rows as a predicate is true on. A value that is no truth value counts as
/// false here, as NULL does.
pub open spec fn count_true(
    rel: Relation,
    predicate: ExprModel,
    params: Seq<ValueModel>,
) -> Result<Relation, ErrorModel> {
    match true_rows(rel.rows.rows, rel.rows.rows.len(), predicate, rel.columns, params) {
        Err(e) => Err(e),
        Ok(k) => match rel.rows.end {
            Some(e) => Err(e),
            None => Ok(counted(k)),
        },
    }
}

/// `COUNT(*)` of the rows of a plan that a predicate keeps.
pub open spec fn count_tested(inner: PlanModel, predicate: ExprModel, env: Env, ctes: Ctes) -> Result<
    Built,
    ErrorModel,
>
    decreases subquery::plan_size(inner) + subquery::expr_size(predicate) + 1, 5nat, 0nat,
{
    proof {
        subquery::lemma_size_is_positive(predicate);
    }
    match run(inner, env, ctes) {
        Err(e) => Err(e),
        Ok(b) => if subquery::correlated(predicate, b.rel.columns) {
            count_of(built(filter_above(b, predicate, env), b.ctes))
        } else {
            match materialized(predicate, env) {
                Err(e) => Err(e),
                Ok(m) => built(count_true(b.rel, m, env.params), b.ctes),
            }
        },
    }
}

/// `COUNT(*)`: what a stored table, an index or the primary key tells, or as many rows
/// of a scan as a predicate is true on, else as many as the input gives rows.
pub open spec fn run_count(input: PlanModel, env: Env, ctes: Ctes) -> Result<Built, ErrorModel>
    decreases subquery::plan_size(input), 6nat, 0nat,
{
    if counts_as_stored(input, env, ctes) {
        built(
            count_result(stored_count(scan_below(input)->Some_0.table, env.storage->Some_0)),
            ctes,
        )
    } else {
        let quick = match input {
            PlanModel::Filter { input: inner, predicate } => match scan_node(*inner) {
                Some(n) => quick_count(n, predicate, env, ctes),
                None => Ok(None),
            },
            PlanModel::FilteredScan {
                table_name,
                alias,
                schema,
                projection,
                predicate,
                as_of,
            } => match predicate {
                Some(e) => quick_count(
                    (ScanNode { table: table_name, alias, cols: schema, projection, as_of }),
                    e,
                    env,
                    ctes,
                ),
                None => Ok(None),
            },
            _ => Ok(None),
        };
        match quick {
            Err(e) => Err(e),
            Ok(Some(k)) => Ok(Built { rel: counted(k), ctes }),
            Ok(None) => match input {
                PlanModel::Filter { input: inner, predicate } => if tests_stored_rows(
                    *inner,
                    env,
                    ctes,
                ) {
                    count_tested(*inner, predicate, env, ctes)
                } else {
                    count_of(run(input, env, ctes))
                },
                _ => count_of(run(input, env, ctes)),
            },
        }
    }
}

/// Creating an extension.
pub open spec fn created_extension(name: Seq<char>, if_not_exists: bool) -> Result<
    Relation,
    ErrorModel,
> {
    if name == "hdb_code"@ {
        Err(
            query_error(
                "CREATE EXTENSION hdb_code requires the `code-graph` feature flag at build time"@,
            ),
        )
    } else if if_not_exists {
        Ok(nothing())
    } else {
        Err(query_error("unknown extension: '"@ + name + "' (known: hdb_code)"@))
    }
}

pub open spec fn dropped_message(what: Seq<char>, name: Seq<char>, if_exists: bool) -> Seq<char> {
    if if_exists {
        what + " '"@ + name + "' dropped (if exists)"@
    } else {
        what + " '"@ + name + "' dropped"@
    }
}

/// A statement on the cluster that the node is in; a node that can be in none has no
/// operator for it.
pub open spec fn run_on_cluster(p: PlanModel, env: Env) -> Result<Relation, ErrorModel> {
    let answer = match env.cluster {
        Some(c) => cluster::cluster_answer(p, c),
        None => None,
    };
    match answer {
        Some(r) => r,
        None => Err(not_implemented(p)),
    }
}

/// What the statements give that read no rows.
pub open spec fn run_statement(p: PlanModel, env: Env) -> Result<Relation, ErrorModel> {
    match p {
        PlanModel::Rows { schema, rows } => Ok(at_hand(schema, rows)),
        PlanModel::DualScan => Ok(
            at_hand(Seq::empty(), seq![schema::loose_row(Seq::empty())]),
        ),
        PlanModel::CreateSchema { name, if_not_exists } => Ok(no_result()),
        PlanModel::DropExtension { name } => Ok(no_result()),
        PlanModel::CreateDatabase { name } => Ok(no_result()),
        PlanModel::DropDatabase { name } => Ok(no_result()),
        PlanModel::CreateExtension { name, if_not_exists } => created_extension(
            name,
            if_not_exists,
        ),
        PlanModel::CreateFunction { name } => Ok(
            status("Function '"@ + name + "' created"@),
        ),
        PlanModel::CreateProcedure { name } => Ok(
            status("Procedure '"@ + name + "' created"@),
        ),
        PlanModel::DropFunction { name, if_exists } => Ok(
            status(dropped_message("Function"@, name, if_exists)),
        ),
        PlanModel::DropProcedure { name, if_exists } => Ok(
            status(dropped_message("Procedure"@, name, if_exists)),
        ),
        PlanModel::Call { name, args } => Ok(
            status(
                "Procedure '"@ + name + "' called with "@ + text::decimal(args.len())
                    + " arguments"@,
            ),
        ),
        PlanModel::Explain { input, options } => Err(left_unanswered(p)),
        _ => match ddl::ddl_action(p, env.storage) {
            Some(Err(e)) => Err(e),
            Some(Ok(a)) => Ok(no_result()),
            None => run_on_cluster(p, env),
        },
    }
}

/// What a plan gives.
pub open spec fn run(p: PlanModel, env: Env, ctes: Ctes) -> Result<Built, ErrorModel>
    decreases subquery::plan_size(p), 3nat, 0nat,
{
    match p {
        PlanModel::Scan { table_name, alias, schema, projection, as_of } => built(
            scan_rows(
                (ScanNode { table: table_name, alias, cols: schema, projection, as_of }),
                env,
                ctes,
            ),
            ctes,
        ),
        PlanModel::FilteredScan { table_name, alias, schema, projection, predicate, as_of } => {
            let n = ScanNode { table: table_name, alias, cols: schema, projection, as_of };
            match predicate {
                None => built(scan_rows(n, env, ctes), ctes),
                Some(e) => built(run_filtered_scan(n, e, env, ctes), ctes),
            }
        },
        PlanModel::TableFunction { function_name, args, alias } => match
            table_function::function_rows(function_name, args, alias, env.params) {
            Err(e) => Err(e),
            Ok(r) => Ok(Built { rel: at_hand(r.0, r.1), ctes }),
        },
        PlanModel::Filter { input, predicate } => run_filter(*input, predicate, env, ctes),
        PlanModel::Project { input, exprs, aliases, distinct, distinct_on, source_alias } =>
            run_project(*input, exprs, aliases, distinct, distinct_on, env, ctes),
        PlanModel::Limit { input, limit, offset, limit_param, offset_param } => match
            sources::bound_value(limit, limit_param, env.params) {
            Err(e) => Err(e),
            Ok(l) => match sources::bound_value(offset, offset_param, env.params) {
                Err(e) => Err(e),
                Ok(o) => limit_known(*input, l, o, env, ctes),
            },
        },
        PlanModel::Sort { input, exprs, asc } => match run(*input, env, ctes) {
            Err(e) => Err(e),
            Ok(b) => built(sort_above(b.rel, exprs, asc, env), b.ctes),
        },
        PlanModel::Aggregate { input, group_by, aggr_exprs, having } => if is_count_star(
            group_by,
            aggr_exprs,
            having,
        ) {
            run_count(*input, env, ctes)
        } else {
            Err(left_unanswered(p))
        },
        PlanModel::Join { left, right, join_type, on, lateral } => run_join(
            *left,
            *right,
            join_type,
            on,
            lateral,
            env,
            ctes,
        ),
        PlanModel::Union { left, right, all } => run_union(*left, *right, all, env, ctes),
        PlanModel::Intersect { left, right, all } => run_set_operation(
            *left,
            *right,
            SetOperation::Intersect,
            all,
            env,
            ctes,
        ),
        PlanModel::Except { left, right, all } => run_set_operation(
            *left,
            *right,
            SetOperation::Except,
            all,
            env,
            ctes,
        ),
        PlanModel::With { ctes: list, query, recursive } => match run_ctes(
            list,
            list.len(),
            recursive,
            env,
            ctes,
        ) {
            Err(e) => Err(e),
            Ok(c) => run(*query, env, c),
        },
        _ => built(run_statement(p, env), ctes),
    }
}

/// Whether a `SELECT` list has window functions.
pub open spec fn is_windowed(p: PlanModel) -> bool {
    match p {
        PlanModel::Project { input, exprs, aliases, distinct, distinct_on, source_alias } =>
            has_window(exprs, exprs.len()),
        _ => false,
    }
}

/// Whether a plan cannot be built before the database around the executor has
/// answered a part of it: an aggregation other than `COUNT(*)`, window functions, or
/// `EXPLAIN`.
pub open spec fn left_to_database(p: PlanModel) -> bool
    decreases p,
{
    match p {
        PlanModel::Aggregate { input, group_by, aggr_exprs, having } => !is_count_star(
            group_by,
            aggr_exprs,
            having,
        ) || left_to_database(*input),
        PlanModel::Project { input, exprs, aliases, distinct, distinct_on, source_alias } =>
            is_windowed(p) || left_to_database(*input),
        PlanModel::Filter { input, predicate } => left_to_database(*input),
        PlanModel::Sort { input, exprs, asc } => left_to_database(*input),
        PlanModel::Limit { input, limit, offset, limit_param, offset_param } => limit_param is None
            && offset_param is None && !is_windowed(*input) && left_to_database(*input),
        PlanModel::Union { left, right, all } => left_to_database(*left),
        PlanModel::Intersect { left, right, all } => left_to_database(*left),
        PlanModel::Except { left, right, all } => left_to_database(*left),
        PlanModel::Explain { input, options } => true,
        _ => false,
    }
}

/// Whether a plan is answered with a refusal, and with no rows.
pub open spec fn is_refused(r: Result<Built, ErrorModel>) -> bool {
    r matches Err(e) && e is Unsupported
}

/// What is left to the database is refused, whatever it runs on.
pub proof fn law_what_is_left_to_the_database_is_refused(p: PlanModel, env: Env, ctes: Ctes)
    requires
        left_to_database(p),
    ensures
        is_refused(run(p, env, ctes)),
    decreases p,
{
    match p {
        PlanModel::Aggregate { input, group_by, aggr_exprs, having } => {
            if is_count_star(group_by, aggr_exprs, having) {
                law_what_is_left_to_the_database_is_refused(*input, env, ctes);
            }
            lemma_refused_aggregation(p, env, ctes);
        },
        PlanModel::Project { input, exprs, aliases, distinct, distinct_on, source_alias } => {
            if !is_windowed(p) {
                law_what_is_left_to_the_database_is_refused(*input, env, ctes);
            }
            lemma_refused_list(*input, exprs, aliases, distinct, distinct_on, env, ctes);
        },
        PlanModel::Limit { input, limit, offset, limit_param, offset_param } => {
            law_what_is_left_to_the_database_is_refused(*input, env, ctes);
            lemma_left_below_a_limit(*input, limit, offset, env, ctes);
        },
        PlanModel::Filter { input, predicate } => {
            law_what_is_left_to_the_database_is_refused(*input, env, ctes);
            lemma_refused_input(p, *input, env, ctes);
        },
        PlanModel::Sort { input, exprs, asc } => {
            law_what_is_left_to_the_database_is_refused(*input, env, ctes);
            lemma_refused_input(p, *input, env, ctes);
        },
        PlanModel::Union { left, right, all } => {
            law_what_is_left_to_the_database_is_refused(*left, env, ctes);
            lemma_refused_input(p, *left, env, ctes);
        },
        PlanModel::Intersect { left, right, all } => {
            law_what_is_left_to_the_database_is_refused(*left, env, ctes);
            lemma_refused_input(p, *left, env, ctes);
        },
        PlanModel::Except { left, right, all } => {
            law_what_is_left_to_the_database_is_refused(*left, env, ctes);
            lemma_refused_input(p, *left, env, ctes);
        },
        _ => {
            assert(p is Explain);
        },
    }
}

/// A plan that builds one of its inputs first is refused with it.
proof fn lemma_refused_input(p: PlanModel, input: PlanModel, env: Env, ctes: Ctes)
    requires
        left_to_database(input),
        is_refused(run(input, env, ctes)),
        match p {
            PlanModel::Filter { input: i, predicate } => *i == input,
            PlanModel::Sort { input: i, exprs, asc } => *i == input,
            PlanModel::Union { left, right, all } => *left == input,
            PlanModel::Intersect { left, right, all } => *left == input,
            PlanModel::Except { left, right, all } => *left == input,
            _ => false,
        },
    ensures
        is_refused(run(p, env, ctes)),
{
    lemma_left_has_no_shortcut(input);
    match p {
        PlanModel::Filter { input: i, predicate } => {
            assert(is_refused(run_filter(input, predicate, env, ctes)));
        },
        PlanModel::Union { left, right, all } => {
            assert(is_refused(run_union(input, *right, all, env, ctes)));
        },
        PlanModel::Intersect { left, right, all } => {
            assert(is_refused(
                run_set_operation(input, *right, SetOperation::Intersect, all, env, ctes),
            ));
        },
        PlanModel::Except { left, right, all } => {
            assert(is_refused(
                run_set_operation(input, *right, SetOperation::Except, all, env, ctes),
            ));
        },
        _ => {},
    }
}

proof fn lemma_refused_aggregation(p: PlanModel, env: Env, ctes: Ctes)
    requires
        match p {
            PlanModel::Aggregate { input, group_by, aggr_exprs, having } => !is_count_star(
                group_by,
                aggr_exprs,
                having,
            ) || (left_to_database(*input) && is_refused(run(*input, env, ctes))),
            _ => false,
        },
    ensures
        is_refused(run(p, env, ctes)),
{
    if let PlanModel::Aggregate { input, group_by, aggr_exprs, having } = p {
        if is_count_star(group_by, aggr_exprs, having) {
            lemma_refused_count(*input, env, ctes);
        }
    }
}

proof fn lemma_refused_count(p: PlanModel, env: Env, ctes: Ctes)
    requires
        left_to_database(p),
        is_refused(run(p, env, ctes)),
    ensures
        is_refused(run_count(p, env, ctes)),
{
    lemma_left_has_no_shortcut(p);
    assert(!counts_as_stored(p, env, ctes));
    if let PlanModel::Filter { input, predicate } = p {
        lemma_left_has_no_shortcut(*input);
        assert(!tests_stored_rows(*input, env, ctes));
    }
    assert(is_refused(count_of(run(p, env, ctes))));
}

proof fn lemma_refused_list(
    p: PlanModel,
    exprs: Seq<ExprModel>,
    aliases: Seq<Seq<char>>,
    distinct: bool,
    distinct_on: Option<Seq<ExprModel>>,
    env: Env,
    ctes: Ctes,
)
    requires
        has_window(exprs, exprs.len()) || (left_to_database(p) && is_refused(run(p, env, ctes))),
    ensures
        is_refused(run_project(p, exprs, aliases, distinct, distinct_on, env, ctes)),
{
    if !has_window(exprs, exprs.len()) {
        lemma_left_has_no_shortcut(p);
        assert(run_projected_join(p, exprs, aliases, env, ctes) == Attempt::Declined(ctes));
    }
}

/// No shortcut of scans, joins and counts takes a plan that is left to the database.
proof fn lemma_left_has_no_shortcut(p: PlanModel)
    requires
        left_to_database(p),
    ensures
        scan_node(p) is None,
        !is_list_over_scan(p),
        scan_below(p) is Some ==> is_windowed(p),
        join_below(p) is None,
        p matches PlanModel::Filter { input, predicate } ==> scan_node(*input) is None,
        !(p is FilteredScan),
        !is_windowed(p) ==> match ordered_topk::sort_below(p) {
            Some(s) => left_to_database(s.input),
            None => true,
        },
{
    reveal_with_fuel(left_to_database, 3);
}

proof fn lemma_left_below_a_limit(p: PlanModel, limit: usize, offset: usize, env: Env, ctes: Ctes)
    requires
        left_to_database(p),
        !is_windowed(p),
        is_refused(run(p, env, ctes)),
    ensures
        is_refused(limit_known(p, limit, offset, env, ctes)),
    decreases p,
{
    lemma_left_has_no_shortcut(p);
    match ordered_topk::sort_below(p) {
        Some(s) => {
            law_what_is_left_to_the_database_is_refused(s.input, env, ctes);
            lemma_left_has_no_shortcut(s.input);
        },
        None => {},
    }
    assert(ordered_topk::served_by_index(p, env, ctes) is None);
    assert(run_ordered(p, limit, offset, env, ctes) == Ok::<Option<Relation>, ErrorModel>(None));
    assert(is_refused(limit_sorted(p, limit, offset, env, ctes)));
}

/// Outer values in a plan leave it to the database as it was.
proof fn lemma_filled_left_to_database(p: PlanModel, o: OuterRow)
    ensures
        left_to_database(subquery::filled_plan(p, o)) == left_to_database(p),
        is_windowed(subquery::filled_plan(p, o)) == is_windowed(p),
    decreases p,
{
    match p {
        PlanModel::Filter { input, predicate } => {
            lemma_filled_left_to_database(*input, o);
        },
        PlanModel::Project { input, exprs, aliases, distinct, distinct_on, source_alias } => {
            lemma_filled_left_to_database(*input, o);
        },
        PlanModel::Aggregate { input, group_by, aggr_exprs, having } => {
            lemma_filled_left_to_database(*input, o);
        },
        PlanModel::Sort { input, exprs, asc } => {
            lemma_filled_left_to_database(*input, o);
        },
        PlanModel::Limit { input, limit, offset, limit_param, offset_param } => {
            lemma_filled_left_to_database(*input, o);
        },
        _ => {},
    }
}

/// A subquery that is left to the database has no value: the refusal reaches the
/// caller, whatever the subquery is asked for, and also where it depends on a row
/// around it.
pub proof fn law_a_refusal_reaches_the_caller(
    p: PlanModel,
    e: ExprModel,
    negated: bool,
    o: OuterRow,
    env: Env,
    ctes: Ctes,
)
    requires
        left_to_database(p),
    ensures
        ({
            let value = ExprModel::ScalarSubquery { subquery: Box::new(p) };
            let question = ExprModel::Exists { subquery: Box::new(p), negated };
            let list = ExprModel::InSubquery { expr: Box::new(e), subquery: Box::new(p), negated };
            &&& materialized(value, env) matches Err(x) && x is Unsupported
            &&& materialized(question, env) matches Err(x) && x is Unsupported
            &&& materialized(list, env) matches Err(x) && x is Unsupported
            &&& materialized_for(value, o, env, ctes) matches Err(x) && x is Unsupported
            &&& materialized_for(question, o, env, ctes) matches Err(x) && x is Unsupported
            &&& materialized_for(list, o, env, ctes) matches Err(x) && x is Unsupported
        }),
{
    let value = ExprModel::ScalarSubquery { subquery: Box::new(p) };
    let question = ExprModel::Exists { subquery: Box::new(p), negated };
    let list = ExprModel::InSubquery { expr: Box::new(e), subquery: Box::new(p), negated };
    law_what_is_left_to_the_database_is_refused(p, inner_env(env), no_ctes());
    assert(materialized(value, env) matches Err(x) && x is Unsupported);
    assert(materialized(question, env) matches Err(x) && x is Unsupported);
    assert(materialized(list, env) matches Err(x) && x is Unsupported);
    lemma_filled_left_to_database(p, o);
    law_what_is_left_to_the_database_is_refused(
        subquery::filled_plan(p, o),
        inner_env(env),
        ctes,
    );
    assert(rows_for(p, o, env, ctes) matches Err(x) && x is Unsupported);
}

/// The rows whose key is in the range that a predicate asks for are as many as
/// the rows on which the predicate is true.
pub proof fn law_key_range_counts_the_true_rows(
    rows: Seq<TupleModel>,
    n: nat,
    predicate: ExprModel,
    key: Seq<char>,
    t: DataType,
    cols: Seq<ColumnModel>,
    at: usize,
    params: Seq<ValueModel>,
)
    requires
        n <= rows.len(),
        key_range::plain_key_predicate(predicate, key, cols, at, params),
        key_range::key_range(predicate, key, t, params) is Some,
        forall|i: int| 0 <= i < rows.len() ==> key_range::row_key(#[trigger] rows[i], at) is Some,
    ensures
        true_rows(rows, n, predicate, cols, params) == Ok::<nat, ErrorModel>(
            key_range::count_within(
                rows,
                n,
                at,
                key_range::key_range(predicate, key, t, params)->Some_0,
            ),
        ),
    decreases n,
{
    if n > 0 {
        law_key_range_counts_the_true_rows(
            rows,
            (n - 1) as nat,
            predicate,
            key,
            t,
            cols,
            at,
            params,
        );
        assert(key_range::row_key(rows[n - 1], at) is Some);
        key_range::law_key_range_is_the_predicate(
            predicate,
            key,
            t,
            cols,
            at,
            params,
            rows[n - 1].values,
        );
    }
}

proof fn lemma_literals_evaluate(
    values: Seq<ValueModel>,
    cols: Seq<ColumnModel>,
    params: Seq<ValueModel>,
    row: Seq<ValueModel>,
)
    ensures
        evaluator::eval_all(literals(values), cols, params, row) == Ok::<
            Seq<ValueModel>,
            ErrorModel,
        >(values),
    decreases values.len(),
{
    if values.len() == 0 {
        assert(values =~= Seq::<ValueModel>::empty());
    } else {
        lemma_literals_evaluate(values.drop_last(), cols, params, row);
        assert(literals(values).drop_last() =~= literals(values.drop_last()));
        assert(evaluator::eval(literals(values).last(), cols, params, row) == Ok::<
            ValueModel,
            ErrorModel,
        >(values.last()));
        assert(values.drop_last().push(values.last()) =~= values);
    }
}

/// `IN` over a set of values means what `IN` over the list of them means.
pub proof fn law_a_set_means_its_list(
    expr: ExprModel,
    values: Seq<ValueModel>,
    negated: bool,
    cols: Seq<ColumnModel>,
    params: Seq<ValueModel>,
    row: Seq<ValueModel>,
)
    ensures
        evaluator::eval(
            (ExprModel::InSet { expr: Box::new(expr), values, negated }),
            cols,
            params,
            row,
        ) == evaluator::eval(
            (ExprModel::InList { expr: Box::new(expr), list: literals(values), negated }),
            cols,
            params,
            row,
        ),
{
    lemma_literals_evaluate(values, cols, params, row);
}

} // verus!
