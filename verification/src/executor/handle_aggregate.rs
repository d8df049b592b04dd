//! Aggregations that are answered below the row operators.

use crate::executor::handle_scan::ScanParts;
use crate::executor::join_planning;
use crate::executor::key_range;
use crate::executor::pushdown;
use crate::executor::query::Executor;
use crate::executor::semantics;
use crate::executor::semantics::{Ctes, ScanNode};
use crate::executor::sources;
use crate::executor::sources::Env;
use crate::executor::storage_view;
use crate::executor::storage_view::StorageView;
use crate::logical_plan;
use crate::logical_plan::{AggregateFunction, ExprModel, LogicalExpr, LogicalPlan, PlanModel};
use crate::schema;
use crate::schema::{Error, ErrorModel, TupleModel};
use crate::text;
use vstd::prelude::*;

verus! {

/// The scan of the current rows of a table that an aggregation stands on.
pub open spec fn current_scan(input: PlanModel, env: Env, ctes: Ctes) -> Option<
    (ScanNode, Option<ExprModel>),
> {
    match (env.storage, pushdown::aggregate_input(input)) {
        (Some(s), Some(f)) => if s.branch_active || storage_view::reads_slowly(env.transaction)
            || f.0.as_of is Some || ctes(f.0.table) is Some || storage_view::reads_table_slowly(
            env.transaction,
            f.0.table,
        ) {
            None
        } else {
            Some(f)
        },
        _ => None,
    }
}

/// The column that an aggregation counts, where it does nothing else.
pub open spec fn counted_column(
    group_by: Seq<ExprModel>,
    aggr_exprs: Seq<ExprModel>,
    having: Option<ExprModel>,
) -> Option<ExprModel> {
    if group_by.len() == 0 && having is None && aggr_exprs.len() == 1 {
        match aggr_exprs[0] {
            ExprModel::AggregateFunction { fun, args, distinct } => if fun
                == AggregateFunction::Count && args.len() > 0 && !(args[0] is Wildcard) {
                Some(args[0])
            } else {
                None
            },
            _ => None,
        }
    } else {
        None
    }
}

/// How many rows an aggregation counts by the primary key of a table: no key is
/// NULL, and none occurs twice.
pub open spec fn key_cardinality(
    n: ScanNode,
    predicate: Option<ExprModel>,
    column: ExprModel,
    env: Env,
) -> Result<Option<nat>, ErrorModel> {
    let s = env.storage->Some_0;
    match (pushdown::column_position(column, n.cols), key_range::single_key(n.cols, 0)) {
        (Some(at), Some(key)) => if at != key {
            Ok(None)
        } else {
            match sources::counted_table(env.storage, n.table) {
                Err(e) => Err(e),
                Ok(name) => if storage_view::reads_table_slowly(env.transaction, name) {
                    Ok(None)
                } else {
                    match predicate {
                        None => match storage_view::table_named(s.tables, name, 0) {
                            Some(t) => Ok(Some(t.rows.len())),
                            None => Err(sources::no_such_table(name)),
                        },
                        Some(p) => match semantics::materialized(p, env) {
                            Err(e) => Err(e),
                            Ok(m) => Ok(
                                key_range::key_count(
                                    m,
                                    n.cols,
                                    at,
                                    sources::rows_of_table(s.tables, n.table),
                                    env.params,
                                ),
                            ),
                        },
                    }
                },
            }
        },
        _ => Ok(None),
    }
}

/// How many rows a `COUNT` of a primary key counts, where it can be told without
/// reading them.
pub open spec fn counted_by_key(
    input: PlanModel,
    group_by: Seq<ExprModel>,
    aggr_exprs: Seq<ExprModel>,
    having: Option<ExprModel>,
    env: Env,
    ctes: Ctes,
) -> Result<Option<nat>, ErrorModel> {
    match (counted_column(group_by, aggr_exprs, having), current_scan(input, env, ctes)) {
        (Some(column), Some(f)) => key_cardinality(f.0, f.1, column, env),
        _ => Ok(None),
    }
}

pub open spec fn count_given(r: Result<Option<usize>, Error>) -> Result<Option<nat>, ErrorModel> {
    match r {
        Ok(Some(n)) => Ok(Some(n as nat)),
        Ok(None) => Ok(None),
        Err(e) => Err(e@),
    }
}

fn find_counted_column<'e>(
    group_by: &Vec<LogicalExpr>,
    aggr_exprs: &'e Vec<LogicalExpr>,
    having: &Option<LogicalExpr>,
) -> (r: Option<&'e LogicalExpr>)
    ensures
        join_planning::opt_borrowed(r) == counted_column(
            logical_plan::exprs_model(group_by@),
            logical_plan::exprs_model(aggr_exprs@),
            logical_plan::opt_expr(*having),
        ),
{
    proof {
        logical_plan::lemma_exprs_model(group_by@);
        logical_plan::lemma_exprs_model(aggr_exprs@);
    }
    if group_by.len() != 0 || having.is_some() || aggr_exprs.len() != 1 {
        return None;
    }
    assert(logical_plan::exprs_model(aggr_exprs@)[0] == aggr_exprs@[0]@);
    match &aggr_exprs[0] {
        LogicalExpr::AggregateFunction { fun, args, distinct: _ } => {
            proof {
                logical_plan::lemma_exprs_model(args@);
            }
            if !matches!(fun, AggregateFunction::Count) || args.len() == 0 {
                return None;
            }
            assert(logical_plan::exprs_model(args@)[0] == args@[0]@);
            if matches!(&args[0], LogicalExpr::Wildcard) {
                None
            } else {
                Some(&args[0])
            }
        },
        _ => None,
    }
}

impl<'a> Executor<'a> {
    /// The scan of the current rows of a table that an aggregation stands on.
    pub fn current_aggregate_scan<'p>(&self, input: &'p LogicalPlan) -> (r: Option<
        (ScanParts<'p>, Option<&'p LogicalExpr>),
    >)
        ensures
            match r {
                Some(f) => current_scan(input@, self.env(), self.ctes()) == Some(
                    (f.0@, join_planning::opt_borrowed(f.1)),
                ) && self.env().storage is Some,
                None => current_scan(input@, self.env(), self.ctes()) is None,
            },
    {
        let store: &StorageView = match self.storage() {
            Some(s) => s,
            None => {
                return None;
            },
        };
        if store.branch_active || storage_view::txn_forces_slow_reads(self.transaction()) {
            return None;
        }
        let (n, predicate): (ScanParts<'p>, Option<&'p LogicalExpr>) =
            match pushdown::columnar_aggregate_input(input) {
            Some(f) => f,
            None => {
                return None;
            },
        };
        if n.as_of.is_some() || self.get_cte(n.table.as_str()).is_some()
            || storage_view::txn_forces_slow_reads_for_table(
            self.transaction(),
            n.table.as_str(),
        ) {
            return None;
        }
        Some((n, predicate))
    }

    fn count_keys(
        &self,
        store: &StorageView,
        n: &ScanParts<'_>,
        predicate: Option<&LogicalExpr>,
        column: &LogicalExpr,
    ) -> (r: Result<Option<usize>, Error>)
        requires
            self.env().storage == Some(store@),
        ensures
            count_given(r) == key_cardinality(
                n@,
                join_planning::opt_borrowed(predicate),
                column@,
                self.env(),
            ),
    {
        let at: usize = match pushdown::column_expr_index(column, n.schema) {
            Some(at) => at,
            None => {
                return Ok(None);
            },
        };
        match key_range::find_single_key(n.schema) {
            Some(key) => {
                if at != key {
                    return Ok(None);
                }
            },
            None => {
                return Ok(None);
            },
        }
        let name: String = match sources::fast_path_storage_table_name(
            Some(store),
            n.table.as_str(),
        ) {
            Ok(name) => name,
            Err(e) => {
                return Err(e);
            },
        };
        if storage_view::txn_forces_slow_reads_for_table(self.transaction(), name.as_str()) {
            return Ok(None);
        }
        match predicate {
            None => match storage_view::find_table(&store.tables, name.as_str()) {
                Some(t) => Ok(Some(t.rows.len())),
                None => Err(
                    Error::storage(
                        text::concat3("Table '", name.as_str(), "' does not exist"),
                    ),
                ),
            },
            Some(p) => {
                let m: LogicalExpr = match self.materialize_subqueries(p) {
                    Ok(m) => m,
                    Err(e) => {
                        return Err(e);
                    },
                };
                let none: Vec<schema::Tuple> = Vec::new();
                assert(schema::rows_model(none@) =~= Seq::<TupleModel>::empty());
                let rows: &Vec<schema::Tuple> = match storage_view::find_table(
                    &store.tables,
                    n.table.as_str(),
                ) {
                    Some(t) => &t.rows,
                    None => &none,
                };
                Ok(key_range::count_by_key(&m, n.schema, at, rows, self.parameters()))
            },
        }
    }

    /// How many rows a `COUNT` of a primary key counts, where it can be told
    /// without reading them.
    pub fn try_count_pk_cardinality(
        &self,
        input: &LogicalPlan,
        group_by: &Vec<LogicalExpr>,
        aggr_exprs: &Vec<LogicalExpr>,
        having: &Option<LogicalExpr>,
    ) -> (r: Result<Option<usize>, Error>)
        ensures
            count_given(r) == counted_by_key(
                input@,
                logical_plan::exprs_model(group_by@),
                logical_plan::exprs_model(aggr_exprs@),
                logical_plan::opt_expr(*having),
                self.env(),
                self.ctes(),
            ),
    {
        let column: &LogicalExpr = match find_counted_column(group_by, aggr_exprs, having) {
            Some(c) => c,
            None => {
                return Ok(None);
            },
        };
        let (n, predicate): (ScanParts<'_>, Option<&LogicalExpr>) =
            match self.current_aggregate_scan(input) {
            Some(f) => f,
            None => {
                return Ok(None);
            },
        };
        match self.storage() {
            Some(store) => self.count_keys(store, &n, predicate, column),
            None => Ok(None),
        }
    }
}

} // verus!
