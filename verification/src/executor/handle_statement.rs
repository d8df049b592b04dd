//! Statements that read no rows.

use crate::executor::any_operator;
use crate::executor::any_operator::AnyOperator;
use crate::executor::cluster;
use crate::executor::ddl;
use crate::executor::handle_count;
use crate::executor::handle_rows;
use crate::executor::query::Executor;
use crate::executor::scan::{DualScanOperator, StatusMessageOperator};
use crate::executor::semantics;
use crate::logical_plan;
use crate::logical_plan::LogicalPlan;
use crate::schema;
use crate::schema::{Column, ColumnModel, Error, Schema, Tuple, TupleModel};
use crate::text;
use std::sync::Arc;
use vstd::prelude::*;

verus! {

/// No rows and no columns.
fn empty_result() -> (r: AnyOperator)
    ensures
        r.gives(semantics::nothing(), None),
{
    let columns: Vec<Column> = Vec::new();
    let schema: Schema = Schema { columns };
    let rows: Vec<Tuple> = Vec::new();
    assert(schema@ =~= Seq::<ColumnModel>::empty());
    assert(schema::rows_model(rows@) =~= Seq::<TupleModel>::empty());
    handle_rows::rows_at_hand(Arc::new(schema), rows)
}

/// One row with a status message.
fn status_result(message: String) -> (r: AnyOperator)
    ensures
        r.gives(semantics::status(message@), None),
{
    AnyOperator::of_status(StatusMessageOperator::new(message))
}

/// Creates an extension.
pub fn handle_create_extension(name: &str, if_not_exists: bool) -> (r: Result<AnyOperator, Error>)
    ensures
        any_operator::builds(r, semantics::created_extension(name@, if_not_exists), None),
{
    if text::same_text(name, "hdb_code") {
        return Err(
            Error::query_execution(
                "CREATE EXTENSION hdb_code requires the `code-graph` feature flag at build time".to_owned(),
            ),
        );
    }
    if if_not_exists {
        return Ok(empty_result());
    }
    Err(
        Error::query_execution(
            text::concat3("unknown extension: '", name, "' (known: hdb_code)"),
        ),
    )
}

fn dropped_text(what: &str, name: &str, if_exists: bool) -> (r: String)
    ensures
        r@ == semantics::dropped_message(what@, name@, if_exists),
{
    let mut m: String = text::concat3(what, " '", name);
    if if_exists {
        m.append("' dropped (if exists)");
    } else {
        m.append("' dropped");
    }
    m
}

impl<'a> Executor<'a> {
    /// No rows and no columns, under the time limit.
    fn ddl_result(&self) -> (r: AnyOperator)
        ensures
            r.gives(semantics::no_result(), self.limit()),
    {
        let columns: Vec<Column> = Vec::new();
        let schema: Schema = Schema { columns };
        let rows: Vec<Tuple> = Vec::new();
        assert(schema@ =~= Seq::<ColumnModel>::empty());
        assert(schema::rows_model(rows@) =~= Seq::<TupleModel>::empty());
        self.rows_under_limit(Arc::new(schema), rows)
    }

    /// A statement on the cluster that the node is in.
    fn statement_on_cluster(&self, plan: &LogicalPlan) -> (r: Result<AnyOperator, Error>)
        ensures
            any_operator::builds(r, semantics::run_on_cluster(plan@, self.env()), None),
    {
        let answer: Option<Result<AnyOperator, Error>> = match self.cluster() {
            Some(c) => cluster::answer_cluster_statement(plan, c),
            None => None,
        };
        match answer {
            Some(r) => r,
            None => Err(handle_count::not_implemented_error(plan)),
        }
    }

    /// A statement that reads no rows.
    pub fn handle_statement(&self, plan: &LogicalPlan) -> (r: Result<AnyOperator, Error>)
        ensures
            any_operator::builds(r, semantics::run_statement(plan@, self.env()), self.limit()),
    {
        match plan {
            LogicalPlan::Rows { schema, rows } => Ok(
                handle_rows::rows_at_hand(schema.clone(), schema::clone_tuples(rows)),
            ),
            LogicalPlan::DualScan => Ok(AnyOperator::of_dual(DualScanOperator::new())),
            LogicalPlan::CreateSchema { .. }
            | LogicalPlan::DropExtension { .. }
            | LogicalPlan::CreateDatabase { .. }
            | LogicalPlan::DropDatabase { .. } => Ok(self.ddl_result()),
            LogicalPlan::CreateExtension { name, if_not_exists } => handle_create_extension(
                name.as_str(),
                *if_not_exists,
            ),
            LogicalPlan::CreateFunction { name } => Ok(
                status_result(text::concat3("Function '", name.as_str(), "' created")),
            ),
            LogicalPlan::CreateProcedure { name } => Ok(
                status_result(text::concat3("Procedure '", name.as_str(), "' created")),
            ),
            LogicalPlan::DropFunction { name, if_exists } => Ok(
                status_result(dropped_text("Function", name.as_str(), *if_exists)),
            ),
            LogicalPlan::DropProcedure { name, if_exists } => Ok(
                status_result(dropped_text("Procedure", name.as_str(), *if_exists)),
            ),
            LogicalPlan::Call { name, args } => {
                proof {
                    logical_plan::lemma_exprs_model(args@);
                }
                let mut m: String = text::concat3(
                    "Procedure '",
                    name.as_str(),
                    "' called with ",
                );
                text::append_decimal(&mut m, args.len() as u128);
                m.append(" arguments");
                Ok(status_result(m))
            },
            LogicalPlan::Explain { .. } => Err(handle_count::left_unanswered_error(plan)),
            _ => match ddl::plan_ddl(plan, self.storage()) {
                Some(Err(e)) => Err(e),
                Some(Ok(_)) => Ok(self.ddl_result()),
                None => self.statement_on_cluster(plan),
            },
        }
    }
}

} // verus!
