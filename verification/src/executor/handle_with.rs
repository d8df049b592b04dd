//! Common table expressions.

use crate::executor::any_operator::AnyOperator;
use crate::executor::handle_rows;
use crate::executor::operator;
use crate::executor::query;
use crate::executor::query::Executor;
use crate::executor::semantics;
use crate::executor::semantics::Ctes;
use crate::executor::sources;
use crate::executor::sources::{CteData, CteModel, Env};
use crate::executor::subquery;
use crate::logical_plan;
use crate::logical_plan::{LogicalPlan, PlanModel};
use crate::schema;
use crate::schema::{Error, ErrorModel, Schema, Tuple, TupleModel};
use std::sync::Arc;
use vstd::prelude::*;

verus! {

/// A common table expression as its plan gives it.
type CteEntry = (String, Box<LogicalPlan>, Option<Vec<String>>);

proof fn lemma_ctes_stop(
    list: Seq<(Seq<char>, Box<PlanModel>, Option<Seq<Seq<char>>>)>,
    k: nat,
    n: nat,
    recursive: bool,
    env: Env,
    ctes: Ctes,
)
    requires
        k <= n <= list.len(),
        semantics::run_ctes(list, k, recursive, env, ctes) is Err,
    ensures
        semantics::run_ctes(list, n, recursive, env, ctes) == semantics::run_ctes(
            list,
            k,
            recursive,
            env,
            ctes,
        ),
    decreases n,
{
    if k < n {
        lemma_ctes_stop(list, k, (n - 1) as nat, recursive, env, ctes);
    }
}

/// Whether a row is among others.
fn is_known(rows: &Vec<Tuple>, row: &Tuple) -> (r: bool)
    ensures
        r == schema::rows_model(rows@).contains(row@),
{
    let ghost model = schema::rows_model(rows@);
    let mut i: usize = 0;
    while i < rows.len()
        invariant
            model == schema::rows_model(rows@),
            i <= rows@.len(),
            forall|j: int| 0 <= j < i ==> #[trigger] model[j] != row@,
        decreases rows.len() - i,
    {
        assert(model[i as int] == rows@[i as int]@);
        if rows[i].same(row) {
            assert(model[i as int] == row@);
            return true;
        }
        i += 1;
    }
    false
}

/// The rows that are not among others.
fn unknown_rows(rows: &Vec<Tuple>, known: &Vec<Tuple>) -> (r: Vec<Tuple>)
    ensures
        schema::rows_model(r@) == semantics::new_rows(
            schema::rows_model(rows@),
            rows@.len(),
            schema::rows_model(known@),
        ),
{
    let ghost model = schema::rows_model(rows@);
    let mut out: Vec<Tuple> = Vec::new();
    assert(schema::rows_model(out@) =~= Seq::<TupleModel>::empty());
    let mut i: usize = 0;
    while i < rows.len()
        invariant
            model == schema::rows_model(rows@),
            i <= rows@.len(),
            schema::rows_model(out@) == semantics::new_rows(
                model,
                i as nat,
                schema::rows_model(known@),
            ),
        decreases rows.len() - i,
    {
        assert(model[i as int] == rows@[i as int]@);
        if !is_known(known, &rows[i]) {
            let ghost was = schema::rows_model(out@);
            let t: Tuple = rows[i].clone();
            out.push(t);
            assert(schema::rows_model(out@) =~= was.push(t@));
        }
        i += 1;
    }
    out
}

impl<'a> Executor<'a> {
    /// Builds a plan and collects its rows.
    fn rows_of_plan(&mut self, plan: &LogicalPlan) -> (r: Result<Vec<Tuple>, Error>)
        ensures
            final(self).env() == old(self).env(),
            final(self).timing() == old(self).timing(),
            final(self).hints() == old(self).hints(),
            query::rows_come(
                r,
                semantics::rows_given(semantics::run(plan@, old(self).env(), old(self).ctes())),
                operator::limits_of(old(self).limit()),
            ),
            r is Ok ==> (semantics::run(plan@, old(self).env(), old(self).ctes()) matches Ok(b)
                && final(self).ctes() == b.ctes),
        decreases subquery::plan_size(plan@), 4nat, 0nat,
    {
        let mut op: AnyOperator = match self.plan_to_operator(plan) {
            Ok(op) => op,
            Err(e) => {
                return Err(e);
            },
        };
        operator::drain(&mut op)
    }

    /// Makes rows visible under a name.
    fn register_cte(&mut self, name: &String, rows: &Vec<Tuple>, schema: &Arc<Schema>)
        ensures
            final(self).env() == old(self).env(),
            final(self).timing() == old(self).timing(),
            final(self).hints() == old(self).hints(),
            final(self).ctes() == semantics::with_cte(
                old(self).ctes(),
                (CteModel {
                    name: name@,
                    rows: schema::rows_model(rows@),
                    columns: schema@,
                }),
            ),
    {
        self.add_cte(
            CteData {
                name: name.clone(),
                tuples: Arc::new(schema::clone_tuples(rows)),
                schema: schema.clone(),
            },
        );
    }

    /// Evaluates a recursive common table expression until it adds no rows.
    fn run_to_fixpoint(
        &mut self,
        name: &String,
        plan: &LogicalPlan,
        schema: &Arc<Schema>,
        first: Vec<Tuple>,
    ) -> (r: Result<Vec<Tuple>, Error>)
        ensures
            final(self).env() == old(self).env(),
            final(self).timing() == old(self).timing(),
            final(self).hints() == old(self).hints(),
            ({
                let expected = semantics::fixpoint(
                    plan@,
                    name@,
                    schema@,
                    schema::rows_model(first@),
                    schema::rows_model(first@),
                    0,
                    old(self).env(),
                    old(self).ctes(),
                );
                match r {
                    Ok(rows) => expected == Ok::<(Seq<TupleModel>, Ctes), ErrorModel>(
                        (schema::rows_model(rows@), final(self).ctes()),
                    ),
                    Err(e) => {
                        ||| operator::timed_out(operator::limits_of(old(self).limit()), e@)
                        ||| expected == Err::<(Seq<TupleModel>, Ctes), ErrorModel>(e@)
                    },
                }
            }),
        decreases subquery::plan_size(plan@), 5nat, 0nat,
    {
        let ghost expected = semantics::fixpoint(
            plan@,
            name@,
            schema@,
            schema::rows_model(first@),
            schema::rows_model(first@),
            0,
            self.env(),
            self.ctes(),
        );
        let mut last: Vec<Tuple> = schema::clone_tuples(&first);
        let mut all: Vec<Tuple> = first;
        let mut k: usize = 0;
        while last.len() > 0 && k < semantics::MAX_RECURSION_DEPTH
            invariant
                self.env() == old(self).env(),
                self.timing() == old(self).timing(),
                self.hints() == old(self).hints(),
                k <= semantics::MAX_RECURSION_DEPTH,
                expected == semantics::fixpoint(
                    plan@,
                    name@,
                    schema@,
                    schema::rows_model(all@),
                    schema::rows_model(last@),
                    k as nat,
                    self.env(),
                    self.ctes(),
                ),
                expected == semantics::fixpoint(
                    plan@,
                    name@,
                    schema@,
                    schema::rows_model(first@),
                    schema::rows_model(first@),
                    0,
                    old(self).env(),
                    old(self).ctes(),
                ),
            decreases semantics::MAX_RECURSION_DEPTH - k,
        {
            assert(schema::rows_model(last@).len() > 0);
            self.register_cte(name, &last, schema);
            let rows: Vec<Tuple> = match self.rows_of_plan(plan) {
                Ok(rows) => rows,
                Err(e) => {
                    return Err(e);
                },
            };
            let more: Vec<Tuple> = unknown_rows(&rows, &all);
            last = schema::clone_tuples(&more);
            all = handle_rows::rows_joined(all, more);
            k += 1;
        }
        Ok(all)
    }

    /// Evaluates a common table expression and makes it visible.
    fn evaluate_cte(
        &mut self,
        name: &String,
        plan: &LogicalPlan,
        names: &Option<Vec<String>>,
        recursive: bool,
    ) -> (r: Result<(), Error>)
        ensures
            final(self).env() == old(self).env(),
            final(self).timing() == old(self).timing(),
            final(self).hints() == old(self).hints(),
            ({
                let expected = semantics::run_cte(
                    name@,
                    plan@,
                    logical_plan::opt_names(*names),
                    recursive,
                    old(self).env(),
                    old(self).ctes(),
                );
                match r {
                    Ok(_) => expected == Ok::<Ctes, ErrorModel>(final(self).ctes()),
                    Err(e) => {
                        ||| operator::timed_out(operator::limits_of(old(self).limit()), e@)
                        ||| expected == Err::<Ctes, ErrorModel>(e@)
                    },
                }
            }),
        decreases subquery::plan_size(plan@), 6nat, 0nat,
    {
        let schema: Arc<Schema> = sources::cte_schema(plan, names);
        if recursive {
            let none: Vec<Tuple> = Vec::new();
            assert(schema::rows_model(none@) =~= Seq::<TupleModel>::empty());
            self.register_cte(name, &none, &schema);
        }
        let rows: Vec<Tuple> = match self.rows_of_plan(plan) {
            Ok(rows) => rows,
            Err(e) => {
                return Err(e);
            },
        };
        if recursive {
            let all: Vec<Tuple> = match self.run_to_fixpoint(name, plan, &schema, rows) {
                Ok(all) => all,
                Err(e) => {
                    return Err(e);
                },
            };
            self.register_cte(name, &all, &schema);
        } else {
            self.register_cte(name, &rows, &schema);
        }
        Ok(())
    }

    /// Evaluates a list of common table expressions, each of which sees those
    /// before it.
    pub fn handle_with(&mut self, list: &Vec<CteEntry>, recursive: bool) -> (r: Result<(), Error>)
        ensures
            final(self).env() == old(self).env(),
            final(self).timing() == old(self).timing(),
            final(self).hints() == old(self).hints(),
            ({
                let expected = semantics::run_ctes(
                    logical_plan::ctes_model(list@),
                    list@.len(),
                    recursive,
                    old(self).env(),
                    old(self).ctes(),
                );
                match r {
                    Ok(_) => expected == Ok::<Ctes, ErrorModel>(final(self).ctes()),
                    Err(e) => {
                        ||| operator::timed_out(operator::limits_of(old(self).limit()), e@)
                        ||| expected == Err::<Ctes, ErrorModel>(e@)
                    },
                }
            }),
        decreases
            subquery::ctes_size(logical_plan::ctes_model(list@), list@.len()),
            7nat,
            0nat,
    {
        let ghost model = logical_plan::ctes_model(list@);
        let ghost before = self.ctes();
        let mut i: usize = 0;
        while i < list.len()
            invariant
                self.env() == old(self).env(),
                self.timing() == old(self).timing(),
                self.hints() == old(self).hints(),
                before == old(self).ctes(),
                model == logical_plan::ctes_model(list@),
                i <= list@.len(),
                semantics::run_ctes(model, i as nat, recursive, self.env(), before) == Ok::<
                    Ctes,
                    ErrorModel,
                >(self.ctes()),
            decreases list.len() - i,
        {
            proof {
                assert(model[i as int] == (
                    list@[i as int].0@,
                    Box::new((*list@[i as int].1)@),
                    logical_plan::opt_names(list@[i as int].2),
                ));
                subquery::lemma_cte_in_list(model, i as int, model.len());
            }
            match self.evaluate_cte(&list[i].0, &list[i].1, &list[i].2, recursive) {
                Ok(_) => {},
                Err(e) => {
                    proof {
                        if semantics::run_ctes(
                            model,
                            (i + 1) as nat,
                            recursive,
                            self.env(),
                            before,
                        ) is Err {
                            lemma_ctes_stop(
                                model,
                                (i + 1) as nat,
                                model.len(),
                                recursive,
                                self.env(),
                                before,
                            );
                        }
                    }
                    return Err(e);
                },
            }
            i += 1;
        }
        Ok(())
    }
}

} // verus!
