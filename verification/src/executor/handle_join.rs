//! Joins.

use crate::executor::any_operator;
use crate::executor::any_operator::AnyOperator;
use crate::executor::handle_rows;
use crate::executor::hash_join::HashJoinBuildSide;
use crate::executor::join_build;
use crate::executor::join_build::JoinGiven;
use crate::executor::join_keys;
use crate::executor::join_pair;
use crate::executor::join_planning;
use crate::executor::join_planning::LookupPlan;
use crate::executor::materialize;
use crate::executor::operator;
use crate::executor::operator::{PhysicalOperator, Relation};
use crate::executor::query;
use crate::executor::query::Executor;
use crate::executor::semantics;
use crate::executor::semantics::{Attempt, Ctes, JoinNode};
use crate::executor::sources;
use crate::executor::storage_view;
use crate::executor::storage_view::{IndexEntry, StorageView};
use crate::executor::subquery;
use crate::logical_plan;
use crate::logical_plan::{JoinType, LogicalExpr, LogicalPlan};
use crate::schema;
use crate::schema::{Error, ErrorModel, Schema, Tuple, TupleModel};
use crate::value;
use crate::value::ValueModel;
use std::sync::Arc;
use vstd::prelude::*;

verus! {

/// The parts of a join.
pub struct JoinParts<'p> {
    pub left: &'p LogicalPlan,
    pub right: &'p LogicalPlan,
    pub join_type: JoinType,
    pub condition: &'p LogicalExpr,
}

impl<'p> View for JoinParts<'p> {
    type V = JoinNode;

    open spec fn view(&self) -> JoinNode {
        JoinNode {
            left: self.left@,
            right: self.right@,
            join_type: self.join_type,
            condition: self.condition@,
        }
    }
}

/// How a join went that may be left to others.
pub enum JoinAttempt {
    Done(Result<AnyOperator, Error>),
    Declined,
}

/// Whether an attempt came to what it should.
pub open spec fn attempted(
    r: JoinAttempt,
    expected: Attempt,
    after: Ctes,
    limit: Option<u64>,
) -> bool {
    match r {
        JoinAttempt::Done(x) => {
            ||| (x matches Err(e) && operator::timed_out(operator::limits_of(limit), e@))
            ||| (expected matches Attempt::Done(d) && query::builds_plan(x, d, after, limit))
        },
        JoinAttempt::Declined => expected == Attempt::Declined(after),
    }
}

/// The inner join on equalities alone that a plan is.
fn plain_join_parts(plan: &LogicalPlan) -> (r: Option<JoinParts<'_>>)
    ensures
        match r {
            Some(j) => semantics::plain_join(plan@, None) == Some((j@, None::<logical_plan::ExprModel>)),
            None => semantics::plain_join(plan@, None) is None,
        },
        forall|p: Option<logical_plan::ExprModel>|
            #![trigger semantics::plain_join(plan@, p)]
            semantics::plain_join(plan@, p) == (match semantics::plain_join(plan@, None) {
                Some(j) => Some((j.0, p)),
                None => None,
            }),
{
    match plan {
        LogicalPlan::Join { left, right, join_type, on, lateral } => match on {
            Some(condition) => {
                if *lateral || !matches!(join_type, JoinType::Inner) {
                    return None;
                }
                let (equalities, others): (
                    Option<LogicalExpr>,
                    Option<LogicalExpr>,
                ) = join_keys::split_join_condition(condition);
                if equalities.is_none() || others.is_some() {
                    return None;
                }
                Some(JoinParts { left, right, join_type: *join_type, condition })
            },
            None => None,
        },
        _ => None,
    }
}

impl<'a> Executor<'a> {
    /// Both inputs of a join, left before right.
    pub(crate) fn both_inputs(&mut self, left: &LogicalPlan, right: &LogicalPlan) -> (r: Result<
        (AnyOperator, AnyOperator),
        Error,
    >)
        ensures
            final(self).env() == old(self).env(),
            final(self).timing() == old(self).timing(),
            final(self).hints() == old(self).hints(),
            ({
                let expected = semantics::run_both(
                    left@,
                    right@,
                    old(self).env(),
                    old(self).ctes(),
                );
                match r {
                    Ok(both) => {
                        &&& expected matches Ok(b)
                        &&& both.0.gives(b.0, old(self).limit())
                        &&& both.1.gives(b.1, old(self).limit())
                        &&& final(self).ctes() == b.2
                    },
                    Err(e) => {
                        ||| operator::timed_out(operator::limits_of(old(self).limit()), e@)
                        ||| expected == Err::<(Relation, Relation, Ctes), ErrorModel>(e@)
                    },
                }
            }),
        decreases subquery::plan_size(left@) + subquery::plan_size(right@), 4nat, 0nat,
    {
        let l: AnyOperator = match self.plan_to_operator(left) {
            Ok(op) => op,
            Err(e) => {
                return Err(e);
            },
        };
        match self.plan_to_operator(right) {
            Ok(op) => Ok((l, op)),
            Err(e) => Err(e),
        }
    }

    /// What a join is built with.
    fn join_given(&self, side: HashJoinBuildSide) -> (r: JoinGiven)
        ensures
            join_build::terms_of(r) == semantics::terms(side, self.env()),
            operator::limit_of(r.timeout_ctx) == self.limit(),
            r.side == side,
    {
        JoinGiven {
            parameters: value::clone_values(self.parameters()),
            limit: self.settings().join_memory_limit,
            side,
            timeout_ctx: self.timeout_ctx(),
        }
    }

    /// Which side the table of keys is built from.
    fn choose_build_side(&self, left: &LogicalPlan, right: &LogicalPlan, inner: bool) -> (r:
        HashJoinBuildSide)
        ensures
            r == semantics::build_side(left@, right@, inner, self.env()),
    {
        if inner && !self.settings().build_right_only
            && join_planning::should_build_left_for_inner(
            join_planning::estimate_hash_join_rows(self.storage(), left),
            join_planning::estimate_hash_join_rows(self.storage(), right),
        ) {
            HashJoinBuildSide::Left
        } else {
            HashJoinBuildSide::Right
        }
    }

    /// A join condition with its subqueries replaced.
    fn materialize_join_condition(
        &self,
        condition: &LogicalExpr,
        left: &Schema,
        right: &Schema,
    ) -> (r: Result<LogicalExpr, Error>)
        ensures
            materialize::expr_result(r) == semantics::join_condition(
                condition@,
                left@ + right@,
                self.env(),
            ),
        decreases subquery::expr_size(condition@), 2nat, 0nat,
    {
        let whole: Schema = join_pair::combined_schema(left, right);
        if subquery::expr_has_correlated_subquery(condition, &whole) {
            return Err(
                Error::query_execution(
                    "Correlated subqueries are not supported in JOIN conditions".to_owned(),
                ),
            );
        }
        self.materialize_subqueries(condition)
    }

    /// How a join looks up its right rows, where it does.
    pub fn plan_join_lookups(&self, j: &JoinParts<'_>) -> (r: Option<LookupPlan>)
        ensures
            match r {
                Some(p) => semantics::join_lookups(j@, self.env()) == Some(p@),
                None => semantics::join_lookups(j@, self.env()) is None,
            },
    {
        let inner: bool = matches!(j.join_type, JoinType::Inner);
        if !inner && !matches!(j.join_type, JoinType::Left) {
            return None;
        }
        if join_keys::extract_equi_columns(j.condition).is_none() {
            return None;
        }
        let left_rows: Option<usize> = self.expected_lookups(j.left, inner);
        let right_rows: Option<usize> = join_planning::estimate_hash_join_rows(
            self.storage(),
            j.right,
        );
        if !join_planning::should_try_index_nested_loop_join(
            self.settings().lookup_join_off,
            left_rows,
            right_rows,
        ) {
            return None;
        }
        if !join_planning::is_plain_scan_like(j.right) {
            return None;
        }
        join_planning::plan_lookups(self.storage(), self.transaction(), j.right, j.condition)
    }

    /// How many rows the left side of a join is expected to look up.
    fn expected_lookups(&self, left: &LogicalPlan, inner: bool) -> (r: Option<usize>)
        ensures
            r == semantics::lookups_expected(left@, inner, self.env()),
    {
        if inner {
            let n: Option<usize> = join_planning::estimate_index_nested_loop_probe_rows(
                self.storage(),
                left,
            );
            if n.is_some() {
                return n;
            }
        }
        join_planning::estimate_hash_join_rows(self.storage(), left)
    }

    /// A join by lookups over its left rows.
    fn look_up_left_rows(
        &self,
        store: &StorageView,
        left: AnyOperator,
        lookup: &LookupPlan,
        position: usize,
        keep_left: bool,
    ) -> (r: Result<AnyOperator, Error>)
        requires
            left.ready(),
            left.limits().subset_of(operator::limits_of(self.limit())),
        ensures
            any_operator::builds(
                r,
                semantics::looked_up_join(
                    left.relation(),
                    lookup@,
                    position,
                    keep_left,
                    store@,
                ),
                self.limit(),
            ),
    {
        let mut left: AnyOperator = left;
        let left_schema: Arc<Schema> = left.schema();
        let left_rows: Vec<Tuple> = match operator::drain(&mut left) {
            Ok(rows) => rows,
            Err(e) => {
                return Err(e);
            },
        };
        let table: &str = lookup.info.table.as_str();
        let source: &str = sources::pick_source(&lookup.info.alias, table);
        let right_schema: Schema = sources::schema_with_source(&lookup.info.schema, source, table);
        let shown: Schema = join_pair::combined_schema(&left_schema, &right_schema);
        let no_entries: Vec<IndexEntry> = Vec::new();
        let entries: &Vec<IndexEntry> = match store.index_entries(lookup.index_name.as_str()) {
            Some(e) => e,
            None => &no_entries,
        };
        let none: Vec<Tuple> = Vec::new();
        let rows: &Vec<Tuple> = match storage_view::find_table(&store.tables, table) {
            Some(t) => &t.rows,
            None => &none,
        };
        proof {
            assert(storage_view::entries_model(no_entries@) =~= Seq::<(ValueModel, u64)>::empty());
            assert(schema::rows_model(none@) =~= Seq::<TupleModel>::empty());
            assert(storage_view::entries_model(entries@) == sources::known_entries(
                store@,
                lookup@.index_name,
            ));
            assert(schema::rows_model(rows@) == sources::rows_of_table(
                store@.tables,
                lookup@.info.table,
            ));
        }
        let joined: Vec<Tuple> = join_planning::join_by_lookups(
            &left_rows,
            position,
            entries,
            rows,
            lookup.info.schema.columns.len(),
            keep_left,
        );
        Ok(handle_rows::rows_at_hand(Arc::new(shown), joined))
    }

    /// A join by lookups, where it can be done that way.
    pub fn try_index_nested_loop_join(&mut self, j: &JoinParts<'_>) -> (r: JoinAttempt)
        ensures
            final(self).env() == old(self).env(),
            final(self).timing() == old(self).timing(),
            final(self).hints() == old(self).hints(),
            attempted(
                r,
                semantics::run_lookup_join(j@, old(self).env(), old(self).ctes()),
                final(self).ctes(),
                old(self).limit(),
            ),
        decreases subquery::plan_size(j.left@), 4nat, 0nat,
    {
        let lookup: LookupPlan = match self.plan_join_lookups(j) {
            Some(p) => p,
            None => {
                return JoinAttempt::Declined;
            },
        };
        let left: AnyOperator = match self.plan_to_operator(j.left) {
            Ok(op) => op,
            Err(e) => {
                return JoinAttempt::Done(Err(e));
            },
        };
        let left_schema: Arc<Schema> = left.schema();
        let position: usize = match join_planning::find_lookup_position(&lookup, &left_schema) {
            Some(p) => p,
            None => {
                return JoinAttempt::Declined;
            },
        };
        match self.storage() {
            Some(store) => JoinAttempt::Done(
                self.look_up_left_rows(
                    store,
                    left,
                    &lookup,
                    position,
                    matches!(j.join_type, JoinType::Left),
                ),
            ),
            None => JoinAttempt::Declined,
        }
    }

    /// A join with a condition, by keys or by testing every pair.
    fn keyed_join(&mut self, j: &JoinParts<'_>) -> (r: Result<AnyOperator, Error>)
        ensures
            final(self).env() == old(self).env(),
            final(self).timing() == old(self).timing(),
            final(self).hints() == old(self).hints(),
            query::builds_plan(
                r,
                semantics::run_keyed_join(j@, old(self).env(), old(self).ctes()),
                final(self).ctes(),
                old(self).limit(),
            ),
        decreases
            subquery::plan_size(j.left@) + subquery::plan_size(j.right@) + subquery::expr_size(
                j.condition@,
            ),
            5nat,
            0nat,
    {
        proof {
            semantics::lemma_plan_size_is_positive(j.left@);
            subquery::lemma_size_is_positive(j.condition@);
        }
        let side: HashJoinBuildSide = self.choose_build_side(
            j.left,
            j.right,
            matches!(j.join_type, JoinType::Inner),
        );
        let (l, rt): (AnyOperator, AnyOperator) = match self.both_inputs(j.left, j.right) {
            Ok(both) => both,
            Err(e) => {
                return Err(e);
            },
        };
        let condition: LogicalExpr = match self.materialize_join_condition(
            j.condition,
            &l.schema(),
            &rt.schema(),
        ) {
            Ok(c) => c,
            Err(e) => {
                return Err(e);
            },
        };
        proof {
            operator::lemma_one_limit(l.limits(), self.limit());
            operator::lemma_one_limit(rt.limits(), self.limit());
        }
        join_build::build_join(l, rt, j.join_type, condition, self.join_given(side))
    }

    /// A join.
    pub fn handle_join(
        &mut self,
        left: &LogicalPlan,
        right: &LogicalPlan,
        join_type: JoinType,
        on: &Option<LogicalExpr>,
        lateral: bool,
    ) -> (r: Result<AnyOperator, Error>)
        ensures
            final(self).env() == old(self).env(),
            final(self).timing() == old(self).timing(),
            final(self).hints() == old(self).hints(),
            query::builds_plan(
                r,
                semantics::run_join(
                    left@,
                    right@,
                    join_type,
                    logical_plan::opt_expr(*on),
                    lateral,
                    old(self).env(),
                    old(self).ctes(),
                ),
                final(self).ctes(),
                old(self).limit(),
            ),
        decreases
            subquery::plan_size(left@) + subquery::plan_size(right@) + (match on {
                Some(e) => subquery::expr_size(e@),
                None => 0nat,
            }),
            6nat,
            0nat,
    {
        proof {
            semantics::lemma_plan_size_is_positive(right@);
        }
        if lateral {
            let (l, rt): (AnyOperator, AnyOperator) = match self.both_inputs(left, right) {
                Ok(both) => both,
                Err(e) => {
                    return Err(e);
                },
            };
            let condition: Option<LogicalExpr> = match on {
                Some(c) => Some(c.clone()),
                None => None,
            };
            proof {
                operator::lemma_one_limit(l.limits(), self.limit());
                operator::lemma_one_limit(rt.limits(), self.limit());
            }
            return join_build::build_loop_join(
                l,
                rt,
                join_type,
                condition,
                self.join_given(HashJoinBuildSide::Right),
            );
        }
        match on {
            None => {
                let (l, rt): (AnyOperator, AnyOperator) = match self.both_inputs(left, right) {
                    Ok(both) => both,
                    Err(e) => {
                        return Err(e);
                    },
                };
                proof {
                    operator::lemma_one_limit(l.limits(), self.limit());
                    operator::lemma_one_limit(rt.limits(), self.limit());
                }
                join_build::build_cross_join(
                    l,
                    rt,
                    join_type,
                    self.join_given(HashJoinBuildSide::Right),
                )
            },
            Some(condition) => {
                let j: JoinParts<'_> = JoinParts { left, right, join_type, condition };
                match self.try_index_nested_loop_join(&j) {
                    JoinAttempt::Done(r) => r,
                    JoinAttempt::Declined => self.keyed_join(&j),
                }
            },
        }
    }

    /// A join under a `SELECT` list of plain columns, built from both inputs.
    fn show_join(
        &self,
        j: &JoinParts<'_>,
        predicate: Option<&LogicalExpr>,
        exprs: &Vec<LogicalExpr>,
        aliases: &Vec<String>,
        l: AnyOperator,
        rt: AnyOperator,
        condition: LogicalExpr,
        Ghost(lrel): Ghost<Relation>,
        Ghost(rrel): Ghost<Relation>,
    ) -> (r: JoinAttempt)
        requires
            l.gives(lrel, self.limit()),
            rt.gives(rrel, self.limit()),
        ensures
            attempted(
                r,
                semantics::shown_join(
                    j@,
                    join_planning::opt_borrowed(predicate),
                    logical_plan::exprs_model(exprs@),
                    schema::texts(aliases@),
                    (lrel, rrel, self.ctes()),
                    condition@,
                    self.env(),
                ),
                self.ctes(),
                self.limit(),
            ),
        decreases
            semantics::opt_plain_size(join_planning::opt_borrowed(predicate)),
            3nat,
            0nat,
    {
        let side: HashJoinBuildSide = self.choose_build_side(j.left, j.right, true);
        let given: JoinGiven = self.join_given(side);
        let ghost t = semantics::terms(side, self.env());
        let ghost cond = condition@;
        let ghost limits = operator::limits_of(self.limit());
        proof {
            operator::lemma_one_limit(l.limits(), self.limit());
            operator::lemma_one_limit(rt.limits(), self.limit());
            operator::lemma_one_limit(limits, self.limit());
        }
        match predicate {
            None => match join_build::build_projected_join(l, rt, condition, exprs, aliases, given) {
                None => JoinAttempt::Declined,
                Some(r) => JoinAttempt::Done(r),
            },
            Some(p) => {
                let joined: Result<AnyOperator, Error> = join_build::build_join(
                    l,
                    rt,
                    JoinType::Inner,
                    condition,
                    given,
                );
                let op: AnyOperator = match joined {
                    Ok(op) => op,
                    Err(e) => {
                        return JoinAttempt::Done(Err(e));
                    },
                };
                let m: LogicalExpr = match self.materialize_subqueries(p) {
                    Ok(m) => m,
                    Err(e) => {
                        return JoinAttempt::Done(Err(e));
                    },
                };
                let ghost expected = join_build::joined_on(lrel, rrel, JoinType::Inner, cond, t);
                let ghost shown = join_build::filtered_relation(
                    expected,
                    Some(m@),
                    self.env().params,
                );
                let kept: Result<AnyOperator, Error> = join_build::filter_above(
                    Ok(op),
                    Some(m),
                    value::clone_values(self.parameters()),
                    self.timeout_ctx(),
                    Ghost(expected),
                    Ghost(limits),
                    Ghost(limits),
                );
                JoinAttempt::Done(
                    join_build::project_above(
                        kept,
                        logical_plan::clone_exprs(exprs),
                        schema::clone_texts(aliases),
                        value::clone_values(self.parameters()),
                        self.timeout_ctx(),
                        Ghost(shown),
                        Ghost(limits),
                    Ghost(limits),
                    ),
                )
            },
        }
    }

    /// The inputs of a join under a `SELECT` list, cut down where that saves
    /// columns.
    fn compact_join_inputs(
        &self,
        j: &JoinParts<'_>,
        predicate: Option<&LogicalExpr>,
        exprs: &Vec<LogicalExpr>,
    ) -> (r: Option<(LogicalPlan, LogicalPlan)>)
        requires
            join_keys::combined(join_keys::equality_terms(j.condition@)) is Some,
        ensures
            match r {
                Some(p) => semantics::join_inputs(
                    j@,
                    join_planning::opt_borrowed(predicate),
                    logical_plan::exprs_model(exprs@),
                ) == Some((p.0@, p.1@)),
                None => semantics::join_inputs(
                    j@,
                    join_planning::opt_borrowed(predicate),
                    logical_plan::exprs_model(exprs@),
                ) is None,
            },
    {
        let (equalities, _): (Option<LogicalExpr>, Option<LogicalExpr>) =
            join_keys::split_join_condition(j.condition);
        if let Some(e) = equalities {
            if let Some(p) = join_planning::compact_projected_join_inputs(
                j.left,
                j.right,
                &e,
                predicate,
                exprs,
            ) {
                return Some(p);
            }
        }
        if predicate.is_some() {
            None
        } else {
            Some((j.left.clone(), j.right.clone()))
        }
    }

    /// A join under a `SELECT` list of plain columns, by keys or by testing every
    /// pair.
    fn shown_keyed_join(
        &mut self,
        j: &JoinParts<'_>,
        predicate: Option<&LogicalExpr>,
        exprs: &Vec<LogicalExpr>,
        aliases: &Vec<String>,
    ) -> (r: JoinAttempt)
        requires
            join_keys::combined(join_keys::equality_terms(j.condition@)) is Some,
        ensures
            final(self).env() == old(self).env(),
            final(self).timing() == old(self).timing(),
            final(self).hints() == old(self).hints(),
            attempted(
                r,
                semantics::run_shown_join(
                    j@,
                    join_planning::opt_borrowed(predicate),
                    logical_plan::exprs_model(exprs@),
                    schema::texts(aliases@),
                    old(self).env(),
                    old(self).ctes(),
                ),
                final(self).ctes(),
                old(self).limit(),
            ),
        decreases
            subquery::plan_size(j.left@) + subquery::plan_size(j.right@) + subquery::expr_size(
                j.condition@,
            ) + semantics::opt_plain_size(join_planning::opt_borrowed(predicate)),
            5nat,
            0nat,
    {
        proof {
            semantics::lemma_join_inputs_size(
                j@,
                join_planning::opt_borrowed(predicate),
                logical_plan::exprs_model(exprs@),
            );
            semantics::lemma_plan_size_is_positive(j.left@);
            subquery::lemma_size_is_positive(j.condition@);
        }
        let (left, right): (LogicalPlan, LogicalPlan) = match self.compact_join_inputs(
            j,
            predicate,
            exprs,
        ) {
            Some(p) => p,
            None => {
                return JoinAttempt::Declined;
            },
        };
        let ghost both = semantics::run_both(left@, right@, self.env(), self.ctes())->Ok_0;
        let (l, rt): (AnyOperator, AnyOperator) = match self.both_inputs(&left, &right) {
            Ok(both) => both,
            Err(e) => {
                return JoinAttempt::Done(Err(e));
            },
        };
        let condition: LogicalExpr = match self.materialize_join_condition(
            j.condition,
            &l.schema(),
            &rt.schema(),
        ) {
            Ok(c) => c,
            Err(e) => {
                return JoinAttempt::Done(Err(e));
            },
        };
        self.show_join(
            j,
            predicate,
            exprs,
            aliases,
            l,
            rt,
            condition,
            Ghost(both.0),
            Ghost(both.1),
        )
    }

    /// A join by lookups under a `SELECT` list of plain columns.
    fn shown_lookup_join(
        &mut self,
        j: &JoinParts<'_>,
        exprs: &Vec<LogicalExpr>,
        aliases: &Vec<String>,
    ) -> (r: JoinAttempt)
        ensures
            final(self).env() == old(self).env(),
            final(self).timing() == old(self).timing(),
            final(self).hints() == old(self).hints(),
            ({
                let first = semantics::run_lookup_join(j@, old(self).env(), old(self).ctes());
                attempted(
                    r,
                    match first {
                        Attempt::Done(d) => Attempt::Done(
                            match d {
                                Err(e) => Err(e),
                                Ok(b) => semantics::built(
                                    semantics::shown_result(
                                        Ok(b.rel),
                                        logical_plan::exprs_model(exprs@),
                                        schema::texts(aliases@),
                                        old(self).env().params,
                                    ),
                                    b.ctes,
                                ),
                            },
                        ),
                        Attempt::Declined(seen) => Attempt::Declined(seen),
                    },
                    final(self).ctes(),
                    old(self).limit(),
                )
            }),
        decreases subquery::plan_size(j.left@), 5nat, 0nat,
    {
        let ghost first = semantics::run_lookup_join(j@, self.env(), self.ctes());
        match self.try_index_nested_loop_join(j) {
            JoinAttempt::Declined => JoinAttempt::Declined,
            JoinAttempt::Done(Err(e)) => JoinAttempt::Done(Err(e)),
            JoinAttempt::Done(Ok(op)) => {
                let ghost rel = first->Done_0->Ok_0.rel;
                let ghost limits = operator::limits_of(self.limit());
                JoinAttempt::Done(
                    join_build::project_above(
                        Ok(op),
                        logical_plan::clone_exprs(exprs),
                        schema::clone_texts(aliases),
                        value::clone_values(self.parameters()),
                        self.timeout_ctx(),
                        Ghost(Ok(rel)),
                        Ghost(op.limits()),
                        Ghost(limits),
                    ),
                )
            },
        }
    }

    /// A join under a `SELECT` list of plain columns, where it can be done at
    /// once.
    pub fn handle_projected_join(
        &mut self,
        input: &LogicalPlan,
        exprs: &Vec<LogicalExpr>,
        aliases: &Vec<String>,
    ) -> (r: JoinAttempt)
        ensures
            final(self).env() == old(self).env(),
            final(self).timing() == old(self).timing(),
            final(self).hints() == old(self).hints(),
            attempted(
                r,
                semantics::run_projected_join(
                    input@,
                    logical_plan::exprs_model(exprs@),
                    schema::texts(aliases@),
                    old(self).env(),
                    old(self).ctes(),
                ),
                final(self).ctes(),
                old(self).limit(),
            ),
        decreases subquery::plan_size(input@), 4nat, 0nat,
    {
        proof {
            reveal_with_fuel(subquery::plan_size, 3);
            reveal_with_fuel(logical_plan::plan_model, 3);
            logical_plan::lemma_exprs_model(exprs@);
        }
        let (found, predicate): (Option<JoinParts<'_>>, Option<&LogicalExpr>) = match input {
            LogicalPlan::Join { .. } => (plain_join_parts(input), None),
            LogicalPlan::Filter { input: inner, predicate } => (
                plain_join_parts(inner),
                Some(predicate),
            ),
            _ => (None, None),
        };
        let j: JoinParts<'_> = match found {
            Some(j) => j,
            None => {
                return JoinAttempt::Declined;
            },
        };
        if !handle_rows::has_only_columns(exprs) {
            return JoinAttempt::Declined;
        }
        if predicate.is_none() {
            match self.shown_lookup_join(&j, exprs, aliases) {
                JoinAttempt::Done(r) => {
                    return JoinAttempt::Done(r);
                },
                JoinAttempt::Declined => {},
            }
        }
        self.shown_keyed_join(&j, predicate, exprs, aliases)
    }
}

} // verus!
