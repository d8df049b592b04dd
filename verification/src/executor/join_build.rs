//! Building the operator of a join from its inputs and its condition.

use crate::executor::any_operator;
use crate::executor::any_operator::AnyOperator;
use crate::executor::filter;
use crate::executor::filter::FilterOperator;
use crate::executor::hash_join;
use crate::executor::hash_join::{
    HashJoinBuildSide, HashJoinOperator, JoinInput, KeyChoice, PreboundJoinKeys,
};
use crate::executor::join_keys;
use crate::executor::join_keys::JoinConditionPlan;
use crate::executor::join_pair;
use crate::executor::nested_loop;
use crate::executor::nested_loop::{LoopJoin, NestedLoopJoinOperator};
use crate::executor::operator;
use crate::executor::operator::{PhysicalOperator, Relation, TimeoutContext};
use crate::executor::project;
use crate::executor::project::ProjectOperator;
use crate::logical_plan;
use crate::logical_plan::{ExprModel, JoinType, LogicalExpr};
use crate::schema;
use crate::schema::{ColumnModel, Error, ErrorModel, Schema};
use crate::value;
use crate::value::{Value, ValueModel};
use std::sync::Arc;
use vstd::prelude::*;
use vstd::string::*;

verus! {

/// What a join is given besides its inputs: the bind parameters, the memory it
/// may take, and the side that its table of keys is built from.
pub struct JoinTerms {
    pub params: Seq<ValueModel>,
    pub limit: usize,
    pub side: HashJoinBuildSide,
}

pub open spec fn as_input(r: Relation) -> JoinInput {
    JoinInput { rows: r.rows, cols: r.columns }
}

/// A join that tests every pair of rows.
pub open spec fn looped(
    left: Relation,
    right: Relation,
    join_type: JoinType,
    on: Option<ExprModel>,
    terms: JoinTerms,
) -> Result<Relation, ErrorModel> {
    match nested_loop::loaded(right.rows, 0, terms.limit) {
        Err(e) => Err(e),
        Ok(rows) => Ok(
            Relation {
                columns: left.columns + right.columns,
                rows: nested_loop::loop_from_left(
                    left.rows,
                    rows,
                    nested_loop::none_matched(rows.len()),
                    LoopJoin {
                        test: nested_loop::pair_tester(
                            on,
                            left.columns + right.columns,
                            terms.params,
                        ),
                        join_type,
                        left_width: left.columns.len(),
                        right_width: right.columns.len(),
                    },
                ),
                timed: true,
            },
        ),
    }
}

/// A join by keys.
pub open spec fn hashed(
    left: Relation,
    right: Relation,
    join_type: JoinType,
    on: Option<ExprModel>,
    residual: Option<ExprModel>,
    keys: KeyChoice,
    projection: Option<Seq<usize>>,
    columns: Seq<ColumnModel>,
    terms: JoinTerms,
) -> Result<Relation, ErrorModel> {
    match hash_join::table_of(
        as_input(left),
        as_input(right),
        on,
        terms.params,
        keys,
        terms.side,
        terms.limit,
        join_type,
    ) {
        Err(e) => Err(e),
        Ok(table) => Ok(
            Relation {
                columns,
                rows: hash_join::hash_joined(
                    as_input(left),
                    as_input(right),
                    table.entries,
                    hash_join::hash_join_of(
                        left.columns,
                        right.columns,
                        join_type,
                        on,
                        residual,
                        terms.params,
                        keys,
                        terms.side,
                        projection,
                        table.keyless,
                    ),
                ),
                timed: true,
            },
        ),
    }
}

/// The rows of a relation that a predicate keeps.
pub open spec fn filtered_relation(
    r: Result<Relation, ErrorModel>,
    predicate: Option<ExprModel>,
    params: Seq<ValueModel>,
) -> Result<Relation, ErrorModel> {
    match r {
        Err(e) => Err(e),
        Ok(rel) => match predicate {
            None => Ok(rel),
            Some(p) => Ok(
                Relation {
                    columns: rel.columns,
                    rows: filter::filtered(rel.rows, p, rel.columns, params),
                    timed: rel.timed,
                },
            ),
        },
    }
}

/// The keys of a planned condition.
pub open spec fn planned_keys(plan: join_keys::JoinConditionModel) -> KeyChoice {
    KeyChoice { direct: plan.direct, pairs: plan.pairs, covered: true }
}

/// A join with a condition: by keys as far as the condition has any, else by
/// testing every pair. What the keys do not express is tested inside the join
/// where left rows without a partner are kept, and behind it where not.
pub open spec fn joined_on(
    left: Relation,
    right: Relation,
    join_type: JoinType,
    condition: ExprModel,
    terms: JoinTerms,
) -> Result<Relation, ErrorModel> {
    let plan = join_keys::planned(condition, left.columns, right.columns);
    if join_keys::needs_nested_loop(plan, join_type) {
        looped(left, right, join_type, Some(condition), terms)
    } else if join_type == JoinType::Left {
        hashed(
            left,
            right,
            join_type,
            plan.equi,
            plan.residual,
            planned_keys(plan),
            None,
            left.columns + right.columns,
            terms,
        )
    } else {
        filtered_relation(
            hashed(
                left,
                right,
                join_type,
                plan.equi,
                None,
                planned_keys(plan),
                None,
                left.columns + right.columns,
                terms,
            ),
            plan.residual,
            terms.params,
        )
    }
}

/// A join without a condition: every pair of rows.
pub open spec fn joined_all(left: Relation, right: Relation, join_type: JoinType, terms: JoinTerms) -> Result<
    Relation,
    ErrorModel,
> {
    hashed(
        left,
        right,
        join_type,
        None,
        None,
        KeyChoice { direct: None, pairs: Seq::empty(), covered: true },
        None,
        left.columns + right.columns,
        terms,
    )
}

/// What a join is given, to be executed.
pub struct JoinGiven {
    pub parameters: Vec<Value>,
    pub limit: usize,
    pub side: HashJoinBuildSide,
    pub timeout_ctx: Option<TimeoutContext>,
}

pub open spec fn terms_of(g: JoinGiven) -> JoinTerms {
    JoinTerms { params: value::values_model(g.parameters@), limit: g.limit, side: g.side }
}

/// The time limits of a join: those of the input that it walks row by row, and
/// its own. A join that tests every pair walks the left one.
pub open spec fn walking_limits(
    left: AnyOperator,
    right: AnyOperator,
    looping: bool,
    g: JoinGiven,
) -> Set<u64> {
    operator::with_limit_of(
        if looping {
            left.limits()
        } else {
            hash_join::probed(left.limits(), right.limits(), g.side)
        },
        g.timeout_ctx,
    )
}

/// The time limits that building a join is under: those of the input that it
/// holds in memory, and its own.
pub open spec fn building_limits(
    left: AnyOperator,
    right: AnyOperator,
    looping: bool,
    g: JoinGiven,
) -> Set<u64> {
    operator::with_limit_of(
        if looping {
            right.limits()
        } else {
            hash_join::held(left.limits(), right.limits(), g.side)
        },
        g.timeout_ctx,
    )
}

/// Whether a join on a condition tests every pair of rows.
pub open spec fn is_looping(
    left: AnyOperator,
    right: AnyOperator,
    join_type: JoinType,
    condition: ExprModel,
) -> bool {
    join_keys::needs_nested_loop(
        join_keys::planned(condition, left.columns(), right.columns()),
        join_type,
    )
}

/// Builds a join that tests every pair of rows.
pub fn build_loop_join(
    left: AnyOperator,
    right: AnyOperator,
    join_type: JoinType,
    condition: Option<LogicalExpr>,
    given: JoinGiven,
) -> (r: Result<AnyOperator, Error>)
    requires
        left.ready(),
        right.ready(),
    ensures
        any_operator::builds_under(
            r,
            looped(
                left.relation(),
                right.relation(),
                join_type,
                logical_plan::opt_expr(condition),
                terms_of(given),
            ),
            walking_limits(left, right, true, given),
            building_limits(left, right, true, given),
        ),
{
    match NestedLoopJoinOperator::with_memory_limit(
        Box::new(left),
        Box::new(right),
        join_type,
        condition,
        given.parameters,
        given.limit,
        given.timeout_ctx,
    ) {
        Ok(op) => Ok(AnyOperator::of_loop_join(op)),
        Err(e) => Err(e),
    }
}

fn build_hash_join(
    left: AnyOperator,
    right: AnyOperator,
    join_type: JoinType,
    on: Option<LogicalExpr>,
    residual: Option<LogicalExpr>,
    keys: Option<PreboundJoinKeys>,
    projection: Option<Vec<usize>>,
    shown: Option<Arc<Schema>>,
    given: JoinGiven,
) -> (r: Result<AnyOperator, Error>)
    requires
        left.ready(),
        right.ready(),
    ensures
        any_operator::builds_under(
            r,
            hashed(
                left.relation(),
                right.relation(),
                join_type,
                logical_plan::opt_expr(on),
                logical_plan::opt_expr(residual),
                hash_join::chosen_keys(
                    keys,
                    logical_plan::opt_expr(on),
                    left.columns(),
                    right.columns(),
                ),
                logical_plan::opt_positions(projection),
                hash_join::shown_columns(shown, left.columns() + right.columns()),
                terms_of(given),
            ),
            walking_limits(left, right, false, given),
            building_limits(left, right, false, given),
        ),
{
    match HashJoinOperator::with_memory_limit_projected(
        Box::new(left),
        Box::new(right),
        join_type,
        on,
        given.parameters,
        given.side,
        given.limit,
        given.timeout_ctx,
        projection,
        shown,
        keys,
        residual,
    ) {
        Ok(op) => Ok(AnyOperator::of_hash_join(op)),
        Err(e) => Err(e),
    }
}

/// Builds a join without a condition.
pub fn build_cross_join(
    left: AnyOperator,
    right: AnyOperator,
    join_type: JoinType,
    given: JoinGiven,
) -> (r: Result<AnyOperator, Error>)
    requires
        left.ready(),
        right.ready(),
    ensures
        any_operator::builds_under(
            r,
            joined_all(left.relation(), right.relation(), join_type, terms_of(given)),
            walking_limits(left, right, false, given),
            building_limits(left, right, false, given),
        ),
{
    build_hash_join(left, right, join_type, None, None, None, None, None, given)
}

pub(crate) fn filter_above(
    r: Result<AnyOperator, Error>,
    predicate: Option<LogicalExpr>,
    parameters: Vec<Value>,
    timeout_ctx: Option<TimeoutContext>,
    Ghost(expected): Ghost<Result<Relation, ErrorModel>>,
    Ghost(limits): Ghost<Set<u64>>,
    Ghost(building): Ghost<Set<u64>>,
) -> (out: Result<AnyOperator, Error>)
    requires
        any_operator::builds_under(r, expected, limits, building),
    ensures
        any_operator::builds_under(
            out,
            filtered_relation(
                expected,
                logical_plan::opt_expr(predicate),
                value::values_model(parameters@),
            ),
            match predicate {
                Some(_) => operator::with_limit_of(limits, timeout_ctx),
                None => limits,
            },
            building,
        ),
{
    let op: AnyOperator = match r {
        Ok(op) => op,
        Err(e) => {
            return Err(e);
        },
    };
    match predicate {
        Some(p) => {
            let f: FilterOperator<AnyOperator> = FilterOperator::new(
                Box::new(op),
                p,
                parameters,
            );
            let f: FilterOperator<AnyOperator> = f.with_timeout(timeout_ctx);
            Ok(AnyOperator::of_filter(f))
        },
        None => Ok(op),
    }
}

/// Builds a join with a condition.
pub fn build_join(
    left: AnyOperator,
    right: AnyOperator,
    join_type: JoinType,
    condition: LogicalExpr,
    given: JoinGiven,
) -> (r: Result<AnyOperator, Error>)
    requires
        left.ready(),
        right.ready(),
    ensures
        any_operator::builds_under(
            r,
            joined_on(
                left.relation(),
                right.relation(),
                join_type,
                condition@,
                terms_of(given),
            ),
            walking_limits(left, right, is_looping(left, right, join_type, condition@), given),
            building_limits(left, right, is_looping(left, right, join_type, condition@), given),
        ),
{
    let left_schema: Arc<Schema> = left.schema();
    let right_schema: Arc<Schema> = right.schema();
    let plan: JoinConditionPlan = join_keys::plan_join_condition(
        &condition,
        &left_schema,
        &right_schema,
    );
    if join_keys::join_condition_needs_nested_loop(&plan, &join_type) {
        return build_loop_join(left, right, join_type, Some(condition), given);
    }
    let ghost pm = plan@;
    let ghost limits = walking_limits(left, right, is_looping(left, right, join_type, condition@), given);
    let ghost building = building_limits(left, right, is_looping(left, right, join_type, condition@), given);
    let ghost terms = terms_of(given);
    let ghost l = left.relation();
    let ghost r = right.relation();
    let JoinConditionPlan { equi, residual, direct_key_indices, bound_key_pairs } = plan;
    let keys: PreboundJoinKeys = PreboundJoinKeys {
        direct_key_indices,
        bound_key_pairs,
        keys_cover_condition: true,
    };
    assert(hash_join::chosen_keys(Some(keys), pm.equi, l.columns, r.columns) == planned_keys(pm));
    match join_type {
        JoinType::Left => build_hash_join(
            left,
            right,
            join_type,
            equi,
            residual,
            Some(keys),
            None,
            None,
            given,
        ),
        _ => {
            let parameters: Vec<Value> = value::clone_values(&given.parameters);
            let ghost expected = hashed(
                l,
                r,
                join_type,
                pm.equi,
                None,
                planned_keys(pm),
                None,
                l.columns + r.columns,
                terms,
            );
            let op: Result<AnyOperator, Error> = build_hash_join(
                left,
                right,
                join_type,
                equi,
                None,
                Some(keys),
                None,
                None,
                given,
            );
            proof {
                assert(operator::with_limit_of(limits, None) =~= limits);
            }
            filter_above(op, residual, parameters, None, Ghost(expected), Ghost(limits), Ghost(building))
        },
    }
}

/// The positions that a list of column names means in the columns of a join,
/// the first `n` of them.
pub open spec fn shown_positions(exprs: Seq<ExprModel>, n: nat, cols: Seq<ColumnModel>) -> Option<
    Seq<usize>,
>
    decreases n,
{
    if n == 0 || n > exprs.len() {
        Some(Seq::empty())
    } else {
        match (shown_positions(exprs, (n - 1) as nat, cols), exprs[n - 1]) {
            (Some(s), ExprModel::Column { table, name }) => match schema::qualified_index(
                cols,
                table,
                name,
            ) {
                Some(i) => Some(s.push(i)),
                None => None,
            },
            _ => None,
        }
    }
}

proof fn lemma_shown_positions_stop(exprs: Seq<ExprModel>, n: nat, m: nat, cols: Seq<ColumnModel>)
    requires
        shown_positions(exprs, n, cols) is None,
        n <= m <= exprs.len(),
    ensures
        shown_positions(exprs, m, cols) is None,
    decreases m - n,
{
    if n < m {
        lemma_shown_positions_stop(exprs, n, (m - 1) as nat, cols);
    }
}

fn find_shown_positions(exprs: &Vec<LogicalExpr>, schema: &Schema) -> (r: Option<Vec<usize>>)
    ensures
        logical_plan::opt_positions(r) == shown_positions(
            logical_plan::exprs_model(exprs@),
            exprs@.len(),
            schema@,
        ),
{
    let ghost em = logical_plan::exprs_model(exprs@);
    let mut out: Vec<usize> = Vec::new();
    let mut i: usize = 0;
    while i < exprs.len()
        invariant
            i <= exprs.len(),
            em == logical_plan::exprs_model(exprs@),
            em.len() == exprs.len(),
            shown_positions(em, i as nat, schema@) == Some(out@),
        decreases exprs.len() - i,
    {
        assert(em[i as int] == exprs@[i as int]@);
        match &exprs[i] {
            LogicalExpr::Column { table, name } => {
                match schema.get_qualified_column_index(schema::as_str(table), name.as_str()) {
                    Some(p) => {
                        out.push(p);
                    },
                    None => {
                        proof {
                            lemma_shown_positions_stop(em, (i + 1) as nat, em.len(), schema@);
                        }
                        return None;
                    },
                }
            },
            _ => {
                proof {
                    lemma_shown_positions_stop(em, (i + 1) as nat, em.len(), schema@);
                }
                return None;
            },
        }
        i = i + 1;
    }
    Some(out)
}

/// The output of a `SELECT` list over a relation.
pub open spec fn projected_relation(
    r: Result<Relation, ErrorModel>,
    exprs: Seq<ExprModel>,
    aliases: Seq<Seq<char>>,
    params: Seq<ValueModel>,
) -> Result<Relation, ErrorModel> {
    match r {
        Err(e) => Err(e),
        Ok(rel) => Ok(
            Relation {
                columns: project::output_columns(aliases, exprs, rel.columns),
                rows: project::projected(
                    rel.rows,
                    exprs,
                    rel.columns,
                    params,
                    project::distinct_mode(false, None),
                    Seq::empty(),
                ),
                timed: rel.timed,
            },
        ),
    }
}

/// An inner join under a `SELECT` list of plain columns: by keys with the
/// columns picked right away where the keys are the whole condition, else in
/// steps. `None` where a name means no column of the join.
pub open spec fn joined_and_shown(
    left: Relation,
    right: Relation,
    condition: ExprModel,
    exprs: Seq<ExprModel>,
    aliases: Seq<Seq<char>>,
    terms: JoinTerms,
) -> Option<Result<Relation, ErrorModel>> {
    let plan = join_keys::planned(condition, left.columns, right.columns);
    let both = left.columns + right.columns;
    if plan.equi is None || plan.residual is Some {
        Some(
            projected_relation(
                joined_on(left, right, JoinType::Inner, condition, terms),
                exprs,
                aliases,
                terms.params,
            ),
        )
    } else {
        match shown_positions(exprs, exprs.len(), both) {
            None => None,
            Some(positions) => Some(
                hashed(
                    left,
                    right,
                    JoinType::Inner,
                    plan.equi,
                    None,
                    planned_keys(plan),
                    Some(positions),
                    project::output_columns(aliases, exprs, both),
                    terms,
                ),
            ),
        }
    }
}

pub(crate) fn project_above(
    r: Result<AnyOperator, Error>,
    exprs: Vec<LogicalExpr>,
    aliases: Vec<String>,
    parameters: Vec<Value>,
    timeout_ctx: Option<TimeoutContext>,
    Ghost(expected): Ghost<Result<Relation, ErrorModel>>,
    Ghost(limits): Ghost<Set<u64>>,
    Ghost(building): Ghost<Set<u64>>,
) -> (out: Result<AnyOperator, Error>)
    requires
        any_operator::builds_under(r, expected, limits, building),
    ensures
        any_operator::builds_under(
            out,
            projected_relation(
                expected,
                logical_plan::exprs_model(exprs@),
                schema::texts(aliases@),
                value::values_model(parameters@),
            ),
            limits,
            building,
        ),
{
    let op: AnyOperator = match r {
        Ok(op) => op,
        Err(e) => {
            return Err(e);
        },
    };
    let p: ProjectOperator<AnyOperator> = ProjectOperator::new(
        Box::new(op),
        exprs,
        aliases,
        false,
        parameters,
    );
    let p: ProjectOperator<AnyOperator> = p.with_timeout(timeout_ctx);
    Ok(AnyOperator::of_project(p))
}

/// Builds an inner join under a `SELECT` list of plain columns.
pub fn build_projected_join(
    left: AnyOperator,
    right: AnyOperator,
    condition: LogicalExpr,
    exprs: &Vec<LogicalExpr>,
    aliases: &Vec<String>,
    given: JoinGiven,
) -> (r: Option<Result<AnyOperator, Error>>)
    requires
        left.ready(),
        right.ready(),
    ensures
        ({
            let expected = joined_and_shown(
                left.relation(),
                right.relation(),
                condition@,
                logical_plan::exprs_model(exprs@),
                schema::texts(aliases@),
                terms_of(given),
            );
            match r {
                Some(built) => expected matches Some(rel) && any_operator::builds_under(
                    built,
                    rel,
                    walking_limits(left, right, is_looping(left, right, JoinType::Inner, condition@), given),
                    building_limits(left, right, is_looping(left, right, JoinType::Inner, condition@), given),
                ),
                None => expected is None,
            }
        }),
{
    let left_schema: Arc<Schema> = left.schema();
    let right_schema: Arc<Schema> = right.schema();
    let plan: JoinConditionPlan = join_keys::plan_join_condition(
        &condition,
        &left_schema,
        &right_schema,
    );
    let ghost pm = plan@;
    let ghost limits = walking_limits(left, right, is_looping(left, right, JoinType::Inner, condition@), given);
    let ghost building = building_limits(left, right, is_looping(left, right, JoinType::Inner, condition@), given);
    let ghost terms = terms_of(given);
    let ghost l = left.relation();
    let ghost r = right.relation();
    if plan.equi.is_none() || plan.residual.is_some() {
        let parameters: Vec<Value> = value::clone_values(&given.parameters);
        let timeout_ctx: Option<TimeoutContext> = operator::clone_timeout(&given.timeout_ctx);
        let ghost expected = joined_on(l, r, JoinType::Inner, condition@, terms);
        let op: Result<AnyOperator, Error> = build_join(
            left,
            right,
            JoinType::Inner,
            condition,
            given,
        );
        return Some(
            project_above(
                op,
                logical_plan::clone_exprs(exprs),
                schema::clone_texts(aliases),
                parameters,
                timeout_ctx,
                Ghost(expected),
                Ghost(limits), Ghost(building),
            ),
        );
    }
    let JoinConditionPlan { equi, residual, direct_key_indices, bound_key_pairs } = plan;
    let keys: PreboundJoinKeys = PreboundJoinKeys {
        direct_key_indices,
        bound_key_pairs,
        keys_cover_condition: true,
    };
    assert(hash_join::chosen_keys(Some(keys), pm.equi, l.columns, r.columns) == planned_keys(pm));
    let combined: Schema = join_pair::combined_schema(&left_schema, &right_schema);
    let positions: Vec<usize> = match find_shown_positions(exprs, &combined) {
        Some(p) => p,
        None => {
            return None;
        },
    };
    let shown: Arc<Schema> = Arc::new(project::projection_schema(aliases, exprs, &combined));
    Some(
        build_hash_join(
            left,
            right,
            JoinType::Inner,
            equi,
            None,
            Some(keys),
            Some(positions),
            Some(shown),
            given,
        ),
    )
}

} // verus!
