use helios_exec::executor::hash_join::{HashJoinBuildSide, HashJoinOperator, PreboundJoinKeys};
use helios_exec::executor::join_keys::{bind_hash_join_key_pairs, plan_join_condition};
use helios_exec::executor::join_pair::{
    join_memory_limit_exceeded, resolve_join_memory_limit, DEFAULT_JOIN_MEMORY_LIMIT_MB,
};
use helios_exec::executor::nested_loop::NestedLoopJoinOperator;
use helios_exec::executor::operator::PhysicalOperator;
use helios_exec::executor::scan::MaterializedOperator;
use helios_exec::logical_plan::{BinaryOperator, JoinType, LogicalExpr};
use helios_exec::schema::{Column, Schema, Tuple};
use helios_exec::value::{DataType, Value};
use std::sync::Arc;

fn schema(name: &str, alias: &str) -> Arc<Schema> {
    let mut column = Column::new(name, DataType::Int4);
    column.source_table = Some(alias.to_string());
    column.source_table_name = Some(alias.to_string());
    Arc::new(Schema { columns: vec![column] })
}

fn rows(schema: &Arc<Schema>, values: &[i32]) -> Box<MaterializedOperator> {
    let tuples = values
        .iter()
        .map(|v| Tuple::new(vec![Value::Int4(*v)]))
        .collect::<Vec<_>>();
    Box::new(MaterializedOperator::new(tuples, Arc::clone(schema)))
}

fn binary(left: LogicalExpr, op: BinaryOperator, right: LogicalExpr) -> LogicalExpr {
    LogicalExpr::BinaryExpr {
        left: Box::new(left),
        op,
        right: Box::new(right),
    }
}

fn eq(left: LogicalExpr, right: LogicalExpr) -> LogicalExpr {
    binary(left, BinaryOperator::Eq, right)
}

fn col(table: &str, name: &str) -> LogicalExpr {
    LogicalExpr::Column {
        table: Some(table.to_string()),
        name: name.to_string(),
    }
}

fn pairs_of(op: &mut HashJoinOperator<MaterializedOperator>, message: &str) -> Vec<(Value, Value)> {
    let mut emitted = Vec::new();
    while let Some(tuple) = op.next().expect(message) {
        emitted.push((tuple.values[0].clone(), tuple.values[1].clone()));
    }
    emitted.sort_by_key(|(l, _)| format!("{l:?}"));
    emitted
}

#[test]
fn the_nested_loop_materialization_is_capped_like_the_hash_join_and_says_so_the_same_way() {
    let left = schema("id", "a");
    let right = schema("id", "b");
    let condition = eq(col("a", "id"), col("b", "id"));

    let nested_loop = match NestedLoopJoinOperator::with_memory_limit(
        rows(&left, &[1, 2, 3, 4, 5]),
        rows(&right, &[1, 2, 3, 4, 5]),
        JoinType::Full,
        Some(condition.clone()),
        Vec::new(),
        1,
        None,
    ) {
        Ok(_) => panic!("the nested loop must refuse to materialize past the cap"),
        Err(err) => err.to_string(),
    };
    assert!(
        nested_loop.contains("Join exceeds memory limit"),
        "nested loop: {nested_loop}"
    );
    assert!(
        nested_loop.contains("join_memory_limit_mb") && nested_loop.contains("HELIOSDB_HASH_JOIN_MEM_MB"),
        "the message must name the config key AND the env override: {nested_loop}"
    );

    let hash = match HashJoinOperator::with_memory_limit(
        rows(&left, &[1, 2, 3, 4, 5]),
        rows(&right, &[1, 2, 3, 4, 5]),
        JoinType::Full,
        Some(condition),
        Vec::new(),
        HashJoinBuildSide::Right,
        1,
        None,
    ) {
        Ok(_) => panic!("the hash join must refuse the same way"),
        Err(err) => err.to_string(),
    };
    assert_eq!(nested_loop, hash, "one cap, one error, both operators");

    // Under the cap, the same join runs.
    let left_schema = schema("id", "a");
    let right_schema = schema("id", "b");
    let mut op = NestedLoopJoinOperator::with_memory_limit(
        rows(&left_schema, &[1, 2]),
        rows(&right_schema, &[2, 3]),
        JoinType::Inner,
        Some(eq(col("a", "id"), col("b", "id"))),
        Vec::new(),
        1024 * 1024,
        None,
    )
    .expect("under the cap");
    let mut emitted = 0;
    while op.next().expect("next").is_some() {
        emitted += 1;
    }
    assert_eq!(emitted, 1, "only id = 2 joins");
}

#[test]
fn the_join_memory_cap_comes_from_the_configuration_key() {
    const MB: usize = 1024 * 1024;
    assert_eq!(
        resolve_join_memory_limit(None, 0),
        DEFAULT_JOIN_MEMORY_LIMIT_MB * MB,
        "nothing set: the built-in default"
    );
    assert_eq!(
        resolve_join_memory_limit(None, 64),
        64 * MB,
        "[performance] join_memory_limit_mb / --join-memory-limit-mb"
    );
    assert_eq!(
        resolve_join_memory_limit(Some("32"), 64),
        32 * MB,
        "HELIOSDB_HASH_JOIN_MEM_MB overrides the configured value"
    );
    assert_eq!(
        resolve_join_memory_limit(Some("nonsense"), 64),
        64 * MB,
        "an unparseable override falls back to the configured value"
    );
    assert_eq!(
        resolve_join_memory_limit(Some("0"), 0),
        DEFAULT_JOIN_MEMORY_LIMIT_MB * MB,
        "0 = the built-in default"
    );
    assert_eq!(
        resolve_join_memory_limit(Some(""), 64),
        64 * MB,
        "an empty override is not a value"
    );
}

#[test]
fn the_cap_covers_every_nested_loop_shape_not_only_right_full_with_a_residual() {
    let left = schema("id", "a");
    let right = schema("id", "b");
    let expected = join_memory_limit_exceeded(1).to_string();

    // The LATERAL / cross shape: no ON condition at all.
    let lateral = match NestedLoopJoinOperator::with_memory_limit(
        rows(&left, &[1, 2]),
        rows(&right, &[1, 2, 3, 4, 5]),
        JoinType::Inner,
        None,
        Vec::new(),
        1,
        None,
    ) {
        Ok(_) => panic!("an uncapped LATERAL materialization is what OOM-killed this host"),
        Err(err) => err.to_string(),
    };
    assert_eq!(lateral, expected, "one cap, one error");

    // A theta join: an INNER join whose ON binds no key.
    let theta = match NestedLoopJoinOperator::with_memory_limit(
        rows(&left, &[1, 2]),
        rows(&right, &[1, 2, 3, 4, 5]),
        JoinType::Inner,
        Some(binary(col("a", "id"), BinaryOperator::Gt, col("b", "id"))),
        Vec::new(),
        1,
        None,
    ) {
        Ok(_) => panic!("a theta join materializes its right input too"),
        Err(err) => err.to_string(),
    };
    assert_eq!(theta, expected, "one cap, one error");
}

#[test]
fn a_parameter_in_a_join_condition_is_evaluated_not_refused() {
    let left = schema("id", "a");
    let right = schema("id", "b");
    let condition = binary(
        eq(col("a", "id"), col("b", "id")),
        BinaryOperator::And,
        eq(col("b", "id"), LogicalExpr::Parameter { index: 1 }),
    );

    // Nested loop: the whole condition, parameters threaded.
    let mut op = NestedLoopJoinOperator::new(
        rows(&left, &[1, 2, 3]),
        rows(&right, &[1, 2, 3]),
        JoinType::Inner,
        Some(condition.clone()),
        vec![Value::Int4(2)],
        None,
    )
    .expect("nested loop builds");
    let mut emitted = Vec::new();
    while let Some(tuple) = op.next().expect("the `$1` term must evaluate, not error") {
        emitted.push(tuple.values[0].clone());
    }
    assert_eq!(emitted, vec![Value::Int4(2)], "only id = $1 = 2 survives");

    // Hash join: the keyed term hashes, the `$1` term is the pair residual.
    let plan = plan_join_condition(&condition, left.as_ref(), right.as_ref());
    let mut op = HashJoinOperator::new_with_keys(
        rows(&left, &[1, 2, 3]),
        rows(&right, &[1, 2, 3]),
        JoinType::Left,
        Some(eq(col("a", "id"), col("b", "id"))),
        Some(eq(col("b", "id"), LogicalExpr::Parameter { index: 1 })),
        vec![Value::Int4(2)],
        PreboundJoinKeys {
            direct_key_indices: None,
            bound_key_pairs: bind_hash_join_key_pairs(
                &eq(col("a", "id"), col("b", "id")),
                left.as_ref(),
                right.as_ref(),
            )
            .0,
            keys_cover_condition: true,
        },
        HashJoinBuildSide::Right,
        None,
    )
    .expect("hash join builds");
    assert_eq!(
        pairs_of(&mut op, "the `$1` residual must evaluate, not error"),
        vec![
            (Value::Int4(1), Value::Null),
            (Value::Int4(2), Value::Int4(2)),
            (Value::Int4(3), Value::Null),
        ],
        "LEFT: the probe rows whose only candidate fails the residual are NULL-extended, not dropped"
    );
    assert!(plan.equi.is_some(), "the `a.id = b.id` term keys the join");
    assert!(
        plan.residual.is_some(),
        "the `$1` term is bucketed as the residual, never dropped"
    );
}

#[test]
fn a_pair_residual_is_checked_on_a_borrowed_pair_not_on_a_fresh_combined_tuple() {
    let left = schema("id", "a");
    let right = schema("id", "b");
    let keyed = eq(col("a", "id"), col("b", "id"));
    let residual = binary(
        col("b", "id"),
        BinaryOperator::Gt,
        LogicalExpr::Literal(Value::Int4(1)),
    );
    let keys = || PreboundJoinKeys {
        direct_key_indices: None,
        bound_key_pairs: bind_hash_join_key_pairs(&keyed, left.as_ref(), right.as_ref()).0,
        keys_cover_condition: true,
    };

    let mut op = HashJoinOperator::new_with_keys(
        rows(&left, &[1, 2, 3]),
        rows(&right, &[1, 2, 3]),
        JoinType::Left,
        Some(keyed.clone()),
        Some(residual),
        Vec::new(),
        keys(),
        HashJoinBuildSide::Right,
        None,
    )
    .expect("hash join builds");
    assert!(
        op.pair_residual_on_pair(),
        "a plain comparison residual is evaluated on the borrowed pair"
    );
    assert_eq!(
        pairs_of(&mut op, "next"),
        vec![
            (Value::Int4(1), Value::Null),
            (Value::Int4(2), Value::Int4(2)),
            (Value::Int4(3), Value::Int4(3)),
        ],
        "LEFT: the row whose only candidate fails the residual is NULL-extended"
    );

    // A `$n` is not in the pair evaluator's supported set.
    let op = HashJoinOperator::new_with_keys(
        rows(&left, &[1, 2, 3]),
        rows(&right, &[1, 2, 3]),
        JoinType::Left,
        Some(keyed.clone()),
        Some(eq(col("b", "id"), LogicalExpr::Parameter { index: 1 })),
        vec![Value::Int4(2)],
        keys(),
        HashJoinBuildSide::Right,
        None,
    )
    .expect("hash join builds");
    assert!(
        !op.pair_residual_on_pair(),
        "a parameterized residual falls back to the combined tuple"
    );
}

#[test]
fn both_build_sides_give_the_same_pairs() {
    let left = schema("id", "a");
    let right = schema("id", "b");
    let mut op = HashJoinOperator::new_build_left(
        rows(&left, &[1, 2, 3]),
        rows(&right, &[2, 3, 4]),
        JoinType::Inner,
        Some(eq(col("a", "id"), col("b", "id"))),
        Vec::new(),
        None,
    )
    .expect("left build side");
    assert_eq!(
        pairs_of(&mut op, "left build side"),
        vec![(Value::Int4(2), Value::Int4(2)), (Value::Int4(3), Value::Int4(3))]
    );
}

/// The rows of a join of numbers and NULLs, in order.
fn all_of<O: PhysicalOperator>(op: &mut O) -> Vec<String> {
    let mut out = Vec::new();
    while let Some(tuple) = op.next().expect("next") {
        out.push(format!("{:?}", tuple.values));
    }
    out
}

fn keys(schema: &Arc<Schema>, values: &[Option<i32>]) -> Box<MaterializedOperator> {
    let tuples = values
        .iter()
        .map(|v| Tuple::new(vec![v.map_or(Value::Null, Value::Int4)]))
        .collect::<Vec<_>>();
    Box::new(MaterializedOperator::new(tuples, Arc::clone(schema)))
}

#[test]
fn the_hash_join_gives_the_rows_of_the_nested_loop() {
    let left = schema("id", "a");
    let right = schema("id", "b");
    let l = [Some(2), None, Some(1), Some(2), Some(7)];
    let r = [Some(2), Some(1), None, Some(2), Some(9)];
    for join_type in [JoinType::Inner, JoinType::Left] {
        let on = || Some(eq(col("a", "id"), col("b", "id")));
        let mut hashed =
            HashJoinOperator::new(keys(&left, &l), keys(&right, &r), join_type, on(), Vec::new(), None)
                .expect("hash join");
        let mut looped =
            NestedLoopJoinOperator::new(keys(&left, &l), keys(&right, &r), join_type, on(), Vec::new(), None)
                .expect("nested loop");
        assert_eq!(all_of(&mut hashed), all_of(&mut looped));
    }
}

#[test]
fn the_build_side_keeps_the_rows() {
    let left = schema("id", "a");
    let right = schema("id", "b");
    let l = [Some(2), None, Some(1), Some(2), Some(7)];
    let r = [Some(2), Some(1), None, Some(2), Some(9)];
    let on = || Some(eq(col("a", "id"), col("b", "id")));
    let mut ours =
        HashJoinOperator::new(keys(&left, &l), keys(&right, &r), JoinType::Inner, on(), Vec::new(), None)
            .expect("right build side");
    let mut theirs = HashJoinOperator::new_build_left(
        keys(&left, &l),
        keys(&right, &r),
        JoinType::Inner,
        on(),
        Vec::new(),
        None,
    )
    .expect("left build side");
    let mut a = all_of(&mut ours);
    let mut b = all_of(&mut theirs);
    a.sort();
    b.sort();
    assert_eq!(a.len(), 5);
    assert_eq!(a, b);
}

#[test]
fn a_row_without_a_key_stays_in_a_right_join() {
    let left = schema("id", "a");
    let right = schema("id", "b");
    let on = || Some(eq(col("a", "id"), col("b", "id")));
    let mut op = HashJoinOperator::new(
        keys(&left, &[Some(1)]),
        keys(&right, &[Some(1), None]),
        JoinType::Right,
        on(),
        Vec::new(),
        None,
    )
    .expect("right join");
    assert_eq!(all_of(&mut op), vec!["[Int4(1), Int4(1)]", "[Null, Null]"]);
    let mut full = HashJoinOperator::new(
        keys(&left, &[None, Some(3)]),
        keys(&right, &[None, Some(4)]),
        JoinType::Full,
        on(),
        Vec::new(),
        None,
    )
    .expect("full join");
    assert_eq!(
        all_of(&mut full),
        vec!["[Null, Null]", "[Int4(3), Null]", "[Null, Int4(4)]", "[Null, Null]"]
    );
}

#[test]
fn a_projected_join_with_given_keys_hands_out_the_picked_columns() {
    let left = schema("id", "a");
    let right = schema("id", "b");
    let condition = eq(col("a", "id"), col("b", "id"));
    let keys = PreboundJoinKeys {
        direct_key_indices: None,
        bound_key_pairs: bind_hash_join_key_pairs(&condition, left.as_ref(), right.as_ref()).0,
        keys_cover_condition: true,
    };
    let mut op = HashJoinOperator::new_projected_inner_with_keys(
        rows(&left, &[1, 2]),
        rows(&right, &[2, 3]),
        Some(condition),
        Vec::new(),
        keys,
        vec![1],
        schema("id", "b"),
        HashJoinBuildSide::Right,
        None,
    )
    .expect("projected");
    let row = op.next().expect("next").expect("one pair");
    assert_eq!(row.values, vec![Value::Int4(2)]);
    assert!(op.next().expect("next").is_none());
    assert_eq!(op.schema().columns.len(), 1);
}
