use helios_exec::executor::join_keys::{
    bind_hash_join_key_pairs, collect_equi_column_pairs, extract_equi_columns,
    hash_join_keys_need_nested_loop, join_condition_needs_nested_loop, plan_join_condition,
    post_join_residual_filter,
};
use helios_exec::logical_plan::{BinaryOperator, JoinType, LogicalExpr};
use helios_exec::schema::{Column, Schema};
use helios_exec::value::{DataType, Value};

fn input(alias: &str, real: &str) -> Schema {
    let mut id = Column::new("id", DataType::Int4);
    id.source_table = Some(alias.to_string());
    id.source_table_name = Some(real.to_string());
    Schema { columns: vec![id] }
}

fn col(table: Option<&str>, name: &str) -> LogicalExpr {
    LogicalExpr::Column {
        table: table.map(str::to_string),
        name: name.to_string(),
    }
}

fn binary(left: LogicalExpr, op: BinaryOperator, right: LogicalExpr) -> LogicalExpr {
    LogicalExpr::BinaryExpr {
        left: Box::new(left),
        op,
        right: Box::new(right),
    }
}

fn plus_one(expr: LogicalExpr) -> LogicalExpr {
    binary(expr, BinaryOperator::Plus, LogicalExpr::Literal(Value::Int4(1)))
}

fn eq(left: LogicalExpr, right: LogicalExpr) -> LogicalExpr {
    binary(left, BinaryOperator::Eq, right)
}

fn is_bound_slot_zero(expr: &LogicalExpr) -> bool {
    matches!(expr, LogicalExpr::BoundColumn { index: 0, .. })
}

#[test]
fn case_distinct_quoted_aliases_bind_to_their_exact_side() {
    // FROM t AS "A" JOIN t AS "a" ON "a".id = "A".id + 1
    let left = input("A", "t");
    let right = input("a", "t");
    let (pairs, covered) =
        bind_hash_join_key_pairs(&eq(col(Some("a"), "id"), plus_one(col(Some("A"), "id"))), &left, &right);
    assert!(covered);
    assert_eq!(pairs.len(), 1);
    // `"a".id` is the right input's column; `"A".id + 1` the left's.
    assert!(is_bound_slot_zero(&pairs[0].right), "{:?}", pairs[0].right);
    assert!(
        matches!(&pairs[0].left, LogicalExpr::BinaryExpr { left, .. } if is_bound_slot_zero(left)),
        "{:?}",
        pairs[0].left
    );
    // Reversed spelling, same assignment.
    let (pairs, covered) =
        bind_hash_join_key_pairs(&eq(plus_one(col(Some("A"), "id")), col(Some("a"), "id")), &left, &right);
    assert!(covered);
    assert_eq!(pairs.len(), 1);
    assert!(is_bound_slot_zero(&pairs[0].right), "{:?}", pairs[0].right);
}

#[test]
fn the_unquoted_twin_still_hashes() {
    // FROM t AS a JOIN t AS b ON b.id = a.id + 1
    let left = input("a", "t");
    let right = input("b", "t");
    let condition = eq(col(Some("b"), "id"), plus_one(col(Some("a"), "id")));
    let (pairs, covered) = bind_hash_join_key_pairs(&condition, &left, &right);
    assert!(covered);
    assert_eq!(pairs.len(), 1);
    assert!(is_bound_slot_zero(&pairs[0].right), "{:?}", pairs[0].right);
    assert!(!hash_join_keys_need_nested_loop(
        &condition,
        &JoinType::Inner,
        &left,
        &right
    ));
}

#[test]
fn the_case_folded_pass_still_serves_an_unquoted_reference_to_a_mixed_case_alias() {
    // Alias `"Acc"` referenced as `acc`: the exact pass matches on neither
    // side, the folded one does.
    let left = input("Acc", "t");
    let right = input("b", "t");
    let (pairs, covered) = bind_hash_join_key_pairs(
        &eq(plus_one(col(Some("acc"), "id")), col(Some("b"), "id")),
        &left,
        &right,
    );
    assert!(covered);
    assert_eq!(pairs.len(), 1);
    assert!(is_bound_slot_zero(&pairs[0].right), "{:?}", pairs[0].right);
}

#[test]
fn a_term_whose_qualified_operands_both_fit_both_sides_is_declined() {
    // `acc.id` matches neither `"Acc"` nor `"ACC"` exactly, so the folded pass
    // resolves it on both.
    let left = input("Acc", "t");
    let right = input("ACC", "t");
    let condition = eq(col(Some("acc"), "id"), plus_one(col(Some("acc"), "id")));
    let (pairs, covered) = bind_hash_join_key_pairs(&condition, &left, &right);
    assert!(!covered);
    assert!(pairs.is_empty());
    // Nothing to hash on: a nested-loop join, whatever the join type.
    assert!(hash_join_keys_need_nested_loop(
        &condition,
        &JoinType::Inner,
        &left,
        &right
    ));
}

#[test]
fn a_bare_name_both_inputs_carry_keys_left_to_right() {
    // What `NATURAL JOIN` and `JOIN ... USING (id)` come to: both operands
    // bare. One pair, left slot to right slot.
    let left = input("a", "t");
    let right = input("b", "t");
    let condition = eq(col(None, "id"), col(None, "id"));
    let (pairs, covered) = bind_hash_join_key_pairs(&condition, &left, &right);
    assert!(covered);
    assert_eq!(pairs.len(), 1);
    assert!(is_bound_slot_zero(&pairs[0].left), "{:?}", pairs[0].left);
    assert!(is_bound_slot_zero(&pairs[0].right), "{:?}", pairs[0].right);
    assert!(
        !hash_join_keys_need_nested_loop(&condition, &JoinType::Inner, &left, &right),
        "a NATURAL/USING key must never be routed to the nested loop"
    );
    for join_type in [JoinType::Left, JoinType::Right, JoinType::Full] {
        assert!(
            !hash_join_keys_need_nested_loop(&condition, &join_type, &left, &right),
            "{join_type:?}"
        );
    }
    // The expression spelling binds one pair too, in natural order.
    let condition = eq(col(None, "id"), plus_one(col(None, "id")));
    let (pairs, covered) = bind_hash_join_key_pairs(&condition, &left, &right);
    assert!(covered);
    assert_eq!(pairs.len(), 1);
    assert!(is_bound_slot_zero(&pairs[0].left), "{:?}", pairs[0].left);
    assert!(
        matches!(&pairs[0].right, LogicalExpr::BinaryExpr { left, .. } if is_bound_slot_zero(left)),
        "{:?}",
        pairs[0].right
    );
    assert!(!hash_join_keys_need_nested_loop(
        &condition,
        &JoinType::Inner,
        &left,
        &right
    ));
}

#[test]
fn a_declined_equality_term_lands_in_the_residual_never_nowhere() {
    let left = input("a", "t");
    let right = input("b", "t");
    let condition = binary(
        eq(col(Some("a"), "id"), col(Some("b"), "id")),
        BinaryOperator::And,
        eq(LogicalExpr::Literal(Value::Int4(5)), col(Some("b"), "id")),
    );
    let plan = plan_join_condition(&condition, &left, &right);
    assert!(plan.equi.is_some(), "the column pair still keys the join");
    let residual = plan.residual.expect("the literal term must be in the residual");
    assert!(
        matches!(&residual, LogicalExpr::BinaryExpr { left, op: BinaryOperator::Eq, .. }
            if matches!(left.as_ref(), LogicalExpr::Literal(Value::Int4(5)))),
        "{residual:?}"
    );
    // A term that is no equality goes to the residual as well.
    let condition = binary(
        eq(col(Some("a"), "id"), col(Some("b"), "id")),
        BinaryOperator::And,
        binary(
            col(Some("b"), "id"),
            BinaryOperator::Gt,
            LogicalExpr::Literal(Value::Int4(5)),
        ),
    );
    let plan = plan_join_condition(&condition, &left, &right);
    assert!(plan.equi.is_some());
    assert!(plan.residual.is_some());
    // Under RIGHT and FULL a residual takes the nested loop.
    assert!(join_condition_needs_nested_loop(&plan, &JoinType::Right));
    assert!(join_condition_needs_nested_loop(&plan, &JoinType::Full));
    assert!(!join_condition_needs_nested_loop(&plan, &JoinType::Inner));
    assert!(!join_condition_needs_nested_loop(&plan, &JoinType::Left));
}

#[test]
fn the_index_nested_loop_never_takes_a_compound_on_condition() {
    let one = eq(col(Some("a"), "id"), col(Some("b"), "id"));
    assert!(extract_equi_columns(&one).is_some());
    let compound = binary(
        one,
        BinaryOperator::And,
        eq(col(Some("a"), "x"), LogicalExpr::Literal(Value::Int4(20))),
    );
    assert!(
        extract_equi_columns(&compound).is_none(),
        "a compound ON must fall through to the hash join"
    );
}

#[test]
fn a_literal_operand_is_never_keyed_and_right_or_full_declines_to_nested_loop() {
    // ON a.id = b.id AND 5 = b.id
    let left = input("a", "t");
    let right = input("b", "t");
    let condition = binary(
        eq(col(Some("a"), "id"), col(Some("b"), "id")),
        BinaryOperator::And,
        eq(LogicalExpr::Literal(Value::Int4(5)), col(Some("b"), "id")),
    );
    let (pairs, covered) = bind_hash_join_key_pairs(&condition, &left, &right);
    assert!(!covered, "the literal term leaves the key");
    assert_eq!(pairs.len(), 1, "the column pair still hashes");
    assert!(!hash_join_keys_need_nested_loop(
        &condition,
        &JoinType::Inner,
        &left,
        &right
    ));
    assert!(!hash_join_keys_need_nested_loop(
        &condition,
        &JoinType::Left,
        &left,
        &right
    ));
    assert!(hash_join_keys_need_nested_loop(
        &condition,
        &JoinType::Right,
        &left,
        &right
    ));
    assert!(hash_join_keys_need_nested_loop(
        &condition,
        &JoinType::Full,
        &left,
        &right
    ));
}

#[test]
fn a_projected_join_never_stacks_a_filter_over_an_operator_that_already_has_the_condition() {
    let residual = eq(col(Some("a"), "id"), col(Some("b"), "id"));
    assert!(
        post_join_residual_filter(true, Some(residual.clone())).is_none(),
        "the nested loop already carries the whole condition: nothing may be stacked on it"
    );
    assert_eq!(
        format!("{:?}", post_join_residual_filter(false, Some(residual.clone()))),
        format!("{:?}", Some(residual)),
        "a residual the operator does NOT carry must still be filtered"
    );
    assert!(post_join_residual_filter(false, None).is_none());
}

#[test]
fn the_cardinality_heuristic_sees_an_equality_inside_a_compound_on() {
    let compound = binary(
        eq(col(Some("a"), "id"), col(Some("b"), "id")),
        BinaryOperator::And,
        eq(col(Some("a"), "x"), LogicalExpr::Literal(Value::Int4(20))),
    );
    let mut pairs = Vec::new();
    collect_equi_column_pairs(&compound, &mut pairs);
    assert_eq!(pairs.len(), 1, "the one plain column equality of the chain");
    assert_eq!(pairs[0].0, (Some("a".to_string()), "id".to_string()));
    assert_eq!(pairs[0].1, (Some("b".to_string()), "id".to_string()));
    // The strict form refuses the compound shape.
    assert!(extract_equi_columns(&compound).is_none());
}
