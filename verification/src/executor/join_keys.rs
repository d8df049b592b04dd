//! Join conditions: which terms can key a hash join, and which are left to be
//! checked on each pair.

use crate::evaluator;
use crate::expr_tree;
use crate::expr_tree::ColumnRef;
use crate::logical_plan;
use crate::logical_plan::{BinaryOperator, ExprModel, JoinType, LogicalExpr};
use crate::schema;
use crate::schema::{Column, ColumnModel, Schema};
use crate::text;
use crate::value;
use crate::value::ValueModel;
use vstd::prelude::*;

verus! {

/// What a qualifier is held against: the name a table has in the query, or the
/// table's own name.
#[derive(Clone, Copy, PartialEq, Eq, Structural)]
pub enum DirectJoinQualifierTier {
    Alias,
    RealName,
}

/// How names are held against each other.
#[derive(Clone, Copy, PartialEq, Eq, Structural)]
pub enum DirectJoinNameCase {
    Exact,
    IgnoreAsciiCase,
}

/// What became of a column name in one join input.
#[derive(Clone, Copy, PartialEq, Eq, Structural)]
pub enum DirectJoinMatch {
    Missing,
    Unique(usize),
    Ambiguous,
}

/// The input, and the position in it, that a key column belongs to.
#[derive(Clone, Copy, PartialEq, Eq, Structural)]
pub enum DirectJoinKeySide {
    Left(usize),
    Right(usize),
}

pub open spec fn names_agree(
    value: Option<Seq<char>>,
    expected: Seq<char>,
    case: DirectJoinNameCase,
) -> bool {
    match value {
        Some(v) => match case {
            DirectJoinNameCase::Exact => v == expected,
            DirectJoinNameCase::IgnoreAsciiCase => text::same_ignoring_case(v, expected),
        },
        None => false,
    }
}

/// Whether a column is meant by a name and an optional qualifier.
pub open spec fn column_meant(
    column: ColumnModel,
    qualifier: Option<Seq<char>>,
    name: Seq<char>,
    tier: DirectJoinQualifierTier,
    case: DirectJoinNameCase,
) -> bool {
    names_agree(Some(column.name), name, case) && match qualifier {
        None => true,
        Some(q) => match tier {
            DirectJoinQualifierTier::Alias => names_agree(column.source_table, q, case),
            DirectJoinQualifierTier::RealName => names_agree(column.source_table_name, q, case),
        },
    }
}

/// The first column from position `from` on that is meant.
pub open spec fn first_meant(
    cols: Seq<ColumnModel>,
    qualifier: Option<Seq<char>>,
    name: Seq<char>,
    tier: DirectJoinQualifierTier,
    case: DirectJoinNameCase,
    from: int,
) -> Option<usize>
    decreases cols.len() - from,
{
    if from < 0 || from >= cols.len() {
        None
    } else if column_meant(cols[from], qualifier, name, tier, case) {
        Some(from as usize)
    } else {
        first_meant(cols, qualifier, name, tier, case, from + 1)
    }
}

/// How a column name is resolved in one input.
pub open spec fn resolved(
    cols: Seq<ColumnModel>,
    qualifier: Option<Seq<char>>,
    name: Seq<char>,
    tier: DirectJoinQualifierTier,
    case: DirectJoinNameCase,
) -> DirectJoinMatch {
    match first_meant(cols, qualifier, name, tier, case, 0) {
        None => DirectJoinMatch::Missing,
        Some(i) => if first_meant(cols, qualifier, name, tier, case, i + 1) is Some {
            DirectJoinMatch::Ambiguous
        } else {
            DirectJoinMatch::Unique(i)
        },
    }
}

/// How a column name is resolved in both inputs: letter for letter where that
/// finds anything on either side, else without regard to case.
pub open spec fn resolved_both(
    left: Seq<ColumnModel>,
    right: Seq<ColumnModel>,
    qualifier: Option<Seq<char>>,
    name: Seq<char>,
    tier: DirectJoinQualifierTier,
) -> (DirectJoinMatch, DirectJoinMatch) {
    let l = resolved(left, qualifier, name, tier, DirectJoinNameCase::Exact);
    let r = resolved(right, qualifier, name, tier, DirectJoinNameCase::Exact);
    if l != DirectJoinMatch::Missing || r != DirectJoinMatch::Missing {
        (l, r)
    } else {
        (
            resolved(left, qualifier, name, tier, DirectJoinNameCase::IgnoreAsciiCase),
            resolved(right, qualifier, name, tier, DirectJoinNameCase::IgnoreAsciiCase),
        )
    }
}

/// How a qualified column name is resolved in both inputs: as an alias where
/// that finds anything on either side, else as a table's own name.
pub open spec fn resolved_tiers(
    left: Seq<ColumnModel>,
    right: Seq<ColumnModel>,
    qualifier: Seq<char>,
    name: Seq<char>,
) -> (DirectJoinMatch, DirectJoinMatch) {
    let a = resolved_both(left, right, Some(qualifier), name, DirectJoinQualifierTier::Alias);
    if a.0 != DirectJoinMatch::Missing || a.1 != DirectJoinMatch::Missing {
        a
    } else {
        resolved_both(left, right, Some(qualifier), name, DirectJoinQualifierTier::RealName)
    }
}

/// The one input that a column name belongs to.
pub open spec fn one_side(m: (DirectJoinMatch, DirectJoinMatch)) -> Option<DirectJoinKeySide> {
    match m {
        (DirectJoinMatch::Unique(i), DirectJoinMatch::Missing) => Some(DirectJoinKeySide::Left(i)),
        (DirectJoinMatch::Missing, DirectJoinMatch::Unique(i)) => Some(DirectJoinKeySide::Right(i)),
        _ => None,
    }
}

/// The one input that a key operand belongs to, where it is a plain column.
pub open spec fn direct_side(
    e: ExprModel,
    left: Seq<ColumnModel>,
    right: Seq<ColumnModel>,
) -> Option<DirectJoinKeySide> {
    match e {
        ExprModel::Column { table, name } => one_side(
            match table {
                None => resolved_both(left, right, None, name, DirectJoinQualifierTier::Alias),
                Some(q) => resolved_tiers(left, right, q, name),
            },
        ),
        _ => None,
    }
}

pub open spec fn unique_position(m: DirectJoinMatch) -> Option<usize> {
    match m {
        DirectJoinMatch::Unique(i) => Some(i),
        _ => None,
    }
}

/// The position of a column of a key operand in either input.
pub open spec fn key_ref(
    table: Option<Seq<char>>,
    name: Seq<char>,
    left: Seq<ColumnModel>,
    right: Seq<ColumnModel>,
) -> (Option<usize>, Option<usize>) {
    match table {
        None => (schema::column_index(left, name), schema::column_index(right, name)),
        Some(q) => {
            let m = resolved_tiers(left, right, q, name);
            (unique_position(m.0), unique_position(m.1))
        },
    }
}

/// Whether a name is the expected one.
pub fn option_eq_ignore_ascii_case(value: Option<&str>, expected: &str) -> (r: bool)
    ensures
        r == names_agree(schema::opt_str(value), expected@, DirectJoinNameCase::IgnoreAsciiCase),
{
    match value {
        Some(v) => text::eq_ignore_ascii_case(v, expected),
        None => false,
    }
}

fn same_name(value: Option<&str>, expected: &str, case: DirectJoinNameCase) -> (r: bool)
    ensures
        r == names_agree(schema::opt_str(value), expected@, case),
{
    match case {
        DirectJoinNameCase::Exact => match value {
            Some(v) => text::same_text(v, expected),
            None => false,
        },
        DirectJoinNameCase::IgnoreAsciiCase => option_eq_ignore_ascii_case(value, expected),
    }
}

fn is_meant(
    column: &Column,
    qualifier: Option<&str>,
    name: &str,
    tier: DirectJoinQualifierTier,
    case: DirectJoinNameCase,
) -> (r: bool)
    ensures
        r == column_meant(column@, schema::opt_str(qualifier), name@, tier, case),
{
    same_name(Some(column.name.as_str()), name, case) && match qualifier {
        None => true,
        Some(q) => match tier {
            DirectJoinQualifierTier::Alias => same_name(
                schema::as_str(&column.source_table),
                q,
                case,
            ),
            DirectJoinQualifierTier::RealName => same_name(
                schema::as_str(&column.source_table_name),
                q,
                case,
            ),
        },
    }
}

fn next_meant(
    schema: &Schema,
    qualifier: Option<&str>,
    name: &str,
    tier: DirectJoinQualifierTier,
    case: DirectJoinNameCase,
    from: usize,
) -> (r: Option<usize>)
    ensures
        r == first_meant(schema@, schema::opt_str(qualifier), name@, tier, case, from as int),
        r matches Some(i) ==> i < schema.columns.len(),
{
    let mut i: usize = from;
    while i < schema.columns.len()
        invariant
            from <= i,
            first_meant(schema@, schema::opt_str(qualifier), name@, tier, case, from as int)
                == first_meant(schema@, schema::opt_str(qualifier), name@, tier, case, i as int),
        decreases schema.columns.len() - i,
    {
        assert(schema@[i as int] == schema.columns@[i as int]@);
        if is_meant(&schema.columns[i], qualifier, name, tier, case) {
            return Some(i);
        }
        i = i + 1;
    }
    None
}

/// Resolves a column name in one input.
pub fn resolve_direct_join_column(
    schema: &Schema,
    qualifier: Option<&str>,
    name: &str,
    tier: DirectJoinQualifierTier,
    case: DirectJoinNameCase,
) -> (r: DirectJoinMatch)
    ensures
        r == resolved(schema@, schema::opt_str(qualifier), name@, tier, case),
{
    match next_meant(schema, qualifier, name, tier, case, 0) {
        None => DirectJoinMatch::Missing,
        Some(i) => match next_meant(schema, qualifier, name, tier, case, i + 1) {
            Some(_) => DirectJoinMatch::Ambiguous,
            None => DirectJoinMatch::Unique(i),
        },
    }
}

/// Resolves a column name in both inputs.
pub fn resolve_join_column_both_sides(
    left_schema: &Schema,
    right_schema: &Schema,
    qualifier: Option<&str>,
    name: &str,
    tier: DirectJoinQualifierTier,
) -> (r: (DirectJoinMatch, DirectJoinMatch))
    ensures
        r == resolved_both(left_schema@, right_schema@, schema::opt_str(qualifier), name@, tier),
{
    let l: DirectJoinMatch = resolve_direct_join_column(
        left_schema,
        qualifier,
        name,
        tier,
        DirectJoinNameCase::Exact,
    );
    let r: DirectJoinMatch = resolve_direct_join_column(
        right_schema,
        qualifier,
        name,
        tier,
        DirectJoinNameCase::Exact,
    );
    if l != DirectJoinMatch::Missing || r != DirectJoinMatch::Missing {
        (l, r)
    } else {
        (
            resolve_direct_join_column(
                left_schema,
                qualifier,
                name,
                tier,
                DirectJoinNameCase::IgnoreAsciiCase,
            ),
            resolve_direct_join_column(
                right_schema,
                qualifier,
                name,
                tier,
                DirectJoinNameCase::IgnoreAsciiCase,
            ),
        )
    }
}

fn resolve_tiers(left_schema: &Schema, right_schema: &Schema, qualifier: &str, name: &str) -> (r: (
    DirectJoinMatch,
    DirectJoinMatch,
))
    ensures
        r == resolved_tiers(left_schema@, right_schema@, qualifier@, name@),
{
    let a: (DirectJoinMatch, DirectJoinMatch) = resolve_join_column_both_sides(
        left_schema,
        right_schema,
        Some(qualifier),
        name,
        DirectJoinQualifierTier::Alias,
    );
    if a.0 != DirectJoinMatch::Missing || a.1 != DirectJoinMatch::Missing {
        return a;
    }
    resolve_join_column_both_sides(
        left_schema,
        right_schema,
        Some(qualifier),
        name,
        DirectJoinQualifierTier::RealName,
    )
}

/// The one input that a key operand belongs to, where it is a plain column.
pub fn direct_join_key_side(expr: &LogicalExpr, left_schema: &Schema, right_schema: &Schema) -> (r:
    Option<DirectJoinKeySide>)
    ensures
        r == direct_side(expr@, left_schema@, right_schema@),
{
    match expr {
        LogicalExpr::Column { table, name } => {
            let m: (DirectJoinMatch, DirectJoinMatch) = match table {
                None => resolve_join_column_both_sides(
                    left_schema,
                    right_schema,
                    None,
                    name.as_str(),
                    DirectJoinQualifierTier::Alias,
                ),
                Some(q) => resolve_tiers(left_schema, right_schema, q.as_str(), name.as_str()),
            };
            match m {
                (DirectJoinMatch::Unique(i), DirectJoinMatch::Missing) => Some(
                    DirectJoinKeySide::Left(i),
                ),
                (DirectJoinMatch::Missing, DirectJoinMatch::Unique(i)) => Some(
                    DirectJoinKeySide::Right(i),
                ),
                _ => None,
            }
        },
        _ => None,
    }
}

fn unique(m: DirectJoinMatch) -> (r: Option<usize>)
    ensures
        r == unique_position(m),
{
    match m {
        DirectJoinMatch::Unique(i) => Some(i),
        _ => None,
    }
}

/// The position of a column of a key operand in either input.
pub fn resolve_join_key_ref(
    qualifier: Option<&str>,
    name: &str,
    left_schema: &Schema,
    right_schema: &Schema,
) -> (r: (Option<usize>, Option<usize>))
    ensures
        r == key_ref(schema::opt_str(qualifier), name@, left_schema@, right_schema@),
{
    match qualifier {
        None => (left_schema.get_column_index(name), right_schema.get_column_index(name)),
        Some(q) => {
            let m: (DirectJoinMatch, DirectJoinMatch) = resolve_tiers(
                left_schema,
                right_schema,
                q,
                name,
            );
            (unique(m.0), unique(m.1))
        },
    }
}

/// The operands of the equalities that make up a condition, where it is made
/// up of nothing else.
pub open spec fn equality_operands(e: ExprModel) -> Option<Seq<(ExprModel, ExprModel)>>
    decreases e,
{
    match e {
        ExprModel::BinaryExpr { left, op: BinaryOperator::And, right } => match (
            equality_operands(*left),
            equality_operands(*right),
        ) {
            (Some(a), Some(b)) => Some(a + b),
            _ => None,
        },
        ExprModel::BinaryExpr { left, op: BinaryOperator::Eq, right } => Some(
            seq![(*left, *right)],
        ),
        _ => None,
    }
}

/// The positions of a pair of plain columns, left input first.
pub open spec fn direct_pair(
    p: (ExprModel, ExprModel),
    left: Seq<ColumnModel>,
    right: Seq<ColumnModel>,
) -> Option<(usize, usize)> {
    match (direct_side(p.0, left, right), direct_side(p.1, left, right)) {
        (Some(DirectJoinKeySide::Left(l)), Some(DirectJoinKeySide::Right(r))) => Some((l, r)),
        (Some(DirectJoinKeySide::Right(r)), Some(DirectJoinKeySide::Left(l))) => Some((l, r)),
        _ => None,
    }
}

/// The keys of a condition made up of equalities of plain columns, one of each
/// input: the positions on the left and those on the right.
pub open spec fn direct_keys(
    e: ExprModel,
    left: Seq<ColumnModel>,
    right: Seq<ColumnModel>,
) -> Option<(Seq<usize>, Seq<usize>)> {
    match equality_operands(e) {
        None => None,
        Some(ps) => if ps.len() > 0 && forall|i: int|
            0 <= i < ps.len() ==> direct_pair(#[trigger] ps[i], left, right) is Some {
            Some(
                (
                    Seq::new(ps.len(), |i: int| direct_pair(ps[i], left, right)->Some_0.0),
                    Seq::new(ps.len(), |i: int| direct_pair(ps[i], left, right)->Some_0.1),
                ),
            )
        } else {
            None
        },
    }
}

/// Key columns by position.
pub struct DirectJoinKeyIndices {
    pub left: Vec<usize>,
    pub right: Vec<usize>,
}

/// The positions on both sides.
pub open spec fn indices_model(k: Option<DirectJoinKeyIndices>) -> Option<(Seq<usize>, Seq<usize>)> {
    match k {
        Some(d) => Some((d.left@, d.right@)),
        None => None,
    }
}

/// What pairs of borrowed expressions stand for.
pub open spec fn operands_model(s: Seq<(&LogicalExpr, &LogicalExpr)>) -> Seq<(ExprModel, ExprModel)> {
    Seq::new(s.len(), |i: int| (s[i].0@, s[i].1@))
}

fn collect_direct_equi_pairs<'a>(
    expr: &'a LogicalExpr,
    pairs: &mut Vec<(&'a LogicalExpr, &'a LogicalExpr)>,
) -> (r: Option<()>)
    ensures
        match r {
            Some(_) => equality_operands(expr@) is Some && operands_model(final(pairs)@)
                == operands_model(old(pairs)@) + equality_operands(expr@)->Some_0,
            None => equality_operands(expr@) is None,
        },
    decreases expr,
{
    match expr {
        LogicalExpr::BinaryExpr { left, op: BinaryOperator::And, right } => {
            if collect_direct_equi_pairs(left, pairs).is_none() {
                return None;
            }
            let r: Option<()> = collect_direct_equi_pairs(right, pairs);
            proof {
                if r is Some {
                    let a = equality_operands((**left)@)->Some_0;
                    let b = equality_operands((**right)@)->Some_0;
                    let o = operands_model(old(pairs)@);
                    assert((o + a) + b =~= o + (a + b));
                }
            }
            r
        },
        LogicalExpr::BinaryExpr { left, op: BinaryOperator::Eq, right } => {
            let ghost before = operands_model(pairs@);
            pairs.push((&**left, &**right));
            assert(operands_model(pairs@) =~= before + seq![((**left)@, (**right)@)]);
            Some(())
        },
        _ => None,
    }
}

/// The keys of a condition made up of equalities of plain columns.
pub fn build_direct_join_key_indices(
    condition: &LogicalExpr,
    left_schema: &Schema,
    right_schema: &Schema,
) -> (r: Option<DirectJoinKeyIndices>)
    ensures
        indices_model(r) == direct_keys(condition@, left_schema@, right_schema@),
        r matches Some(k) ==> k.left.len() == k.right.len(),
{
    let mut pairs: Vec<(&LogicalExpr, &LogicalExpr)> = Vec::new();
    if collect_direct_equi_pairs(condition, &mut pairs).is_none() {
        return None;
    }
    let ghost ps = equality_operands(condition@)->Some_0;
    assert(operands_model(pairs@) =~= ps);
    if pairs.len() == 0 {
        return None;
    }
    let mut left: Vec<usize> = Vec::new();
    let mut right: Vec<usize> = Vec::new();
    for i in 0..pairs.len()
        invariant
            equality_operands(condition@) == Some(ps),
            operands_model(pairs@) == ps,
            left.len() == i,
            right.len() == i,
            forall|j: int|
                0 <= j < i ==> direct_pair(#[trigger] ps[j], left_schema@, right_schema@) == Some(
                    (left@[j], right@[j]),
                ),
    {
        assert(ps[i as int] == (pairs@[i as int].0@, pairs@[i as int].1@));
        let a: Option<DirectJoinKeySide> = direct_join_key_side(
            pairs[i].0,
            left_schema,
            right_schema,
        );
        let b: Option<DirectJoinKeySide> = direct_join_key_side(
            pairs[i].1,
            left_schema,
            right_schema,
        );
        match (a, b) {
            (Some(DirectJoinKeySide::Left(l)), Some(DirectJoinKeySide::Right(r))) => {
                left.push(l);
                right.push(r);
            },
            (Some(DirectJoinKeySide::Right(r)), Some(DirectJoinKeySide::Left(l))) => {
                left.push(l);
                right.push(r);
            },
            _ => {
                assert(direct_pair(ps[i as int], left_schema@, right_schema@) is None);
                return None;
            },
        }
    }
    let ghost keys = direct_keys(condition@, left_schema@, right_schema@);
    assert(keys is Some);
    assert(left@ =~= keys->Some_0.0);
    assert(right@ =~= keys->Some_0.1);
    Some(DirectJoinKeyIndices { left, right })
}

/// The nodes whose parts are looked through for key columns.
pub open spec fn walkable(e: ExprModel) -> bool {
    match e {
        ExprModel::Column { .. } => true,
        ExprModel::BoundColumn { .. } => true,
        ExprModel::Literal(_) => true,
        ExprModel::Parameter { .. } => true,
        ExprModel::BinaryExpr { .. } => true,
        ExprModel::UnaryExpr { .. } => true,
        ExprModel::Cast { .. } => true,
        ExprModel::IsNull { .. } => true,
        ExprModel::InSet { .. } => true,
        ExprModel::Between { .. } => true,
        ExprModel::InList { .. } => true,
        ExprModel::Case { .. } => true,
        ExprModel::ScalarFunction { .. } => true,
        ExprModel::Tuple { .. } => true,
        ExprModel::ArraySubscript { .. } => true,
        _ => false,
    }
}

/// Whether an expression holds a node that is not looked through, such as a
/// subquery or an aggregate call.
pub open spec fn managed(e: ExprModel) -> bool
    decreases e, 1int, 0nat,
{
    !walkable(e) || managed_part(e, expr_tree::parts(e).len())
}

/// Whether one of the first `n` parts holds such a node.
pub open spec fn managed_part(e: ExprModel, n: nat) -> bool
    decreases e, 0int, n,
{
    if n == 0 || n > expr_tree::parts(e).len() {
        false
    } else {
        proof {
            expr_tree::lemma_parts_are_smaller(e);
        }
        managed_part(e, (n - 1) as nat) || managed(expr_tree::parts(e)[n - 1])
    }
}

fn is_walkable(e: &LogicalExpr) -> (r: bool)
    ensures
        r == walkable(e@),
{
    match e {
        LogicalExpr::Column { .. } => true,
        LogicalExpr::BoundColumn { .. } => true,
        LogicalExpr::Literal(_) => true,
        LogicalExpr::Parameter { .. } => true,
        LogicalExpr::BinaryExpr { .. } => true,
        LogicalExpr::UnaryExpr { .. } => true,
        LogicalExpr::Cast { .. } => true,
        LogicalExpr::IsNull { .. } => true,
        LogicalExpr::InSet { .. } => true,
        LogicalExpr::Between { .. } => true,
        LogicalExpr::InList { .. } => true,
        LogicalExpr::Case { .. } => true,
        LogicalExpr::ScalarFunction { .. } => true,
        LogicalExpr::Tuple { .. } => true,
        LogicalExpr::ArraySubscript { .. } => true,
        _ => false,
    }
}

/// Whether an expression holds a node that is not looked through.
pub fn contains_operator_managed_node(expr: &LogicalExpr) -> (r: bool)
    ensures
        r == managed(expr@),
    decreases expr,
{
    if !is_walkable(expr) {
        return true;
    }
    let v: Vec<&LogicalExpr> = expr_tree::expr_parts(expr);
    assert(expr_tree::borrowed_model(v@).len() == expr_tree::parts(expr@).len());
    let mut i: usize = 0;
    while i < v.len()
        invariant
            i <= v.len(),
            walkable(expr@),
            v.len() == expr_tree::parts(expr@).len(),
            expr_tree::borrowed_model(v@) == expr_tree::parts(expr@),
            forall|j: int| 0 <= j < v.len() ==> decreases_to!(*expr => *#[trigger] v@[j]),
            !managed_part(expr@, i as nat),
        decreases v.len() - i,
    {
        assert(decreases_to!(*expr => *v@[i as int]));
        assert(expr_tree::parts(expr@)[i as int] == v@[i as int]@);
        if contains_operator_managed_node(v[i]) {
            proof {
                lemma_managed_part(expr@, (i + 1) as nat, expr_tree::parts(expr@).len());
            }
            return true;
        }
        i = i + 1;
    }
    false
}

proof fn lemma_managed_part(e: ExprModel, n: nat, m: nat)
    requires
        managed_part(e, n),
        n <= m <= expr_tree::parts(e).len(),
    ensures
        managed_part(e, m),
    decreases m - n,
{
    if n < m {
        lemma_managed_part(e, n, (m - 1) as nat);
    }
}

/// The position on one side.
pub open spec fn on_side(p: (Option<usize>, Option<usize>), on_left: bool) -> Option<usize> {
    if on_left {
        p.0
    } else {
        p.1
    }
}

/// A key operand with its columns replaced by their positions in one input.
pub open spec fn bound_to_side(
    e: ExprModel,
    left: Seq<ColumnModel>,
    right: Seq<ColumnModel>,
    on_left: bool,
) -> ExprModel
    decreases e,
{
    match e {
        ExprModel::Column { table, name } => match on_side(
            key_ref(table, name, left, right),
            on_left,
        ) {
            Some(index) => ExprModel::BoundColumn { index, table, name },
            None => e,
        },
        ExprModel::BinaryExpr { left: a, op, right: b } => ExprModel::BinaryExpr {
            left: Box::new(bound_to_side(*a, left, right, on_left)),
            op,
            right: Box::new(bound_to_side(*b, left, right, on_left)),
        },
        ExprModel::UnaryExpr { op, expr } => ExprModel::UnaryExpr {
            op,
            expr: Box::new(bound_to_side(*expr, left, right, on_left)),
        },
        ExprModel::Cast { expr, data_type } => ExprModel::Cast {
            expr: Box::new(bound_to_side(*expr, left, right, on_left)),
            data_type,
        },
        ExprModel::IsNull { expr, is_null } => ExprModel::IsNull {
            expr: Box::new(bound_to_side(*expr, left, right, on_left)),
            is_null,
        },
        ExprModel::Between { expr, low, high, negated } => ExprModel::Between {
            expr: Box::new(bound_to_side(*expr, left, right, on_left)),
            low: Box::new(bound_to_side(*low, left, right, on_left)),
            high: Box::new(bound_to_side(*high, left, right, on_left)),
            negated,
        },
        ExprModel::InList { expr, list, negated } => ExprModel::InList {
            expr: Box::new(bound_to_side(*expr, left, right, on_left)),
            list: all_bound_to_side(list, left, right, on_left),
            negated,
        },
        ExprModel::InSet { expr, values, negated } => ExprModel::InSet {
            expr: Box::new(bound_to_side(*expr, left, right, on_left)),
            values,
            negated,
        },
        ExprModel::Case { expr, when_then, else_result } => ExprModel::Case {
            expr: match expr {
                Some(b) => Some(Box::new(bound_to_side(*b, left, right, on_left))),
                None => None,
            },
            when_then: branches_bound_to_side(when_then, left, right, on_left),
            else_result: match else_result {
                Some(b) => Some(Box::new(bound_to_side(*b, left, right, on_left))),
                None => None,
            },
        },
        ExprModel::ScalarFunction { fun, args } => ExprModel::ScalarFunction {
            fun,
            args: all_bound_to_side(args, left, right, on_left),
        },
        ExprModel::Tuple { items } => ExprModel::Tuple {
            items: all_bound_to_side(items, left, right, on_left),
        },
        ExprModel::ArraySubscript { array, index } => ExprModel::ArraySubscript {
            array: Box::new(bound_to_side(*array, left, right, on_left)),
            index: Box::new(bound_to_side(*index, left, right, on_left)),
        },
        _ => e,
    }
}

pub open spec fn all_bound_to_side(
    s: Seq<ExprModel>,
    left: Seq<ColumnModel>,
    right: Seq<ColumnModel>,
    on_left: bool,
) -> Seq<ExprModel>
    decreases s,
{
    Seq::new(
        s.len(),
        |i: int|
            if 0 <= i < s.len() {
                bound_to_side(s[i], left, right, on_left)
            } else {
                arbitrary()
            },
    )
}

pub open spec fn branches_bound_to_side(
    s: Seq<(ExprModel, ExprModel)>,
    left: Seq<ColumnModel>,
    right: Seq<ColumnModel>,
    on_left: bool,
) -> Seq<(ExprModel, ExprModel)>
    decreases s,
{
    Seq::new(
        s.len(),
        |i: int|
            if 0 <= i < s.len() {
                (
                    bound_to_side(s[i].0, left, right, on_left),
                    bound_to_side(s[i].1, left, right, on_left),
                )
            } else {
                arbitrary()
            },
    )
}

fn bind_to_side(e: &LogicalExpr, left: &Schema, right: &Schema, on_left: bool) -> (r: LogicalExpr)
    ensures
        r@ == bound_to_side(e@, left@, right@, on_left),
    decreases e,
{
    match e {
        LogicalExpr::Column { table, name } => {
            let both: (Option<usize>, Option<usize>) = resolve_join_key_ref(
                schema::as_str(table),
                name.as_str(),
                left,
                right,
            );
            let found: Option<usize> = if on_left {
                both.0
            } else {
                both.1
            };
            match found {
                Some(index) => LogicalExpr::BoundColumn {
                    index,
                    table: table.clone(),
                    name: name.clone(),
                },
                None => e.clone(),
            }
        },
        LogicalExpr::BinaryExpr { left: a, op, right: b } => LogicalExpr::BinaryExpr {
            left: Box::new(bind_to_side(a, left, right, on_left)),
            op: *op,
            right: Box::new(bind_to_side(b, left, right, on_left)),
        },
        LogicalExpr::UnaryExpr { op, expr } => LogicalExpr::UnaryExpr {
            op: *op,
            expr: Box::new(bind_to_side(expr, left, right, on_left)),
        },
        LogicalExpr::Cast { expr, data_type } => LogicalExpr::Cast {
            expr: Box::new(bind_to_side(expr, left, right, on_left)),
            data_type: data_type.clone(),
        },
        LogicalExpr::IsNull { expr, is_null } => LogicalExpr::IsNull {
            expr: Box::new(bind_to_side(expr, left, right, on_left)),
            is_null: *is_null,
        },
        LogicalExpr::Between { expr, low, high, negated } => LogicalExpr::Between {
            expr: Box::new(bind_to_side(expr, left, right, on_left)),
            low: Box::new(bind_to_side(low, left, right, on_left)),
            high: Box::new(bind_to_side(high, left, right, on_left)),
            negated: *negated,
        },
        LogicalExpr::InList { expr, list, negated } => LogicalExpr::InList {
            expr: Box::new(bind_to_side(expr, left, right, on_left)),
            list: bind_all_to_side(list, left, right, on_left),
            negated: *negated,
        },
        LogicalExpr::InSet { expr, values, negated } => LogicalExpr::InSet {
            expr: Box::new(bind_to_side(expr, left, right, on_left)),
            values: value::clone_values(values),
            negated: *negated,
        },
        LogicalExpr::Case { expr, when_then, else_result } => LogicalExpr::Case {
            expr: match expr {
                Some(b) => Some(Box::new(bind_to_side(b, left, right, on_left))),
                None => None,
            },
            when_then: bind_branches_to_side(when_then, left, right, on_left),
            else_result: match else_result {
                Some(b) => Some(Box::new(bind_to_side(b, left, right, on_left))),
                None => None,
            },
        },
        LogicalExpr::ScalarFunction { fun, args } => LogicalExpr::ScalarFunction {
            fun: fun.clone(),
            args: bind_all_to_side(args, left, right, on_left),
        },
        LogicalExpr::Tuple { items } => LogicalExpr::Tuple {
            items: bind_all_to_side(items, left, right, on_left),
        },
        LogicalExpr::ArraySubscript { array, index } => LogicalExpr::ArraySubscript {
            array: Box::new(bind_to_side(array, left, right, on_left)),
            index: Box::new(bind_to_side(index, left, right, on_left)),
        },
        _ => e.clone(),
    }
}

fn bind_all_to_side(v: &Vec<LogicalExpr>, left: &Schema, right: &Schema, on_left: bool) -> (r: Vec<
    LogicalExpr,
>)
    ensures
        logical_plan::exprs_model(r@) == all_bound_to_side(
            logical_plan::exprs_model(v@),
            left@,
            right@,
            on_left,
        ),
    decreases v,
{
    let mut out: Vec<LogicalExpr> = Vec::new();
    for i in 0..v.len()
        invariant
            out.len() == i,
            forall|j: int|
                0 <= j < i ==> (#[trigger] out@[j])@ == bound_to_side(
                    v@[j]@,
                    left@,
                    right@,
                    on_left,
                ),
    {
        out.push(bind_to_side(&v[i], left, right, on_left));
    }
    proof {
        logical_plan::lemma_exprs_model(out@);
        logical_plan::lemma_exprs_model(v@);
        assert(logical_plan::exprs_model(out@) =~= all_bound_to_side(
            logical_plan::exprs_model(v@),
            left@,
            right@,
            on_left,
        ));
    }
    out
}

fn bind_branches_to_side(
    v: &Vec<(LogicalExpr, LogicalExpr)>,
    left: &Schema,
    right: &Schema,
    on_left: bool,
) -> (r: Vec<(LogicalExpr, LogicalExpr)>)
    ensures
        logical_plan::pairs_model(r@) == branches_bound_to_side(
            logical_plan::pairs_model(v@),
            left@,
            right@,
            on_left,
        ),
    decreases v,
{
    let mut out: Vec<(LogicalExpr, LogicalExpr)> = Vec::new();
    for i in 0..v.len()
        invariant
            out.len() == i,
            forall|j: int|
                0 <= j < i ==> (#[trigger] out@[j]).0@ == bound_to_side(
                    v@[j].0@,
                    left@,
                    right@,
                    on_left,
                ) && out@[j].1@ == bound_to_side(v@[j].1@, left@, right@, on_left),
    {
        let a: LogicalExpr = bind_to_side(&v[i].0, left, right, on_left);
        let b: LogicalExpr = bind_to_side(&v[i].1, left, right, on_left);
        out.push((a, b));
    }
    proof {
        logical_plan::lemma_pairs_model(out@);
        logical_plan::lemma_pairs_model(v@);
        assert(logical_plan::pairs_model(out@) =~= branches_bound_to_side(
            logical_plan::pairs_model(v@),
            left@,
            right@,
            on_left,
        ));
    }
    out
}

/// Whether every column of an operand has a position in one input.
pub open spec fn fits_side(
    e: ExprModel,
    left: Seq<ColumnModel>,
    right: Seq<ColumnModel>,
    on_left: bool,
) -> bool {
    forall|i: int|
        0 <= i < expr_tree::column_refs(e).len() ==> on_side(
            key_ref(
                (#[trigger] expr_tree::column_refs(e)[i]).0,
                expr_tree::column_refs(e)[i].1,
                left,
                right,
            ),
            on_left,
        ) is Some
}

/// Whether an operand qualifies one of its columns.
pub open spec fn qualifies_a_column(e: ExprModel) -> bool {
    exists|i: int|
        0 <= i < expr_tree::column_refs(e).len() && (
        #[trigger] expr_tree::column_refs(e)[i]).0 is Some
}

/// Which inputs a key operand can be evaluated on.
pub struct JoinOperandFit {
    pub left: Option<LogicalExpr>,
    pub right: Option<LogicalExpr>,
    pub has_column_refs: bool,
    pub has_qualified_refs: bool,
}

pub open spec fn fitted(
    e: ExprModel,
    left: Seq<ColumnModel>,
    right: Seq<ColumnModel>,
    on_left: bool,
) -> Option<ExprModel> {
    if fits_side(e, left, right, on_left) {
        Some(bound_to_side(e, left, right, on_left))
    } else {
        None
    }
}

/// Resolves every column of an operand in both inputs.
pub fn join_operand_fit(expr: &LogicalExpr, left_schema: &Schema, right_schema: &Schema) -> (r:
    Option<JoinOperandFit>)
    ensures
        r is None == managed(expr@),
        r matches Some(f) ==> {
            &&& logical_plan::opt_expr(f.left) == fitted(
                expr@,
                left_schema@,
                right_schema@,
                true,
            )
            &&& logical_plan::opt_expr(f.right) == fitted(
                expr@,
                left_schema@,
                right_schema@,
                false,
            )
            &&& f.has_column_refs == (expr_tree::column_refs(expr@).len() > 0)
            &&& f.has_qualified_refs == qualifies_a_column(expr@)
        },
{
    if contains_operator_managed_node(expr) {
        return None;
    }
    let refs: Vec<ColumnRef> = expr_tree::spelled_columns(expr);
    let ghost all = expr_tree::column_refs(expr@);
    let mut fits_left: bool = true;
    let mut fits_right: bool = true;
    let mut qualified: bool = false;
    for i in 0..refs.len()
        invariant
            expr_tree::refs_model(refs@) == all,
            all == expr_tree::column_refs(expr@),
            fits_left == forall|j: int|
                0 <= j < i ==> on_side(
                    key_ref((#[trigger] all[j]).0, all[j].1, left_schema@, right_schema@),
                    true,
                ) is Some,
            fits_right == forall|j: int|
                0 <= j < i ==> on_side(
                    key_ref((#[trigger] all[j]).0, all[j].1, left_schema@, right_schema@),
                    false,
                ) is Some,
            qualified == exists|j: int| 0 <= j < i && (#[trigger] all[j]).0 is Some,
    {
        assert(all[i as int] == (schema::opt_text(refs@[i as int].table), refs@[i as int].name@));
        let both: (Option<usize>, Option<usize>) = resolve_join_key_ref(
            schema::as_str(&refs[i].table),
            refs[i].name.as_str(),
            left_schema,
            right_schema,
        );
        if both.0.is_none() {
            fits_left = false;
        }
        if both.1.is_none() {
            fits_right = false;
        }
        if refs[i].table.is_some() {
            qualified = true;
        }
    }
    assert(all.len() == refs.len());
    let left: Option<LogicalExpr> = if fits_left {
        Some(bind_to_side(expr, left_schema, right_schema, true))
    } else {
        None
    };
    let right: Option<LogicalExpr> = if fits_right {
        Some(bind_to_side(expr, left_schema, right_schema, false))
    } else {
        None
    };
    Some(
        JoinOperandFit {
            left,
            right,
            has_column_refs: refs.len() > 0,
            has_qualified_refs: qualified,
        },
    )
}

/// The operands of one equality, each assigned to an input and bound to it:
/// in the order in which they stand, or else the other way round. An equality
/// is not keyed where an operand holds a node that is not looked through or
/// names no column, or where both operands fit both inputs and one qualifies
/// a column.
pub open spec fn key_pair(
    lhs: ExprModel,
    rhs: ExprModel,
    left: Seq<ColumnModel>,
    right: Seq<ColumnModel>,
) -> Option<(ExprModel, ExprModel)> {
    let ll = fitted(lhs, left, right, true);
    let lr = fitted(lhs, left, right, false);
    let rl = fitted(rhs, left, right, true);
    let rr = fitted(rhs, left, right, false);
    if managed(lhs) || managed(rhs) {
        None
    } else if expr_tree::column_refs(lhs).len() == 0 || expr_tree::column_refs(rhs).len() == 0 {
        None
    } else if ll is Some && lr is Some && rl is Some && rr is Some && (qualifies_a_column(lhs)
        || qualifies_a_column(rhs)) {
        None
    } else if ll is Some && rr is Some {
        Some((ll->Some_0, rr->Some_0))
    } else if rl is Some && lr is Some {
        Some((rl->Some_0, lr->Some_0))
    } else {
        None
    }
}

/// The operands of one equality, each bound to the input it is evaluated on.
pub struct BoundJoinKeyPair {
    pub left: LogicalExpr,
    pub right: LogicalExpr,
}

pub open spec fn key_pairs_model(s: Seq<BoundJoinKeyPair>) -> Seq<(ExprModel, ExprModel)> {
    Seq::new(s.len(), |i: int| (s[i].left@, s[i].right@))
}

/// Assigns the operands of one equality.
pub fn bind_join_key_term(
    lhs: &LogicalExpr,
    rhs: &LogicalExpr,
    left_schema: &Schema,
    right_schema: &Schema,
) -> (r: Option<BoundJoinKeyPair>)
    ensures
        match r {
            Some(p) => key_pair(lhs@, rhs@, left_schema@, right_schema@) == Some(
                (p.left@, p.right@),
            ),
            None => key_pair(lhs@, rhs@, left_schema@, right_schema@) is None,
        },
{
    let lhs_fit: JoinOperandFit = match join_operand_fit(lhs, left_schema, right_schema) {
        Some(f) => f,
        None => {
            return None;
        },
    };
    let rhs_fit: JoinOperandFit = match join_operand_fit(rhs, left_schema, right_schema) {
        Some(f) => f,
        None => {
            return None;
        },
    };
    if !lhs_fit.has_column_refs || !rhs_fit.has_column_refs {
        return None;
    }
    let lhs_fits_both: bool = lhs_fit.left.is_some() && lhs_fit.right.is_some();
    let rhs_fits_both: bool = rhs_fit.left.is_some() && rhs_fit.right.is_some();
    if lhs_fits_both && rhs_fits_both && (lhs_fit.has_qualified_refs || rhs_fit.has_qualified_refs) {
        return None;
    }
    match (lhs_fit.left, rhs_fit.right) {
        (Some(left), Some(right)) => {
            return Some(BoundJoinKeyPair { left, right });
        },
        _ => {},
    }
    match (rhs_fit.left, lhs_fit.right) {
        (Some(left), Some(right)) => Some(BoundJoinKeyPair { left, right }),
        _ => None,
    }
}

/// The bound operands of one term of a condition, where it can be keyed.
pub open spec fn term_pair(
    e: ExprModel,
    left: Seq<ColumnModel>,
    right: Seq<ColumnModel>,
) -> Option<(ExprModel, ExprModel)> {
    match e {
        ExprModel::BinaryExpr { left: a, op: BinaryOperator::Eq, right: b } => key_pair(
            *a,
            *b,
            left,
            right,
        ),
        _ => None,
    }
}

/// The terms of a condition: what `AND` holds together.
pub open spec fn terms(e: ExprModel) -> Seq<ExprModel>
    decreases e,
{
    match e {
        ExprModel::BinaryExpr { left, op: BinaryOperator::And, right } => terms(*left) + terms(
            *right,
        ),
        _ => seq![e],
    }
}

/// The terms of a condition that can be keyed.
pub open spec fn keyed_terms(
    e: ExprModel,
    left: Seq<ColumnModel>,
    right: Seq<ColumnModel>,
) -> Seq<ExprModel>
    decreases e,
{
    match e {
        ExprModel::BinaryExpr { left: a, op: BinaryOperator::And, right: b } => keyed_terms(
            *a,
            left,
            right,
        ) + keyed_terms(*b, left, right),
        _ => if term_pair(e, left, right) is Some {
            seq![e]
        } else {
            Seq::empty()
        },
    }
}

/// The terms of a condition that cannot.
pub open spec fn residual_terms(
    e: ExprModel,
    left: Seq<ColumnModel>,
    right: Seq<ColumnModel>,
) -> Seq<ExprModel>
    decreases e,
{
    match e {
        ExprModel::BinaryExpr { left: a, op: BinaryOperator::And, right: b } => residual_terms(
            *a,
            left,
            right,
        ) + residual_terms(*b, left, right),
        _ => if term_pair(e, left, right) is Some {
            Seq::empty()
        } else {
            seq![e]
        },
    }
}

/// The bound operands of the terms that can be keyed.
pub open spec fn bound_pairs(
    e: ExprModel,
    left: Seq<ColumnModel>,
    right: Seq<ColumnModel>,
) -> Seq<(ExprModel, ExprModel)>
    decreases e,
{
    match e {
        ExprModel::BinaryExpr { left: a, op: BinaryOperator::And, right: b } => bound_pairs(
            *a,
            left,
            right,
        ) + bound_pairs(*b, left, right),
        _ => match term_pair(e, left, right) {
            Some(p) => seq![p],
            None => Seq::empty(),
        },
    }
}

fn collect_bound_key_pairs(
    expr: &LogicalExpr,
    left_schema: &Schema,
    right_schema: &Schema,
    pairs: &mut Vec<BoundJoinKeyPair>,
    covered: &mut bool,
)
    ensures
        key_pairs_model(final(pairs)@) == key_pairs_model(old(pairs)@) + bound_pairs(
            expr@,
            left_schema@,
            right_schema@,
        ),
        *final(covered) == (*old(covered) && residual_terms(
            expr@,
            left_schema@,
            right_schema@,
        ).len() == 0),
    decreases expr,
{
    let ghost before = key_pairs_model(pairs@);
    match expr {
        LogicalExpr::BinaryExpr { left, op: BinaryOperator::And, right } => {
            collect_bound_key_pairs(left, left_schema, right_schema, pairs, covered);
            collect_bound_key_pairs(right, left_schema, right_schema, pairs, covered);
            assert(key_pairs_model(pairs@) =~= before + bound_pairs(
                expr@,
                left_schema@,
                right_schema@,
            ));
        },
        LogicalExpr::BinaryExpr { left, op: BinaryOperator::Eq, right } => {
            match bind_join_key_term(left, right, left_schema, right_schema) {
                Some(pair) => {
                    pairs.push(pair);
                    assert(key_pairs_model(pairs@) =~= before + bound_pairs(
                        expr@,
                        left_schema@,
                        right_schema@,
                    ));
                },
                None => {
                    *covered = false;
                    assert(before + bound_pairs(expr@, left_schema@, right_schema@) =~= before);
                },
            }
        },
        _ => {
            *covered = false;
            assert(before + bound_pairs(expr@, left_schema@, right_schema@) =~= before);
        },
    }
}

/// Assigns the operands of every equality of a condition, and says whether
/// that covers the whole condition.
pub fn bind_hash_join_key_pairs(
    condition: &LogicalExpr,
    left_schema: &Schema,
    right_schema: &Schema,
) -> (r: (Vec<BoundJoinKeyPair>, bool))
    ensures
        key_pairs_model(r.0@) == bound_pairs(condition@, left_schema@, right_schema@),
        r.1 == (residual_terms(condition@, left_schema@, right_schema@).len() == 0),
{
    let mut pairs: Vec<BoundJoinKeyPair> = Vec::new();
    let mut covered: bool = true;
    collect_bound_key_pairs(condition, left_schema, right_schema, &mut pairs, &mut covered);
    assert(key_pairs_model(pairs@) =~= bound_pairs(condition@, left_schema@, right_schema@));
    (pairs, covered)
}

/// Terms held together by `AND`.
pub open spec fn combined(parts: Seq<ExprModel>) -> Option<ExprModel>
    decreases parts.len(),
{
    if parts.len() == 0 {
        None
    } else if parts.len() == 1 {
        Some(parts[0])
    } else {
        Some(
            ExprModel::BinaryExpr {
                left: Box::new(combined(parts.drop_last())->Some_0),
                op: BinaryOperator::And,
                right: Box::new(parts.last()),
            },
        )
    }
}

/// Holds terms together with `AND`.
pub fn combine_with_and(parts: Vec<LogicalExpr>) -> (r: Option<LogicalExpr>)
    ensures
        logical_plan::opt_expr(r) == combined(logical_plan::exprs_model(parts@)),
{
    let ghost all = logical_plan::exprs_model(parts@);
    proof {
        logical_plan::lemma_exprs_model(parts@);
    }
    if parts.len() == 0 {
        return None;
    }
    let mut out: LogicalExpr = parts[0].clone();
    assert(all.take(1).len() == 1);
    for i in 1..parts.len()
        invariant
            all == logical_plan::exprs_model(parts@),
            all.len() == parts.len(),
            forall|j: int| 0 <= j < parts.len() ==> #[trigger] all[j] == parts@[j]@,
            combined(all.take(i as int)) == Some(out@),
    {
        let next: LogicalExpr = parts[i].clone();
        let ghost was = out@;
        out = LogicalExpr::BinaryExpr {
            left: Box::new(out),
            op: BinaryOperator::And,
            right: Box::new(next),
        };
        assert(all.take(i + 1).drop_last() =~= all.take(i as int));
        assert(all.take(i + 1).last() == parts@[i as int]@);
        assert(out@ == (ExprModel::BinaryExpr {
            left: Box::new(was),
            op: BinaryOperator::And,
            right: Box::new(parts@[i as int]@),
        }));
    }
    assert(all.take(parts.len() as int) =~= all);
    Some(out)
}

/// How a join condition is executed.
pub struct JoinConditionPlan {
    /// The terms that can be keyed.
    pub equi: Option<LogicalExpr>,
    /// All other terms.
    pub residual: Option<LogicalExpr>,
    /// The keys by position, where all of them are plain columns.
    pub direct_key_indices: Option<DirectJoinKeyIndices>,
    /// The bound operands, where the keys are not taken by position.
    pub bound_key_pairs: Vec<BoundJoinKeyPair>,
}

#[verifier::ext_equal]
pub struct JoinConditionModel {
    pub equi: Option<ExprModel>,
    pub residual: Option<ExprModel>,
    pub direct: Option<(Seq<usize>, Seq<usize>)>,
    pub pairs: Seq<(ExprModel, ExprModel)>,
}

impl View for JoinConditionPlan {
    type V = JoinConditionModel;

    open spec fn view(&self) -> JoinConditionModel {
        JoinConditionModel {
            equi: logical_plan::opt_expr(self.equi),
            residual: logical_plan::opt_expr(self.residual),
            direct: indices_model(self.direct_key_indices),
            pairs: key_pairs_model(self.bound_key_pairs@),
        }
    }
}

/// How a join condition is executed.
pub open spec fn planned(
    condition: ExprModel,
    left: Seq<ColumnModel>,
    right: Seq<ColumnModel>,
) -> JoinConditionModel {
    if direct_keys(condition, left, right) is Some {
        JoinConditionModel {
            equi: Some(condition),
            residual: None,
            direct: direct_keys(condition, left, right),
            pairs: Seq::empty(),
        }
    } else {
        let equi = combined(keyed_terms(condition, left, right));
        let direct = match equi {
            Some(e) => direct_keys(e, left, right),
            None => None,
        };
        JoinConditionModel {
            equi,
            residual: combined(residual_terms(condition, left, right)),
            direct,
            pairs: if direct is Some {
                Seq::empty()
            } else {
                bound_pairs(condition, left, right)
            },
        }
    }
}

fn collect_bindable_terms(
    expr: &LogicalExpr,
    left_schema: &Schema,
    right_schema: &Schema,
    equi: &mut Vec<LogicalExpr>,
    residual: &mut Vec<LogicalExpr>,
    pairs: &mut Vec<BoundJoinKeyPair>,
)
    ensures
        logical_plan::exprs_model(final(equi)@) == logical_plan::exprs_model(old(equi)@)
            + keyed_terms(expr@, left_schema@, right_schema@),
        logical_plan::exprs_model(final(residual)@) == logical_plan::exprs_model(old(residual)@)
            + residual_terms(expr@, left_schema@, right_schema@),
        key_pairs_model(final(pairs)@) == key_pairs_model(old(pairs)@) + bound_pairs(
            expr@,
            left_schema@,
            right_schema@,
        ),
    decreases expr,
{
    let ghost eb = logical_plan::exprs_model(equi@);
    let ghost rb = logical_plan::exprs_model(residual@);
    let ghost pb = key_pairs_model(pairs@);
    let ghost l = left_schema@;
    let ghost r = right_schema@;
    match expr {
        LogicalExpr::BinaryExpr { left, op: BinaryOperator::And, right } => {
            collect_bindable_terms(left, left_schema, right_schema, equi, residual, pairs);
            collect_bindable_terms(right, left_schema, right_schema, equi, residual, pairs);
            assert(logical_plan::exprs_model(equi@) =~= eb + keyed_terms(expr@, l, r));
            assert(logical_plan::exprs_model(residual@) =~= rb + residual_terms(expr@, l, r));
            assert(key_pairs_model(pairs@) =~= pb + bound_pairs(expr@, l, r));
        },
        LogicalExpr::BinaryExpr { left, op: BinaryOperator::Eq, right } => {
            match bind_join_key_term(left, right, left_schema, right_schema) {
                Some(pair) => {
                    pairs.push(pair);
                    let term: LogicalExpr = expr.clone();
                    proof {
                        logical_plan::lemma_exprs_model_push(equi@, term);
                    }
                    equi.push(term);
                    assert(logical_plan::exprs_model(equi@) =~= eb + keyed_terms(expr@, l, r));
                    assert(rb + residual_terms(expr@, l, r) =~= rb);
                    assert(key_pairs_model(pairs@) =~= pb + bound_pairs(expr@, l, r));
                },
                None => {
                    let term: LogicalExpr = expr.clone();
                    proof {
                        logical_plan::lemma_exprs_model_push(residual@, term);
                    }
                    residual.push(term);
                    assert(eb + keyed_terms(expr@, l, r) =~= eb);
                    assert(logical_plan::exprs_model(residual@) =~= rb + residual_terms(
                        expr@,
                        l,
                        r,
                    ));
                    assert(pb + bound_pairs(expr@, l, r) =~= pb);
                },
            }
        },
        _ => {
            let term: LogicalExpr = expr.clone();
            proof {
                logical_plan::lemma_exprs_model_push(residual@, term);
            }
            residual.push(term);
            assert(eb + keyed_terms(expr@, l, r) =~= eb);
            assert(logical_plan::exprs_model(residual@) =~= rb + residual_terms(expr@, l, r));
            assert(pb + bound_pairs(expr@, l, r) =~= pb);
        },
    }
}

/// Plans a join condition: every term is keyed where it can be, and is left to
/// be checked on each pair where it cannot.
pub fn plan_join_condition(condition: &LogicalExpr, left_schema: &Schema, right_schema: &Schema) -> (r:
    JoinConditionPlan)
    ensures
        r@ == planned(condition@, left_schema@, right_schema@),
        r.direct_key_indices matches Some(k) ==> k.left.len() == k.right.len(),
{
    match build_direct_join_key_indices(condition, left_schema, right_schema) {
        Some(keys) => {
            let r: JoinConditionPlan = JoinConditionPlan {
                equi: Some(condition.clone()),
                residual: None,
                direct_key_indices: Some(keys),
                bound_key_pairs: Vec::new(),
            };
            assert(r@ =~= planned(condition@, left_schema@, right_schema@));
            return r;
        },
        None => {},
    }
    let mut equi_parts: Vec<LogicalExpr> = Vec::new();
    let mut residual_parts: Vec<LogicalExpr> = Vec::new();
    let mut pairs: Vec<BoundJoinKeyPair> = Vec::new();
    proof {
        logical_plan::lemma_exprs_model(equi_parts@);
    }
    collect_bindable_terms(
        condition,
        left_schema,
        right_schema,
        &mut equi_parts,
        &mut residual_parts,
        &mut pairs,
    );
    assert(logical_plan::exprs_model(equi_parts@) =~= keyed_terms(
        condition@,
        left_schema@,
        right_schema@,
    ));
    assert(logical_plan::exprs_model(residual_parts@) =~= residual_terms(
        condition@,
        left_schema@,
        right_schema@,
    ));
    assert(key_pairs_model(pairs@) =~= bound_pairs(condition@, left_schema@, right_schema@));
    let equi: Option<LogicalExpr> = combine_with_and(equi_parts);
    let residual: Option<LogicalExpr> = combine_with_and(residual_parts);
    let direct: Option<DirectJoinKeyIndices> = match &equi {
        Some(e) => build_direct_join_key_indices(e, left_schema, right_schema),
        None => None,
    };
    if direct.is_some() {
        pairs = Vec::new();
    }
    let r: JoinConditionPlan = JoinConditionPlan {
        equi,
        residual,
        direct_key_indices: direct,
        bound_key_pairs: pairs,
    };
    assert(r@ =~= planned(condition@, left_schema@, right_schema@));
    r
}

/// Whether a planned condition needs a nested loop: nothing can be keyed, or
/// something is left over under a join that keeps right rows.
pub open spec fn needs_nested_loop(plan: JoinConditionModel, join_type: JoinType) -> bool {
    plan.equi is None || (plan.residual is Some && (join_type == JoinType::Right || join_type
        == JoinType::Full))
}

/// Whether a planned condition needs a nested loop.
pub fn join_condition_needs_nested_loop(plan: &JoinConditionPlan, join_type: &JoinType) -> (r: bool)
    ensures
        r == needs_nested_loop(plan@, *join_type),
{
    if plan.equi.is_none() {
        return true;
    }
    plan.residual.is_some() && match join_type {
        JoinType::Right => true,
        JoinType::Full => true,
        _ => false,
    }
}

/// Whether a condition needs a nested loop.
pub fn hash_join_keys_need_nested_loop(
    condition: &LogicalExpr,
    join_type: &JoinType,
    left_schema: &Schema,
    right_schema: &Schema,
) -> (r: bool)
    ensures
        r == needs_nested_loop(planned(condition@, left_schema@, right_schema@), *join_type),
{
    join_condition_needs_nested_loop(
        &plan_join_condition(condition, left_schema, right_schema),
        join_type,
    )
}

/// The two columns of a condition that is one equality of plain columns.
pub open spec fn equal_columns(e: ExprModel) -> Option<
    ((Option<Seq<char>>, Seq<char>), (Option<Seq<char>>, Seq<char>)),
> {
    match e {
        ExprModel::BinaryExpr { left, op: BinaryOperator::Eq, right } => match (*left, *right) {
            (
                ExprModel::Column { table: lt, name: ln },
                ExprModel::Column { table: rt, name: rn },
            ) => Some(((lt, ln), (rt, rn))),
            _ => None,
        },
        _ => None,
    }
}

/// A column name with its qualifier.
pub open spec fn named(c: (Option<String>, String)) -> (Option<Seq<char>>, Seq<char>) {
    (schema::opt_text(c.0), c.1@)
}

pub open spec fn named_pair(p: ((Option<String>, String), (Option<String>, String))) -> (
    (Option<Seq<char>>, Seq<char>),
    (Option<Seq<char>>, Seq<char>),
) {
    (named(p.0), named(p.1))
}

/// The two columns of a condition that is one equality of plain columns. A
/// condition of several terms has none.
pub fn extract_equi_columns(condition: &LogicalExpr) -> (r: Option<
    ((Option<String>, String), (Option<String>, String)),
>)
    ensures
        match r {
            Some(p) => equal_columns(condition@) == Some(named_pair(p)),
            None => equal_columns(condition@) is None,
        },
{
    match condition {
        LogicalExpr::BinaryExpr { left, op: BinaryOperator::Eq, right } => {
            assert(equal_columns(condition@) == match ((**left)@, (**right)@) {
                (
                    ExprModel::Column { table: lt, name: ln },
                    ExprModel::Column { table: rt, name: rn },
                ) => Some(((lt, ln), (rt, rn))),
                _ => None,
            });
            match (&**left, &**right) {
                (
                    LogicalExpr::Column { table: lt, name: ln },
                    LogicalExpr::Column { table: rt, name: rn },
                ) => Some(((lt.clone(), ln.clone()), (rt.clone(), rn.clone()))),
                _ => None,
            }
        },
        _ => None,
    }
}

/// All equalities of plain columns among the terms of a condition.
pub open spec fn column_pairs(e: ExprModel) -> Seq<
    ((Option<Seq<char>>, Seq<char>), (Option<Seq<char>>, Seq<char>)),
>
    decreases e,
{
    match e {
        ExprModel::BinaryExpr { left, op: BinaryOperator::And, right } => column_pairs(*left)
            + column_pairs(*right),
        _ => match equal_columns(e) {
            Some(p) => seq![p],
            None => Seq::empty(),
        },
    }
}

pub open spec fn named_pairs(
    s: Seq<((Option<String>, String), (Option<String>, String))>,
) -> Seq<((Option<Seq<char>>, Seq<char>), (Option<Seq<char>>, Seq<char>))> {
    Seq::new(s.len(), |i: int| named_pair(s[i]))
}

/// Collects all equalities of plain columns among the terms of a condition.
pub fn collect_equi_column_pairs(
    condition: &LogicalExpr,
    out: &mut Vec<((Option<String>, String), (Option<String>, String))>,
)
    ensures
        named_pairs(final(out)@) == named_pairs(old(out)@) + column_pairs(condition@),
    decreases condition,
{
    let ghost before = named_pairs(out@);
    match condition {
        LogicalExpr::BinaryExpr { left, op: BinaryOperator::And, right } => {
            collect_equi_column_pairs(left, out);
            collect_equi_column_pairs(right, out);
            assert(named_pairs(out@) =~= before + column_pairs(condition@));
        },
        _ => {
            match extract_equi_columns(condition) {
                Some(p) => {
                    out.push(p);
                    assert(named_pairs(out@) =~= before + column_pairs(condition@));
                },
                None => {
                    assert(before + column_pairs(condition@) =~= before);
                },
            }
        },
    }
}

/// Whether a column is qualified with a table's name or alias.
pub open spec fn names_table(
    col: (Option<Seq<char>>, Seq<char>),
    table_name: Seq<char>,
    alias: Option<Seq<char>>,
) -> bool {
    match col.0 {
        Some(q) => q == table_name || alias == Some(q),
        None => false,
    }
}

/// Whether a column is qualified with a table's name or alias.
pub fn column_matches_table(col: &(Option<String>, String), table_name: &str, alias: Option<&str>) -> (r:
    bool)
    ensures
        r == names_table(named(*col), table_name@, schema::opt_str(alias)),
{
    match &col.0 {
        Some(q) => text::same_text(q.as_str(), table_name) || match alias {
            Some(a) => text::same_text(a, q.as_str()),
            None => false,
        },
        None => false,
    }
}

/// The position of a key column of a left input: by qualifier and name where
/// there is a qualifier, else by name.
pub fn find_column_index(schema: &Schema, table: Option<&str>, name: &str) -> (r: Option<usize>)
    ensures
        r == schema::qualified_index(schema@, schema::opt_str(table), name@),
        r matches Some(i) ==> i < schema.columns.len(),
{
    schema.get_qualified_column_index(table, name)
}

/// The terms of a condition that are equalities.
pub open spec fn equality_terms(e: ExprModel) -> Seq<ExprModel>
    decreases e,
{
    match e {
        ExprModel::BinaryExpr { left, op: BinaryOperator::And, right } => equality_terms(*left)
            + equality_terms(*right),
        ExprModel::BinaryExpr { left, op: BinaryOperator::Eq, right } => seq![e],
        _ => Seq::empty(),
    }
}

/// The terms of a condition that are none.
pub open spec fn other_terms(e: ExprModel) -> Seq<ExprModel>
    decreases e,
{
    match e {
        ExprModel::BinaryExpr { left, op: BinaryOperator::And, right } => other_terms(*left)
            + other_terms(*right),
        ExprModel::BinaryExpr { left, op: BinaryOperator::Eq, right } => Seq::empty(),
        _ => seq![e],
    }
}

fn collect_and_terms(
    expr: &LogicalExpr,
    equi: &mut Vec<LogicalExpr>,
    residual: &mut Vec<LogicalExpr>,
)
    ensures
        logical_plan::exprs_model(final(equi)@) == logical_plan::exprs_model(old(equi)@)
            + equality_terms(expr@),
        logical_plan::exprs_model(final(residual)@) == logical_plan::exprs_model(old(residual)@)
            + other_terms(expr@),
    decreases expr,
{
    let ghost eb = logical_plan::exprs_model(equi@);
    let ghost rb = logical_plan::exprs_model(residual@);
    match expr {
        LogicalExpr::BinaryExpr { left, op: BinaryOperator::And, right } => {
            collect_and_terms(left, equi, residual);
            collect_and_terms(right, equi, residual);
            assert(logical_plan::exprs_model(equi@) =~= eb + equality_terms(expr@));
            assert(logical_plan::exprs_model(residual@) =~= rb + other_terms(expr@));
        },
        LogicalExpr::BinaryExpr { left, op: BinaryOperator::Eq, right } => {
            let term: LogicalExpr = expr.clone();
            proof {
                logical_plan::lemma_exprs_model_push(equi@, term);
            }
            equi.push(term);
            assert(logical_plan::exprs_model(equi@) =~= eb + equality_terms(expr@));
            assert(rb + other_terms(expr@) =~= rb);
        },
        _ => {
            let term: LogicalExpr = expr.clone();
            proof {
                logical_plan::lemma_exprs_model_push(residual@, term);
            }
            residual.push(term);
            assert(eb + equality_terms(expr@) =~= eb);
            assert(logical_plan::exprs_model(residual@) =~= rb + other_terms(expr@));
        },
    }
}

/// Splits a condition into its equalities and its other terms.
pub fn split_join_condition(condition: &LogicalExpr) -> (r: (
    Option<LogicalExpr>,
    Option<LogicalExpr>,
))
    ensures
        logical_plan::opt_expr(r.0) == combined(equality_terms(condition@)),
        logical_plan::opt_expr(r.1) == combined(other_terms(condition@)),
{
    let mut equi: Vec<LogicalExpr> = Vec::new();
    let mut residual: Vec<LogicalExpr> = Vec::new();
    proof {
        logical_plan::lemma_exprs_model(equi@);
    }
    collect_and_terms(condition, &mut equi, &mut residual);
    assert(logical_plan::exprs_model(equi@) =~= equality_terms(condition@));
    assert(logical_plan::exprs_model(residual@) =~= other_terms(condition@));
    (combine_with_and(equi), combine_with_and(residual))
}

/// What is left to be filtered above a join: nothing where the join checks the
/// whole condition itself.
pub fn post_join_residual_filter(
    operator_carries_whole_condition: bool,
    residual: Option<LogicalExpr>,
) -> (r: Option<LogicalExpr>)
    ensures
        r == if operator_carries_whole_condition {
            None
        } else {
            residual
        },
{
    if operator_carries_whole_condition {
        None
    } else {
        residual
    }
}

/// Whether a condition is made up of equalities alone.
pub open spec fn only_equalities(condition: Option<ExprModel>) -> bool {
    match condition {
        None => true,
        Some(e) => equality_operands(e) is Some,
    }
}

fn all_equalities(expr: &LogicalExpr) -> (r: bool)
    ensures
        r == (equality_operands(expr@) is Some),
    decreases expr,
{
    match expr {
        LogicalExpr::BinaryExpr { left, op: BinaryOperator::Eq, right } => true,
        LogicalExpr::BinaryExpr { left, op: BinaryOperator::And, right } => all_equalities(left)
            && all_equalities(right),
        _ => false,
    }
}

/// Whether a condition is made up of equalities alone.
pub fn is_pure_equi_join(condition: &Option<LogicalExpr>) -> (r: bool)
    ensures
        r == only_equalities(logical_plan::opt_expr(*condition)),
{
    match condition {
        None => true,
        Some(e) => all_equalities(e),
    }
}

/// A condition that holds on a row.
pub open spec fn holds(
    e: ExprModel,
    cols: Seq<ColumnModel>,
    params: Seq<ValueModel>,
    row: Seq<ValueModel>,
) -> bool {
    evaluator::eval(e, cols, params, row) == Ok::<ValueModel, schema::ErrorModel>(
        ValueModel::Boolean(true),
    )
}

pub open spec fn all_hold(
    s: Seq<ExprModel>,
    cols: Seq<ColumnModel>,
    params: Seq<ValueModel>,
    row: Seq<ValueModel>,
) -> bool {
    forall|i: int| 0 <= i < s.len() ==> holds(#[trigger] s[i], cols, params, row)
}

pub open spec fn opt_holds(
    e: Option<ExprModel>,
    cols: Seq<ColumnModel>,
    params: Seq<ValueModel>,
    row: Seq<ValueModel>,
) -> bool {
    match e {
        Some(c) => holds(c, cols, params, row),
        None => true,
    }
}

proof fn lemma_all_hold_add(
    a: Seq<ExprModel>,
    b: Seq<ExprModel>,
    cols: Seq<ColumnModel>,
    params: Seq<ValueModel>,
    row: Seq<ValueModel>,
)
    ensures
        all_hold(a + b, cols, params, row) == (all_hold(a, cols, params, row) && all_hold(
            b,
            cols,
            params,
            row,
        )),
{
    if all_hold(a + b, cols, params, row) {
        assert forall|i: int| 0 <= i < a.len() implies holds(#[trigger] a[i], cols, params, row) by {
            assert((a + b)[i] == a[i]);
        }
        assert forall|i: int| 0 <= i < b.len() implies holds(#[trigger] b[i], cols, params, row) by {
            assert((a + b)[a.len() + i] == b[i]);
        }
    }
}

proof fn lemma_and_holds(
    a: ExprModel,
    b: ExprModel,
    cols: Seq<ColumnModel>,
    params: Seq<ValueModel>,
    row: Seq<ValueModel>,
)
    ensures
        holds(
            ExprModel::BinaryExpr { left: Box::new(a), op: BinaryOperator::And, right: Box::new(b) },
            cols,
            params,
            row,
        ) == (holds(a, cols, params, row) && holds(b, cols, params, row)),
{
    let x = evaluator::eval(a, cols, params, row);
    let y = evaluator::eval(b, cols, params, row);
    let e = ExprModel::BinaryExpr {
        left: Box::new(a),
        op: BinaryOperator::And,
        right: Box::new(b),
    };
    assert(evaluator::eval(e, cols, params, row) == evaluator::eval(e, cols, params, row));
}

/// A condition holds exactly where all of its terms hold.
pub proof fn law_condition_is_its_terms(
    e: ExprModel,
    cols: Seq<ColumnModel>,
    params: Seq<ValueModel>,
    row: Seq<ValueModel>,
)
    ensures
        holds(e, cols, params, row) == all_hold(terms(e), cols, params, row),
    decreases e,
{
    match e {
        ExprModel::BinaryExpr { left, op: BinaryOperator::And, right } => {
            law_condition_is_its_terms(*left, cols, params, row);
            law_condition_is_its_terms(*right, cols, params, row);
            lemma_all_hold_add(terms(*left), terms(*right), cols, params, row);
            lemma_and_holds(*left, *right, cols, params, row);
        },
        _ => {
            assert(terms(e)[0] == e);
        },
    }
}

/// Terms held together with `AND` hold exactly where all of them hold.
pub proof fn law_combined_terms_hold(
    s: Seq<ExprModel>,
    cols: Seq<ColumnModel>,
    params: Seq<ValueModel>,
    row: Seq<ValueModel>,
)
    ensures
        combined(s) is None == (s.len() == 0),
        opt_holds(combined(s), cols, params, row) == all_hold(s, cols, params, row),
    decreases s.len(),
{
    if s.len() == 1 {
        assert(all_hold(s, cols, params, row) == holds(s[0], cols, params, row));
    } else if s.len() > 1 {
        law_combined_terms_hold(s.drop_last(), cols, params, row);
        let a = combined(s.drop_last())->Some_0;
        lemma_and_holds(a, s.last(), cols, params, row);
        assert(s =~= s.drop_last() + seq![s.last()]);
        lemma_all_hold_add(s.drop_last(), seq![s.last()], cols, params, row);
        assert(all_hold(seq![s.last()], cols, params, row) == holds(
            s.last(),
            cols,
            params,
            row,
        )) by {
            assert(seq![s.last()][0] == s.last());
        }
    }
}

/// Every term of a condition is keyed or residual, never both and never lost.
pub proof fn law_every_term_is_keyed_or_residual(
    e: ExprModel,
    left: Seq<ColumnModel>,
    right: Seq<ColumnModel>,
)
    ensures
        terms(e).to_multiset() =~= keyed_terms(e, left, right).to_multiset().add(
            residual_terms(e, left, right).to_multiset(),
        ),
        bound_pairs(e, left, right).len() == keyed_terms(e, left, right).len(),
    decreases e,
{
    broadcast use vstd::seq_lib::group_to_multiset_ensures;

    match e {
        ExprModel::BinaryExpr { left: a, op: BinaryOperator::And, right: b } => {
            law_every_term_is_keyed_or_residual(*a, left, right);
            law_every_term_is_keyed_or_residual(*b, left, right);
            vstd::seq_lib::lemma_multiset_commutative(terms(*a), terms(*b));
            vstd::seq_lib::lemma_multiset_commutative(
                keyed_terms(*a, left, right),
                keyed_terms(*b, left, right),
            );
            vstd::seq_lib::lemma_multiset_commutative(
                residual_terms(*a, left, right),
                residual_terms(*b, left, right),
            );
        },
        _ => {
            assert(seq![e] =~= Seq::<ExprModel>::empty().push(e));
        },
    }
}

proof fn lemma_split_holds(
    e: ExprModel,
    left: Seq<ColumnModel>,
    right: Seq<ColumnModel>,
    cols: Seq<ColumnModel>,
    params: Seq<ValueModel>,
    row: Seq<ValueModel>,
)
    ensures
        all_hold(terms(e), cols, params, row) == (all_hold(
            keyed_terms(e, left, right),
            cols,
            params,
            row,
        ) && all_hold(residual_terms(e, left, right), cols, params, row)),
    decreases e,
{
    match e {
        ExprModel::BinaryExpr { left: a, op: BinaryOperator::And, right: b } => {
            lemma_split_holds(*a, left, right, cols, params, row);
            lemma_split_holds(*b, left, right, cols, params, row);
            lemma_all_hold_add(terms(*a), terms(*b), cols, params, row);
            lemma_all_hold_add(
                keyed_terms(*a, left, right),
                keyed_terms(*b, left, right),
                cols,
                params,
                row,
            );
            lemma_all_hold_add(
                residual_terms(*a, left, right),
                residual_terms(*b, left, right),
                cols,
                params,
                row,
            );
        },
        _ => {
            assert(terms(e) =~= keyed_terms(e, left, right) + residual_terms(e, left, right));
            lemma_all_hold_add(
                keyed_terms(e, left, right),
                residual_terms(e, left, right),
                cols,
                params,
                row,
            );
        },
    }
}

/// Planning a condition keeps its meaning: it holds on a row exactly where the
/// keyed part and the residual part both hold. So no term is dropped.
pub proof fn law_planning_drops_no_term(
    condition: ExprModel,
    left: Seq<ColumnModel>,
    right: Seq<ColumnModel>,
    cols: Seq<ColumnModel>,
    params: Seq<ValueModel>,
    row: Seq<ValueModel>,
)
    ensures
        ({
            let plan = planned(condition, left, right);
            holds(condition, cols, params, row) == (opt_holds(plan.equi, cols, params, row)
                && opt_holds(plan.residual, cols, params, row))
        }),
{
    if direct_keys(condition, left, right) is None {
        law_condition_is_its_terms(condition, cols, params, row);
        lemma_split_holds(condition, left, right, cols, params, row);
        law_combined_terms_hold(keyed_terms(condition, left, right), cols, params, row);
        law_combined_terms_hold(residual_terms(condition, left, right), cols, params, row);
    }
}

/// A planned condition whose keys are not taken by position has one bound pair
/// for each keyed term; with nothing keyed there is no pair.
pub proof fn law_keys_match_terms(
    condition: ExprModel,
    left: Seq<ColumnModel>,
    right: Seq<ColumnModel>,
)
    ensures
        ({
            let plan = planned(condition, left, right);
            &&& plan.direct is None ==> plan.pairs.len() == keyed_terms(
                condition,
                left,
                right,
            ).len()
            &&& plan.equi is None ==> plan.pairs.len() == 0 && plan.direct is None
        }),
{
    law_every_term_is_keyed_or_residual(condition, left, right);
    law_combined_terms_hold(
        keyed_terms(condition, left, right),
        Seq::empty(),
        Seq::empty(),
        Seq::empty(),
    );
}

} // verus!
