//! The `WHERE` operator.

use crate::debug_text;
use crate::compare;
use crate::evaluator;
use crate::evaluator::Evaluator;
use crate::executor::operator;
use crate::executor::operator::{PhysicalOperator, RowStream, TimeoutContext};
use crate::logical_plan::{BinaryOperator, ExprModel, LogicalExpr};
use crate::schema;
use crate::schema::{ColumnModel, Error, ErrorModel, Schema, Tuple, TupleModel};
use crate::text::Order;
use crate::value;
use crate::value::{Value, ValueModel};
use std::sync::Arc;
use vstd::prelude::*;
use vstd::string::*;

verus! {

/// A comparison that is decided on two values directly.
#[derive(Clone, Copy, Debug, PartialEq, Eq, Structural)]
pub enum DirectCompareOp {
    Eq,
    NotEq,
    Lt,
    LtEq,
    Gt,
    GtEq,
}

/// The operator of a direct comparison.
pub open spec fn as_operator(op: DirectCompareOp) -> BinaryOperator {
    match op {
        DirectCompareOp::Eq => BinaryOperator::Eq,
        DirectCompareOp::NotEq => BinaryOperator::NotEq,
        DirectCompareOp::Lt => BinaryOperator::Lt,
        DirectCompareOp::LtEq => BinaryOperator::LtEq,
        DirectCompareOp::Gt => BinaryOperator::Gt,
        DirectCompareOp::GtEq => BinaryOperator::GtEq,
    }
}

/// The direct comparison of an operator.
pub open spec fn direct_op(op: BinaryOperator) -> Option<DirectCompareOp> {
    match op {
        BinaryOperator::Eq => Some(DirectCompareOp::Eq),
        BinaryOperator::NotEq => Some(DirectCompareOp::NotEq),
        BinaryOperator::Lt => Some(DirectCompareOp::Lt),
        BinaryOperator::LtEq => Some(DirectCompareOp::LtEq),
        BinaryOperator::Gt => Some(DirectCompareOp::Gt),
        BinaryOperator::GtEq => Some(DirectCompareOp::GtEq),
        _ => None,
    }
}

/// The comparison read from the other side.
pub open spec fn reversed_op(op: DirectCompareOp) -> DirectCompareOp {
    match op {
        DirectCompareOp::Eq => DirectCompareOp::Eq,
        DirectCompareOp::NotEq => DirectCompareOp::NotEq,
        DirectCompareOp::Lt => DirectCompareOp::Gt,
        DirectCompareOp::LtEq => DirectCompareOp::GtEq,
        DirectCompareOp::Gt => DirectCompareOp::Lt,
        DirectCompareOp::GtEq => DirectCompareOp::LtEq,
    }
}

/// What a direct comparison says of two values, `None` where they do not
/// compare.
pub open spec fn op_matches(op: DirectCompareOp, a: ValueModel, b: ValueModel) -> Option<bool> {
    match compare::direct_order(a, b) {
        Some(o) => Some(evaluator::operator_holds(as_operator(op), o)),
        None => None,
    }
}

/// A reversed comparison of swapped values says the same.
pub proof fn law_reversed_comparison(op: DirectCompareOp, a: ValueModel, b: ValueModel)
    ensures
        op_matches(reversed_op(op), b, a) == op_matches(op, a, b),
        reversed_op(reversed_op(op)) == op,
{
    compare::law_direct_order_is_antisymmetric(a, b);
}

impl DirectCompareOp {
    pub fn try_from_binary_op(op: BinaryOperator) -> (r: Option<DirectCompareOp>)
        ensures
            r == direct_op(op),
    {
        match op {
            BinaryOperator::Eq => Some(DirectCompareOp::Eq),
            BinaryOperator::NotEq => Some(DirectCompareOp::NotEq),
            BinaryOperator::Lt => Some(DirectCompareOp::Lt),
            BinaryOperator::LtEq => Some(DirectCompareOp::LtEq),
            BinaryOperator::Gt => Some(DirectCompareOp::Gt),
            BinaryOperator::GtEq => Some(DirectCompareOp::GtEq),
            _ => None,
        }
    }

    pub fn reversed(self) -> (r: DirectCompareOp)
        ensures
            r == reversed_op(self),
    {
        match self {
            DirectCompareOp::Eq => DirectCompareOp::Eq,
            DirectCompareOp::NotEq => DirectCompareOp::NotEq,
            DirectCompareOp::Lt => DirectCompareOp::Gt,
            DirectCompareOp::LtEq => DirectCompareOp::GtEq,
            DirectCompareOp::Gt => DirectCompareOp::Lt,
            DirectCompareOp::GtEq => DirectCompareOp::LtEq,
        }
    }

    pub fn matches(self, left: &Value, right: &Value) -> (r: Option<bool>)
        ensures
            r == op_matches(self, left@, right@),
    {
        match compare::compare_direct_values(left, right) {
            Some(o) => Some(
                match self {
                    DirectCompareOp::Eq => matches!(o, Order::Equal),
                    DirectCompareOp::NotEq => !matches!(o, Order::Equal),
                    DirectCompareOp::Lt => matches!(o, Order::Less),
                    DirectCompareOp::LtEq => !matches!(o, Order::Greater),
                    DirectCompareOp::Gt => matches!(o, Order::Greater),
                    DirectCompareOp::GtEq => !matches!(o, Order::Less),
                },
            ),
            None => None,
        }
    }
}

/// A predicate that is decided on the row's values directly, without the
/// evaluator: comparisons of a column with a constant, `IS NULL` tests, and
/// conjunctions of them.
#[derive(Debug)]
pub enum DirectFilterPredicate {
    Compare { column_idx: usize, op: DirectCompareOp, literal: Value },
    IsNull { column_idx: usize, is_null: bool },
    And(Vec<DirectFilterPredicate>),
}

/// What a `DirectFilterPredicate` stands for.
pub enum DirectModel {
    Compare { column_idx: usize, op: DirectCompareOp, literal: ValueModel },
    IsNull { column_idx: usize, is_null: bool },
    And(Seq<DirectModel>),
}

pub open spec fn direct_model(d: DirectFilterPredicate) -> DirectModel
    decreases d,
{
    match d {
        DirectFilterPredicate::Compare { column_idx, op, literal } => DirectModel::Compare {
            column_idx,
            op,
            literal: literal@,
        },
        DirectFilterPredicate::IsNull { column_idx, is_null } => DirectModel::IsNull {
            column_idx,
            is_null,
        },
        DirectFilterPredicate::And(parts) => DirectModel::And(directs_model(parts@)),
    }
}

pub open spec fn directs_model(s: Seq<DirectFilterPredicate>) -> Seq<DirectModel>
    decreases s,
{
    Seq::new(
        s.len(),
        |i: int|
            if 0 <= i < s.len() {
                direct_model(s[i])
            } else {
                arbitrary()
            },
    )
}

impl View for DirectFilterPredicate {
    type V = DirectModel;

    open spec fn view(&self) -> DirectModel {
        direct_model(*self)
    }
}

/// What a direct predicate says of a row, `None` where only the evaluator can
/// tell.
pub open spec fn direct_verdict(d: DirectModel, row: Seq<ValueModel>) -> Option<bool>
    decreases d, 0int,
{
    match d {
        DirectModel::Compare { column_idx, op, literal } => if column_idx < row.len() {
            op_matches(op, row[column_idx as int], literal)
        } else {
            None
        },
        DirectModel::IsNull { column_idx, is_null } => if column_idx < row.len() {
            Some((row[column_idx as int] is Null) == is_null)
        } else {
            None
        },
        DirectModel::And(parts) => conjunction_verdict(parts, 0, row),
    }
}

/// What the conjuncts from position `i` on say of a row: the first that does
/// not hold, or that cannot tell, decides.
pub open spec fn conjunction_verdict(
    parts: Seq<DirectModel>,
    i: int,
    row: Seq<ValueModel>,
) -> Option<bool>
    decreases parts, parts.len() - i,
{
    if i < 0 || i >= parts.len() {
        Some(true)
    } else {
        match direct_verdict(parts[i], row) {
            Some(true) => conjunction_verdict(parts, i + 1, row),
            other => other,
        }
    }
}

/// The constant that an expression is.
pub open spec fn literal_of(e: ExprModel, params: Seq<ValueModel>) -> Option<ValueModel> {
    match e {
        ExprModel::Literal(v) => Some(v),
        ExprModel::Parameter { index } => if 0 < index <= params.len() {
            Some(params[index - 1])
        } else {
            None
        },
        _ => None,
    }
}

/// A column of the schema against a constant other than NULL.
pub open spec fn column_and_literal(
    column: ExprModel,
    literal: ExprModel,
    cols: Seq<ColumnModel>,
    params: Seq<ValueModel>,
) -> Option<(usize, ValueModel)> {
    match column {
        ExprModel::Column { table, name } => match (
            schema::qualified_index(cols, table, name),
            literal_of(literal, params),
        ) {
            (Some(i), Some(v)) => if v is Null {
                None
            } else {
                Some((i, v))
            },
            _ => None,
        },
        _ => None,
    }
}

/// The direct form of a predicate, where it has one.
pub open spec fn direct_form(
    e: ExprModel,
    cols: Seq<ColumnModel>,
    params: Seq<ValueModel>,
) -> Option<DirectModel>
    decreases e, 0int,
{
    match e {
        ExprModel::BinaryExpr { left, op, right } => if op == BinaryOperator::And {
            match (conjuncts(*left, cols, params), conjuncts(*right, cols, params)) {
                (Some(a), Some(b)) => Some(DirectModel::And(a + b)),
                _ => None,
            }
        } else {
            match direct_op(op) {
                None => None,
                Some(op) => match column_and_literal(*left, *right, cols, params) {
                    Some((column_idx, literal)) => Some(
                        DirectModel::Compare { column_idx, op, literal },
                    ),
                    None => match column_and_literal(*right, *left, cols, params) {
                        Some((column_idx, literal)) => Some(
                            DirectModel::Compare { column_idx, op: reversed_op(op), literal },
                        ),
                        None => None,
                    },
                },
            }
        },
        ExprModel::IsNull { expr, is_null } => match *expr {
            ExprModel::Column { table, name } => match schema::qualified_index(cols, table, name) {
                Some(column_idx) => Some(DirectModel::IsNull { column_idx, is_null }),
                None => None,
            },
            _ => None,
        },
        _ => None,
    }
}

/// The direct forms of the conjuncts of a predicate, where all have one.
pub open spec fn conjuncts(
    e: ExprModel,
    cols: Seq<ColumnModel>,
    params: Seq<ValueModel>,
) -> Option<Seq<DirectModel>>
    decreases e, 1int,
{
    match e {
        ExprModel::BinaryExpr { left, op: BinaryOperator::And, right } => match (
            conjuncts(*left, cols, params),
            conjuncts(*right, cols, params),
        ) {
            (Some(a), Some(b)) => Some(a + b),
            _ => None,
        },
        _ => match direct_form(e, cols, params) {
            Some(d) => Some(seq![d]),
            None => None,
        },
    }
}

proof fn lemma_conjunction_shift(
    a: Seq<DirectModel>,
    b: Seq<DirectModel>,
    i: int,
    row: Seq<ValueModel>,
)
    requires
        0 <= i <= b.len(),
    ensures
        conjunction_verdict(a + b, a.len() + i, row) == conjunction_verdict(b, i, row),
    decreases b.len() - i,
{
    if i < b.len() {
        assert((a + b)[a.len() + i] == b[i]);
        lemma_conjunction_shift(a, b, i + 1, row);
    }
}

proof fn lemma_conjunction_concat(
    a: Seq<DirectModel>,
    b: Seq<DirectModel>,
    i: int,
    row: Seq<ValueModel>,
)
    requires
        0 <= i <= a.len(),
    ensures
        conjunction_verdict(a + b, i, row) == (match conjunction_verdict(a, i, row) {
            Some(true) => conjunction_verdict(b, 0, row),
            other => other,
        }),
    decreases a.len() - i,
{
    if i < a.len() {
        assert((a + b)[i] == a[i]);
        lemma_conjunction_concat(a, b, i + 1, row);
    } else {
        lemma_conjunction_shift(a, b, 0, row);
    }
}

proof fn lemma_literal_evaluates(
    e: ExprModel,
    cols: Seq<ColumnModel>,
    params: Seq<ValueModel>,
    row: Seq<ValueModel>,
)
    ensures
        literal_of(e, params) matches Some(v) ==> evaluator::eval(e, cols, params, row) == Ok::<
            ValueModel,
            ErrorModel,
        >(v),
{
}

proof fn lemma_matching_values_compare(op: DirectCompareOp, a: ValueModel, b: ValueModel)
    ensures
        op_matches(op, a, b) matches Some(x) ==> evaluator::binary_value(a, as_operator(op), b)
            == Ok::<ValueModel, ErrorModel>(ValueModel::Boolean(x)),
{
}

proof fn lemma_single_form_agrees(
    e: ExprModel,
    cols: Seq<ColumnModel>,
    params: Seq<ValueModel>,
    row: Seq<ValueModel>,
)
    requires
        !(e matches ExprModel::BinaryExpr { op: BinaryOperator::And, .. }),
    ensures
        direct_form(e, cols, params) matches Some(d) ==> (direct_verdict(d, row) matches Some(b)
            ==> evaluator::eval(e, cols, params, row) == Ok::<ValueModel, ErrorModel>(
            ValueModel::Boolean(b),
        )),
{
    match e {
        ExprModel::BinaryExpr { left, op, right } => {
            lemma_literal_evaluates(*left, cols, params, row);
            lemma_literal_evaluates(*right, cols, params, row);
            if let Some(d) = direct_op(op) {
                assert(evaluator::is_comparison(op) && as_operator(d) == op);
                if let Some((i, v)) = column_and_literal(*left, *right, cols, params) {
                    let form = DirectModel::Compare { column_idx: i, op: d, literal: v };
                    assert(direct_form(e, cols, params) == Some(form));
                    if i < row.len() {
                        assert(direct_verdict(form, row) == op_matches(d, row[i as int], v));
                        lemma_matching_values_compare(d, row[i as int], v);
                        assert(evaluator::eval(*left, cols, params, row) == Ok::<
                            ValueModel,
                            ErrorModel,
                        >(row[i as int]));
                        assert(evaluator::eval(e, cols, params, row)
                            == evaluator::binary_value(row[i as int], op, v));
                    } else {
                        assert(direct_verdict(form, row) is None);
                    }
                } else if let Some((i, v)) = column_and_literal(*right, *left, cols, params) {
                    let form = DirectModel::Compare {
                        column_idx: i,
                        op: reversed_op(d),
                        literal: v,
                    };
                    assert(direct_form(e, cols, params) == Some(form));
                    if i < row.len() {
                        assert(direct_verdict(form, row) == op_matches(
                            reversed_op(d),
                            row[i as int],
                            v,
                        ));
                        law_reversed_comparison(d, v, row[i as int]);
                        lemma_matching_values_compare(d, v, row[i as int]);
                        assert(evaluator::eval(*right, cols, params, row) == Ok::<
                            ValueModel,
                            ErrorModel,
                        >(row[i as int]));
                        assert(evaluator::eval(e, cols, params, row)
                            == evaluator::binary_value(v, op, row[i as int]));
                    } else {
                        assert(direct_verdict(form, row) is None);
                    }
                } else {
                    assert(direct_form(e, cols, params) is None);
                }
            } else {
                assert(direct_form(e, cols, params) is None);
            }
        },
        ExprModel::IsNull { expr, is_null } => {
            if let ExprModel::Column { table, name } = *expr {
                if let Some(i) = schema::qualified_index(cols, table, name) {
                    if i < row.len() {
                        assert(evaluator::eval(*expr, cols, params, row) == Ok::<
                            ValueModel,
                            ErrorModel,
                        >(row[i as int]));
                    }
                }
            }
        },
        _ => {},
    }
}

proof fn lemma_conjuncts_agree(
    e: ExprModel,
    cols: Seq<ColumnModel>,
    params: Seq<ValueModel>,
    row: Seq<ValueModel>,
)
    ensures
        conjuncts(e, cols, params) matches Some(parts) ==> (conjunction_verdict(
            parts,
            0,
            row,
        ) matches Some(b) ==> evaluator::eval(e, cols, params, row) == Ok::<ValueModel, ErrorModel>(
            ValueModel::Boolean(b),
        )),
    decreases e, 1int,
{
    match e {
        ExprModel::BinaryExpr { left, op: BinaryOperator::And, right } => {
            lemma_conjuncts_agree(*left, cols, params, row);
            lemma_conjuncts_agree(*right, cols, params, row);
            if let (Some(a), Some(b)) = (
                conjuncts(*left, cols, params),
                conjuncts(*right, cols, params),
            ) {
                lemma_conjunction_concat(a, b, 0, row);
            }
        },
        _ => {
            lemma_single_form_agrees(e, cols, params, row);
            if let Some(d) = direct_form(e, cols, params) {
                let parts = seq![d];
                assert(parts[0] == d);
                assert(conjunction_verdict(parts, 1, row) == Some(true));
            }
        },
    }
}

/// Whatever the direct form of a predicate says of a row, the evaluator says
/// too.
pub proof fn law_direct_form_agrees_with_evaluator(
    e: ExprModel,
    cols: Seq<ColumnModel>,
    params: Seq<ValueModel>,
    row: Seq<ValueModel>,
)
    ensures
        direct_form(e, cols, params) matches Some(d) ==> (direct_verdict(d, row) matches Some(b)
            ==> evaluator::eval(e, cols, params, row) == Ok::<ValueModel, ErrorModel>(
            ValueModel::Boolean(b),
        )),
    decreases e, 2int,
{
    match e {
        ExprModel::BinaryExpr { left, op, right } => {
            if op == BinaryOperator::And {
                lemma_conjuncts_agree(*left, cols, params, row);
                lemma_conjuncts_agree(*right, cols, params, row);
                if let (Some(a), Some(b)) = (
                    conjuncts(*left, cols, params),
                    conjuncts(*right, cols, params),
                ) {
                    lemma_conjunction_concat(a, b, 0, row);
                    let form = DirectModel::And(a + b);
                    assert(direct_form(e, cols, params) == Some(form));
                    assert(direct_verdict(form, row) == conjunction_verdict(a + b, 0, row));
                    lemma_conjuncts_agree(e, cols, params, row);
                } else {
                    assert(direct_form(e, cols, params) is None);
                }
            } else {
                lemma_single_form_agrees(e, cols, params, row);
            }
        },
        _ => {
            lemma_single_form_agrees(e, cols, params, row);
        },
    }
}

fn direct_literal_value(expr: &LogicalExpr, parameters: &Vec<Value>) -> (r: Option<Value>)
    ensures
        value::opt_value_model(r) == literal_of(expr@, value::values_model(parameters@)),
{
    match expr {
        LogicalExpr::Literal(v) => Some(v.clone()),
        LogicalExpr::Parameter { index } => {
            if 0 < *index && *index <= parameters.len() {
                Some(parameters[*index - 1].clone())
            } else {
                None
            }
        },
        _ => None,
    }
}

/// What a column position with a constant stands for.
pub open spec fn column_literal_model(r: Option<(usize, Value)>) -> Option<(usize, ValueModel)> {
    match r {
        Some((i, v)) => Some((i, v@)),
        None => None,
    }
}

fn column_literal_comparison(
    schema: &Schema,
    column_expr: &LogicalExpr,
    literal_expr: &LogicalExpr,
    parameters: &Vec<Value>,
) -> (r: Option<(usize, Value)>)
    ensures
        column_literal_model(r) == column_and_literal(
            column_expr@,
            literal_expr@,
            schema@,
            value::values_model(parameters@),
        ),
{
    match column_expr {
        LogicalExpr::Column { table, name } => {
            let idx: usize = match schema.get_qualified_column_index(
                schema::as_str(table),
                name.as_str(),
            ) {
                Some(i) => i,
                None => {
                    return None;
                },
            };
            match direct_literal_value(literal_expr, parameters) {
                Some(v) => {
                    if matches!(v, Value::Null) {
                        None
                    } else {
                        Some((idx, v))
                    }
                },
                None => None,
            }
        },
        _ => None,
    }
}

/// What an optional direct predicate stands for.
pub open spec fn opt_direct(d: Option<DirectFilterPredicate>) -> Option<DirectModel> {
    match d {
        Some(x) => Some(x@),
        None => None,
    }
}

impl DirectFilterPredicate {
    pub fn try_from_expr(schema: &Schema, expr: &LogicalExpr, parameters: &Vec<Value>) -> (r: Option<
        DirectFilterPredicate,
    >)
        ensures
            opt_direct(r) == direct_form(expr@, schema@, value::values_model(parameters@)),
        decreases expr, 0int,
    {
        match expr {
            LogicalExpr::BinaryExpr { left, op, right } => {
                if matches!(op, BinaryOperator::And) {
                    let mut parts: Vec<DirectFilterPredicate> = Vec::new();
                    assert(directs_model(parts@) =~= Seq::<DirectModel>::empty());
                    if !Self::collect_and_predicates(schema, left, parameters, &mut parts) {
                        return None;
                    }
                    let ghost a = conjuncts(
                        left@,
                        schema@,
                        value::values_model(parameters@),
                    )->Some_0;
                    assert(directs_model(parts@) =~= a);
                    if !Self::collect_and_predicates(schema, right, parameters, &mut parts) {
                        return None;
                    }
                    return Some(DirectFilterPredicate::And(parts));
                }
                let op: DirectCompareOp = match DirectCompareOp::try_from_binary_op(*op) {
                    Some(d) => d,
                    None => {
                        return None;
                    },
                };
                if let Some((column_idx, literal)) = column_literal_comparison(
                    schema,
                    left,
                    right,
                    parameters,
                ) {
                    return Some(DirectFilterPredicate::Compare { column_idx, op, literal });
                }
                if let Some((column_idx, literal)) = column_literal_comparison(
                    schema,
                    right,
                    left,
                    parameters,
                ) {
                    return Some(
                        DirectFilterPredicate::Compare { column_idx, op: op.reversed(), literal },
                    );
                }
                return None;
            },
            LogicalExpr::IsNull { expr: inner, is_null } => match &**inner {
                LogicalExpr::Column { table, name } => {
                    assert((**inner)@ is Column);
                    match schema.get_qualified_column_index(schema::as_str(table), name.as_str()) {
                        Some(column_idx) => Some(
                            DirectFilterPredicate::IsNull { column_idx, is_null: *is_null },
                        ),
                        None => None,
                    }
                },
                _ => {
                    assert(!((**inner)@ is Column));
                    None
                },
            },
            _ => None,
        }
    }

    /// Appends the direct forms of the conjuncts; `false` where one has none.
    fn collect_and_predicates(
        schema: &Schema,
        expr: &LogicalExpr,
        parameters: &Vec<Value>,
        predicates: &mut Vec<DirectFilterPredicate>,
    ) -> (r: bool)
        ensures
            match conjuncts(expr@, schema@, value::values_model(parameters@)) {
                Some(parts) => r && directs_model(final(predicates)@) == directs_model(
                    old(predicates)@,
                ) + parts,
                None => !r,
            },
        decreases expr, 1int,
    {
        let ghost before = directs_model(predicates@);
        if let LogicalExpr::BinaryExpr { left, op, right } = expr {
            if matches!(op, BinaryOperator::And) {
                if !Self::collect_and_predicates(schema, left, parameters, predicates) {
                    return false;
                }
                if !Self::collect_and_predicates(schema, right, parameters, predicates) {
                    return false;
                }
                assert(directs_model(predicates@) =~= before + conjuncts(
                    expr@,
                    schema@,
                    value::values_model(parameters@),
                )->Some_0);
                return true;
            }
        }
        match Self::try_from_expr(schema, expr, parameters) {
            Some(d) => {
                predicates.push(d);
                assert(directs_model(predicates@) =~= before + seq![d@]);
                true
            },
            None => false,
        }
    }

    /// What the predicate says of a row, `None` where only the evaluator can
    /// tell.
    pub fn matches(&self, tuple: &Tuple) -> (r: Option<bool>)
        ensures
            r == direct_verdict(self@, tuple@.values),
        decreases self,
    {
        match self {
            DirectFilterPredicate::Compare { column_idx, op, literal } => match tuple.get(
                *column_idx,
            ) {
                Some(v) => op.matches(v, literal),
                None => None,
            },
            DirectFilterPredicate::IsNull { column_idx, is_null } => match tuple.get(*column_idx) {
                Some(v) => Some(matches!(v, Value::Null) == *is_null),
                None => None,
            },
            DirectFilterPredicate::And(parts) => {
                let ghost all = directs_model(parts@);
                let mut i: usize = 0;
                while i < parts.len()
                    invariant
                        *self is And,
                        parts == self->And_0,
                        all == directs_model(parts@),
                        i <= parts.len(),
                        conjunction_verdict(all, i as int, tuple@.values) == conjunction_verdict(
                            all,
                            0,
                            tuple@.values,
                        ),
                        self@ == DirectModel::And(all),
                    decreases parts.len() - i,
                {
                    assert(all[i as int] == parts@[i as int]@);
                    match parts[i].matches(tuple) {
                        Some(true) => {},
                        other => {
                            return other;
                        },
                    }
                    i = i + 1;
                }
                Some(true)
            },
        }
    }
}

/// A predicate that gave something else than a truth value.
pub open spec fn not_a_filter(v: ValueModel) -> ErrorModel {
    ErrorModel::QueryExecution(
        "Filter predicate must evaluate to boolean, got: "@ + debug_text::value_text(v),
    )
}

pub fn not_a_filter_error(v: &Value) -> (r: Error)
    ensures
        r@ == not_a_filter(v@),
{
    let head: String = "Filter predicate must evaluate to boolean, got: ".to_owned();
    Error::query_execution(head.concat(debug_text::show_value(v).as_str()))
}

/// Whether a filter keeps a row: what the predicate gives must be true; false
/// and NULL drop the row, anything else is an error.
pub open spec fn keeps(v: Result<ValueModel, ErrorModel>) -> Result<bool, ErrorModel> {
    match v {
        Ok(ValueModel::Boolean(b)) => Ok(b),
        Ok(ValueModel::Null) => Ok(false),
        Ok(x) => Err(not_a_filter(x)),
        Err(e) => Err(e),
    }
}

/// The rows of a stream that a predicate keeps; the first error ends it.
pub open spec fn filtered(
    s: RowStream,
    predicate: ExprModel,
    cols: Seq<ColumnModel>,
    params: Seq<ValueModel>,
) -> RowStream
    decreases s.rows.len(),
{
    if s.rows.len() == 0 {
        s
    } else {
        match keeps(evaluator::eval(predicate, cols, params, s.rows[0].values)) {
            Err(e) => operator::failing(e),
            Ok(true) => filtered(s.rest(), predicate, cols, params).after(s.rows[0]),
            Ok(false) => filtered(s.rest(), predicate, cols, params),
        }
    }
}

/// Hands on the rows of its input that satisfy a predicate.
pub struct FilterOperator<I: PhysicalOperator + ?Sized> {
    input: Box<I>,
    predicate: LogicalExpr,
    evaluator: Evaluator,
    direct_filter: Option<DirectFilterPredicate>,
    timeout_ctx: Option<TimeoutContext>,
}

impl<I: PhysicalOperator + ?Sized> FilterOperator<I> {
    /// The rows that are filtered.
    pub closed spec fn source(&self) -> RowStream {
        self.input.stream()
    }

    /// The time limits that the rows come under.
    pub closed spec fn source_limits(&self) -> Set<u64> {
        self.input.limits()
    }

    /// The time limit of the filter itself.
    pub closed spec fn limit(&self) -> Option<u64> {
        operator::limit_of(self.timeout_ctx)
    }

    /// The bind parameters.
    pub closed spec fn params(&self) -> Seq<ValueModel> {
        self.evaluator.params()
    }

    /// The direct form of the predicate.
    pub closed spec fn direct(&self) -> Option<DirectModel> {
        opt_direct(self.direct_filter)
    }

    pub fn new(input: Box<I>, predicate: LogicalExpr, parameters: Vec<Value>) -> (r: FilterOperator<
        I,
    >)
        requires
            input.ready(),
        ensures
            r.ready(),
            r.stream() == filtered(
                input.stream(),
                predicate@,
                input.columns(),
                value::values_model(parameters@),
            ),
            r.columns() == input.columns(),
            r.source() == input.stream(),
            r.params() == value::values_model(parameters@),
            r.source_limits() == input.limits(),
            r.limit() is None,
            r.limits() == input.limits(),
            r.direct() == direct_form(
                predicate@,
                input.columns(),
                value::values_model(parameters@),
            ),
    {
        let schema: Arc<Schema> = input.schema();
        let ghost cols = input.columns();
        let ghost params = value::values_model(parameters@);
        let direct_filter: Option<DirectFilterPredicate> = DirectFilterPredicate::try_from_expr(
            &schema,
            &predicate,
            &parameters,
        );
        let evaluator: Evaluator = Evaluator::with_parameters(schema, parameters);
        let ghost given = predicate@;
        let predicate: LogicalExpr = evaluator.bind(predicate);
        proof {
            assert forall|row: Seq<ValueModel>|
                #[trigger] evaluator::eval(predicate@, cols, params, row) == evaluator::eval(
                    given,
                    cols,
                    params,
                    row,
                ) by {
                evaluator::law_binding_keeps_the_meaning(given, cols, params, row);
            }
            lemma_filtered_alike(input.stream(), given, predicate@, cols, params);
            if let Some(d) = opt_direct(direct_filter) {
                assert forall|row: Seq<ValueModel>|
                    direct_verdict(d, row) is Some implies evaluator::eval(
                    predicate@,
                    cols,
                    params,
                    row,
                ) == Ok::<ValueModel, ErrorModel>(
                    ValueModel::Boolean(#[trigger] direct_verdict(d, row)->Some_0),
                ) by {
                    law_direct_form_agrees_with_evaluator(given, cols, params, row);
                    evaluator::law_binding_keeps_the_meaning(given, cols, params, row);
                }
            }
        }
        assert(operator::with_limit_of(input.limits(), None) =~= input.limits());
        FilterOperator { input, predicate, evaluator, direct_filter, timeout_ctx: None }
    }

    /// Puts the operator under a time limit.
    pub fn with_timeout(self, timeout_ctx: Option<TimeoutContext>) -> (r: FilterOperator<I>)
        ensures
            self.ready() ==> r.ready(),
            r.stream() == self.stream(),
            r.columns() == self.columns(),
            r.direct() == self.direct(),
            r.params() == self.params(),
            r.source() == self.source(),
            r.source_limits() == self.source_limits(),
            r.limit() == operator::limit_of(timeout_ctx),
            r.limits() == operator::with_limit_of(self.source_limits(), timeout_ctx),
    {
        let mut op = self;
        op.timeout_ctx = timeout_ctx;
        op
    }

    /// The direct form of the predicate, where it has one.
    pub fn direct_filter(&self) -> (r: Option<&DirectFilterPredicate>)
        ensures
            match r {
                Some(d) => self.direct() == Some(d@),
                None => self.direct() is None,
            },
    {
        match &self.direct_filter {
            Some(d) => Some(d),
            None => None,
        }
    }

    fn evaluate_predicate(&self, tuple: &Tuple) -> (r: Result<bool, Error>)
        ensures
            match r {
                Ok(b) => keeps(
                    evaluator::eval(
                        self.predicate@,
                        self.evaluator.columns(),
                        self.evaluator.params(),
                        tuple@.values,
                    ),
                ) == Ok::<bool, ErrorModel>(b),
                Err(e) => keeps(
                    evaluator::eval(
                        self.predicate@,
                        self.evaluator.columns(),
                        self.evaluator.params(),
                        tuple@.values,
                    ),
                ) == Err::<bool, ErrorModel>(e@),
            },
    {
        match self.evaluator.evaluate(&self.predicate, tuple) {
            Ok(Value::Boolean(b)) => Ok(b),
            Ok(Value::Null) => Ok(false),
            Ok(v) => Err(not_a_filter_error(&v)),
            Err(e) => Err(e),
        }
    }
}

proof fn lemma_filtered_alike(
    s: RowStream,
    p: ExprModel,
    q: ExprModel,
    cols: Seq<ColumnModel>,
    params: Seq<ValueModel>,
)
    requires
        forall|row: Seq<ValueModel>|
            #[trigger] evaluator::eval(q, cols, params, row) == evaluator::eval(
                p,
                cols,
                params,
                row,
            ),
    ensures
        filtered(s, q, cols, params) == filtered(s, p, cols, params),
    decreases s.rows.len(),
{
    if s.rows.len() != 0 {
        assert(evaluator::eval(q, cols, params, s.rows[0].values) == evaluator::eval(
            p,
            cols,
            params,
            s.rows[0].values,
        ));
        lemma_filtered_alike(s.rest(), p, q, cols, params);
    }
}

impl<I: PhysicalOperator + ?Sized> PhysicalOperator for FilterOperator<I> {
    closed spec fn ready(&self) -> bool {
        &&& self.input.ready()
        &&& self.evaluator.columns() == self.input.columns()
        &&& self.direct_filter matches Some(d) ==> forall|row: Seq<ValueModel>|
            direct_verdict(d@, row) is Some ==> evaluator::eval(
                self.predicate@,
                self.evaluator.columns(),
                self.evaluator.params(),
                row,
            ) == Ok::<ValueModel, ErrorModel>(
                ValueModel::Boolean(#[trigger] direct_verdict(d@, row)->Some_0),
            )
    }

    closed spec fn stream(&self) -> RowStream {
        filtered(
            self.input.stream(),
            self.predicate@,
            self.evaluator.columns(),
            self.evaluator.params(),
        )
    }

    closed spec fn columns(&self) -> Seq<ColumnModel> {
        self.input.columns()
    }

    closed spec fn limits(&self) -> Set<u64> {
        operator::with_limit_of(self.input.limits(), self.timeout_ctx)
    }

    fn next(&mut self) -> (r: Result<Option<Tuple>, Error>) {
        let ghost whole = self.stream();
        loop
            invariant
                self.ready(),
                self.stream() == whole,
                self.limits() == old(self).limits(),
                self.columns() == old(self).columns(),
                whole == old(self).stream(),
            decreases self.input.stream().rows.len(),
        {
            match operator::check_time(&self.timeout_ctx) {
                Ok(_) => {},
                Err(e) => {
                    return Err(e);
                },
            }
            let ghost before = self.input.stream();
            match self.input.next() {
                Err(e) => {
                    return Err(e);
                },
                Ok(None) => {
                    return Ok(None);
                },
                Ok(Some(tuple)) => {
                    let direct: Option<bool> = match &self.direct_filter {
                        Some(d) => d.matches(&tuple),
                        None => None,
                    };
                    let passes: bool = match direct {
                        Some(b) => b,
                        None => match self.evaluate_predicate(&tuple) {
                            Ok(b) => b,
                            Err(e) => {
                                return Err(e);
                            },
                        },
                    };
                    assert(keeps(
                        evaluator::eval(
                            self.predicate@,
                            self.evaluator.columns(),
                            self.evaluator.params(),
                            tuple@.values,
                        ),
                    ) == Ok::<bool, ErrorModel>(passes));
                    if passes {
                        proof {
                            operator::lemma_after_rest(
                                filtered(
                                    before.rest(),
                                    self.predicate@,
                                    self.evaluator.columns(),
                                    self.evaluator.params(),
                                ),
                                before.rows[0],
                            );
                        }
                        return Ok(Some(tuple));
                    }
                },
            }
        }
    }

    fn schema(&self) -> (r: Arc<Schema>) {
        self.input.schema()
    }
}

/// The rows on which a predicate is true.
pub open spec fn true_on(
    predicate: ExprModel,
    cols: Seq<ColumnModel>,
    params: Seq<ValueModel>,
) -> spec_fn(TupleModel) -> bool {
    |row: TupleModel|
        evaluator::eval(predicate, cols, params, row.values) == Ok::<ValueModel, ErrorModel>(
            ValueModel::Boolean(true),
        )
}

/// Whether a predicate gives a truth value or NULL on a row.
pub open spec fn is_answered(
    predicate: ExprModel,
    cols: Seq<ColumnModel>,
    params: Seq<ValueModel>,
    row: TupleModel,
) -> bool {
    evaluator::eval(predicate, cols, params, row.values) matches Ok(v) && (v is Boolean
        || v is Null)
}

/// A filter keeps exactly the rows on which its predicate is true, unchanged and in
/// order, up to the first row on which the predicate gives no truth value.
pub proof fn law_a_filter_keeps_the_true_rows(
    s: RowStream,
    n: nat,
    predicate: ExprModel,
    cols: Seq<ColumnModel>,
    params: Seq<ValueModel>,
)
    requires
        n <= s.rows.len(),
        forall|i: int|
            0 <= i < n ==> is_answered(predicate, cols, params, #[trigger] s.rows[i]),
        n < s.rows.len() ==> !is_answered(predicate, cols, params, s.rows[n as int]),
    ensures
        filtered(s, predicate, cols, params).rows == s.rows.take(n as int).filter(
            true_on(predicate, cols, params),
        ),
        n == s.rows.len() ==> filtered(s, predicate, cols, params).end == s.end,
        n < s.rows.len() ==> filtered(s, predicate, cols, params).end is Some,
    decreases n,
{
    let keep = true_on(predicate, cols, params);
    if n == 0 {
        assert(s.rows.take(0) =~= Seq::<TupleModel>::empty());
        lemma_filter_none(keep);
        if s.rows.len() == 0 {
            assert(s.rows =~= Seq::<TupleModel>::empty());
        }
    } else {
        let rest = s.rest();
        let m = (n - 1) as nat;
        assert(is_answered(predicate, cols, params, s.rows[0]));
        assert forall|i: int| 0 <= i < m implies is_answered(
            predicate,
            cols,
            params,
            #[trigger] rest.rows[i],
        ) by {
            assert(rest.rows[i] == s.rows[i + 1]);
        }
        law_a_filter_keeps_the_true_rows(rest, m, predicate, cols, params);
        let head = seq![s.rows[0]];
        let tail = rest.rows.take(m as int);
        assert(s.rows.take(n as int) =~= head + tail);
        Seq::filter_distributes_over_add(head, tail, keep);
        lemma_filter_one(s.rows[0], keep);
        assert(Seq::<TupleModel>::empty() + tail.filter(keep) =~= tail.filter(keep));
    }
}

pub proof fn lemma_filter_none<A>(keep: spec_fn(A) -> bool)
    ensures
        Seq::<A>::empty().filter(keep) == Seq::<A>::empty(),
{
    reveal(Seq::filter);
}

pub proof fn lemma_filter_one<A>(x: A, keep: spec_fn(A) -> bool)
    ensures
        seq![x].filter(keep) == if keep(x) {
            seq![x]
        } else {
            Seq::empty()
        },
{
    reveal(Seq::filter);
    assert(seq![x].drop_last() =~= Seq::<A>::empty());
    lemma_filter_none(keep);
    assert(seq![x].filter(keep) =~= if keep(x) {
        seq![x]
    } else {
        Seq::empty()
    });
}

} // verus!
