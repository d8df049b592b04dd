//! Arithmetic on whole numbers, and operators on texts.

use crate::compare;
use crate::float_bits;
use crate::logical_plan::BinaryOperator;
use crate::schema::{Error, ErrorModel};
use crate::text;
use crate::value::{Value, ValueModel};
use vstd::prelude::*;
use vstd::string::*;

verus! {

pub open spec fn out_of_range() -> ErrorModel {
    ErrorModel::QueryExecution("integer out of range"@)
}

fn out_of_range_error() -> (r: Error)
    ensures
        r@ == out_of_range(),
{
    Error::query_execution("integer out of range".to_owned())
}

pub open spec fn division_by_zero() -> ErrorModel {
    ErrorModel::QueryExecution("division by zero"@)
}

fn division_by_zero_error() -> (r: Error)
    ensures
        r@ == division_by_zero(),
{
    Error::query_execution("division by zero".to_owned())
}

/// How many bytes a whole number takes.
pub open spec fn width(v: ValueModel) -> int {
    match v {
        ValueModel::Int2(_) => 2,
        ValueModel::Int4(_) => 4,
        _ => 8,
    }
}

fn find_width(v: &Value) -> (r: u8)
    ensures
        r == width(v@),
{
    match v {
        Value::Int2(_) => 2,
        Value::Int4(_) => 4,
        _ => 8,
    }
}

/// The wider of two widths.
pub open spec fn common_width(a: ValueModel, b: ValueModel) -> int {
    if width(a) < width(b) {
        width(b)
    } else {
        width(a)
    }
}

/// A whole number of some width.
pub open spec fn int_of_width(n: int, w: int) -> Result<ValueModel, ErrorModel> {
    if w == 2 && i16::MIN <= n <= i16::MAX {
        Ok(ValueModel::Int2(n as i16))
    } else if w == 4 && i32::MIN <= n <= i32::MAX {
        Ok(ValueModel::Int4(n as i32))
    } else if w == 8 && i64::MIN <= n <= i64::MAX {
        Ok(ValueModel::Int8(n as i64))
    } else {
        Err(out_of_range())
    }
}

/// What an operation stands for.
pub open spec fn outcome(r: Result<Value, Error>) -> Result<ValueModel, ErrorModel> {
    match r {
        Ok(v) => Ok(v@),
        Err(e) => Err(e@),
    }
}

fn make_int(n: i128, w: u8) -> (r: Result<Value, Error>)
    ensures
        outcome(r) == int_of_width(n as int, w as int),
{
    if w == 2 && -32768 <= n && n <= 32767 {
        Ok(Value::Int2(n as i16))
    } else if w == 4 && -2147483648 <= n && n <= 2147483647 {
        Ok(Value::Int4(n as i32))
    } else if w == 8 && -9223372036854775808 <= n && n <= 9223372036854775807 {
        Ok(Value::Int8(n as i64))
    } else {
        Err(out_of_range_error())
    }
}

/// A quotient, rounded towards zero.
pub open spec fn quotient(a: i64, b: i64) -> int {
    let q = (float_bits::size_of_int(a) / float_bits::size_of_int(b)) as int;
    if (a < 0) == (b < 0) {
        q
    } else {
        -q
    }
}

/// What division leaves, with the sign of the dividend.
pub open spec fn remainder(a: i64, b: i64) -> int {
    let r = (float_bits::size_of_int(a) % float_bits::size_of_int(b)) as int;
    if a < 0 {
        -r
    } else {
        r
    }
}

/// What an operator computes of two whole numbers.
pub open spec fn computed(op: BinaryOperator, a: i64, b: i64) -> Result<int, ErrorModel> {
    match op {
        BinaryOperator::Plus => Ok(a + b),
        BinaryOperator::Minus => Ok(a - b),
        BinaryOperator::Multiply => Ok(a * b),
        _ => if b == 0 {
            Err(division_by_zero())
        } else if op == BinaryOperator::Divide {
            Ok(quotient(a, b))
        } else {
            Ok(remainder(a, b))
        },
    }
}

pub open spec fn is_arithmetic(op: BinaryOperator) -> bool {
    op == BinaryOperator::Plus || op == BinaryOperator::Minus || op == BinaryOperator::Multiply
        || op == BinaryOperator::Divide || op == BinaryOperator::Modulo
}

proof fn lemma_product_fits(a: i64, b: i64)
    ensures
        i128::MIN <= a * b <= i128::MAX,
{
    assert(-0x4000_0000_0000_0000_0000_0000_0000_0000 <= a * b
        <= 0x4000_0000_0000_0000_0000_0000_0000_0000) by (nonlinear_arith)
        requires
            -0x8000_0000_0000_0000 <= a <= 0x8000_0000_0000_0000,
            -0x8000_0000_0000_0000 <= b <= 0x8000_0000_0000_0000,
    ;
}

proof fn lemma_division_fits(x: nat, y: nat)
    requires
        y > 0,
        x <= 0x8000_0000_0000_0000,
    ensures
        x / y <= x,
        x % y < y,
{
    assert(x / y <= x && x % y < y) by (nonlinear_arith)
        requires
            y > 0,
    ;
}

fn compute(op: BinaryOperator, a: i64, b: i64) -> (r: Result<i128, Error>)
    requires
        is_arithmetic(op),
    ensures
        match r {
            Ok(n) => computed(op, a, b) == Ok::<int, ErrorModel>(n as int),
            Err(e) => computed(op, a, b) == Err::<int, ErrorModel>(e@),
        },
{
    match op {
        BinaryOperator::Plus => Ok(a as i128 + b as i128),
        BinaryOperator::Minus => Ok(a as i128 - b as i128),
        BinaryOperator::Multiply => {
            proof {
                lemma_product_fits(a, b);
            }
            Ok(a as i128 * b as i128)
        },
        _ => {
            if b == 0 {
                return Err(division_by_zero_error());
            }
            let x: u128 = float_bits::find_size(a);
            let y: u128 = float_bits::find_size(b);
            proof {
                lemma_division_fits(x as nat, y as nat);
            }
            if matches!(op, BinaryOperator::Divide) {
                let q: i128 = (x / y) as i128;
                Ok(
                    if (a < 0) == (b < 0) {
                        q
                    } else {
                        -q
                    },
                )
            } else {
                let left: i128 = (x % y) as i128;
                Ok(
                    if a < 0 {
                        -left
                    } else {
                        left
                    },
                )
            }
        },
    }
}

/// What an arithmetic operator gives on two values; `None` where one of them is
/// neither a whole number nor NULL. The result is as wide as the wider operand.
pub open spec fn arithmetic(a: ValueModel, op: BinaryOperator, b: ValueModel) -> Option<
    Result<ValueModel, ErrorModel>,
> {
    match (compare::int_value(a), compare::int_value(b)) {
        (Some(x), Some(y)) => Some(
            match computed(op, x, y) {
                Ok(n) => int_of_width(n, common_width(a, b)),
                Err(e) => Err(e),
            },
        ),
        (Some(x), None) => if b is Null {
            Some(Ok(ValueModel::Null))
        } else {
            None
        },
        (None, Some(y)) => if a is Null {
            Some(Ok(ValueModel::Null))
        } else {
            None
        },
        (None, None) => if a is Null && b is Null {
            Some(Ok(ValueModel::Null))
        } else {
            None
        },
    }
}

pub open spec fn opt_outcome(r: Option<Result<Value, Error>>) -> Option<
    Result<ValueModel, ErrorModel>,
> {
    match r {
        Some(x) => Some(outcome(x)),
        None => None,
    }
}

/// Applies an arithmetic operator to two values.
pub fn apply_arithmetic(a: &Value, op: BinaryOperator, b: &Value) -> (r: Option<
    Result<Value, Error>,
>)
    requires
        is_arithmetic(op),
    ensures
        opt_outcome(r) == arithmetic(a@, op, b@),
{
    match (compare::value_int(a), compare::value_int(b)) {
        (Some(x), Some(y)) => {
            let wa: u8 = find_width(a);
            let wb: u8 = find_width(b);
            let w: u8 = if wa < wb {
                wb
            } else {
                wa
            };
            Some(
                match compute(op, x, y) {
                    Ok(n) => make_int(n, w),
                    Err(e) => Err(e),
                },
            )
        },
        (Some(_), None) => if matches!(b, Value::Null) {
            Some(Ok(Value::Null))
        } else {
            None
        },
        (None, Some(_)) => if matches!(a, Value::Null) {
            Some(Ok(Value::Null))
        } else {
            None
        },
        (None, None) => if matches!(a, Value::Null) && matches!(b, Value::Null) {
            Some(Ok(Value::Null))
        } else {
            None
        },
    }
}

/// A number with the other sign; `None` where a value is neither a number nor NULL.
pub open spec fn negated(v: ValueModel) -> Option<Result<ValueModel, ErrorModel>> {
    match v {
        ValueModel::Null => Some(Ok(v)),
        ValueModel::Float4(b) => Some(
            Ok(
                ValueModel::Float4(
                    if b >= 0x8000_0000 {
                        (b - 0x8000_0000) as u32
                    } else {
                        (b + 0x8000_0000) as u32
                    },
                ),
            ),
        ),
        ValueModel::Float8(b) => Some(
            Ok(
                ValueModel::Float8(
                    if b >= 0x8000_0000_0000_0000 {
                        (b - 0x8000_0000_0000_0000) as u64
                    } else {
                        (b + 0x8000_0000_0000_0000) as u64
                    },
                ),
            ),
        ),
        _ => match compare::int_value(v) {
            Some(n) => Some(int_of_width(-n, width(v))),
            None => None,
        },
    }
}

/// Gives a number the other sign.
pub fn negate(v: &Value) -> (r: Option<Result<Value, Error>>)
    ensures
        opt_outcome(r) == negated(v@),
{
    match v {
        Value::Null => Some(Ok(Value::Null)),
        Value::Float4(b) => Some(
            Ok(
                Value::Float4(
                    if *b >= 0x8000_0000 {
                        *b - 0x8000_0000
                    } else {
                        *b + 0x8000_0000
                    },
                ),
            ),
        ),
        Value::Float8(b) => Some(
            Ok(
                Value::Float8(
                    if *b >= 0x8000_0000_0000_0000 {
                        *b - 0x8000_0000_0000_0000
                    } else {
                        *b + 0x8000_0000_0000_0000
                    },
                ),
            ),
        ),
        _ => match compare::value_int(v) {
            Some(n) => Some(make_int(-(n as i128), find_width(v))),
            None => None,
        },
    }
}

/// Whether a value is a number or NULL.
pub open spec fn is_number(v: ValueModel) -> bool {
    v is Null || v is Float4 || v is Float8 || compare::int_value(v) is Some
}

/// Tests whether a value is a number or NULL.
pub fn number_or_null(v: &Value) -> (r: bool)
    ensures
        r == is_number(v@),
{
    matches!(v, Value::Null | Value::Float4(_) | Value::Float8(_)) || compare::value_int(
        v,
    ).is_some()
}

/// One text behind another; `None` where a value is neither a text nor NULL.
pub open spec fn concatenated(a: ValueModel, b: ValueModel) -> Option<ValueModel> {
    match (a, b) {
        (ValueModel::String(x), ValueModel::String(y)) => Some(ValueModel::String(x + y)),
        (ValueModel::Null, ValueModel::String(_)) => Some(ValueModel::Null),
        (ValueModel::String(_), ValueModel::Null) => Some(ValueModel::Null),
        (ValueModel::Null, ValueModel::Null) => Some(ValueModel::Null),
        _ => None,
    }
}

pub open spec fn opt_model(v: Option<Value>) -> Option<ValueModel> {
    match v {
        Some(x) => Some(x@),
        None => None,
    }
}

/// Puts one text behind another.
pub fn concatenate(a: &Value, b: &Value) -> (r: Option<Value>)
    ensures
        opt_model(r) == concatenated(a@, b@),
{
    match (a, b) {
        (Value::String(x), Value::String(y)) => {
            let both: String = x.clone().concat(y.as_str());
            Some(Value::String(both))
        },
        (Value::Null, Value::String(_)) => Some(Value::Null),
        (Value::String(_), Value::Null) => Some(Value::Null),
        (Value::Null, Value::Null) => Some(Value::Null),
        _ => None,
    }
}

/// Whether a text matches a `LIKE` pattern: `%` stands for any text, `_` for any
/// one character, and a backslash takes the meaning from the character behind it.
pub open spec fn like(s: Seq<char>, p: Seq<char>) -> bool
    decreases p.len(), s.len(),
{
    if p.len() == 0 {
        s.len() == 0
    } else if p[0] == '%' {
        like(s, p.drop_first()) || (s.len() > 0 && like(s.drop_first(), p))
    } else if s.len() == 0 {
        false
    } else if p[0] == '_' {
        like(s.drop_first(), p.drop_first())
    } else if p[0] == '\\' && p.len() > 1 {
        s[0] == p[1] && like(s.drop_first(), p.skip(2))
    } else {
        s[0] == p[0] && like(s.drop_first(), p.drop_first())
    }
}

fn like_from(s: &Vec<char>, i: usize, p: &Vec<char>, j: usize) -> (r: bool)
    requires
        i <= s.len(),
        j <= p.len(),
    ensures
        r == like(s@.skip(i as int), p@.skip(j as int)),
    decreases p.len() - j, s.len() - i,
{
    let ghost st = s@.skip(i as int);
    let ghost pt = p@.skip(j as int);
    if j == p.len() {
        return i == s.len();
    }
    assert(pt[0] == p@[j as int]);
    assert(pt.drop_first() =~= p@.skip(j + 1));
    proof {
        if i < s.len() {
            assert(st[0] == s@[i as int]);
            assert(st.drop_first() =~= s@.skip(i + 1));
        }
    }
    if p[j] == '%' {
        return like_from(s, i, p, j + 1) || (i < s.len() && like_from(s, i + 1, p, j));
    }
    if i == s.len() {
        return false;
    }
    if p[j] == '_' {
        return like_from(s, i + 1, p, j + 1);
    }
    if p[j] == '\\' && j + 1 < p.len() {
        assert(pt[1] == p@[j + 1]);
        assert(pt.skip(2) =~= p@.skip(j + 2));
        return s[i] == p[j + 1] && like_from(s, i + 1, p, j + 2);
    }
    s[i] == p[j] && like_from(s, i + 1, p, j + 1)
}

/// What `LIKE` gives on two values; `None` where one is neither a text nor NULL.
pub open spec fn like_value(a: ValueModel, b: ValueModel, not: bool) -> Option<ValueModel> {
    match (a, b) {
        (ValueModel::String(s), ValueModel::String(p)) => Some(
            ValueModel::Boolean(like(s, p) != not),
        ),
        (ValueModel::Null, ValueModel::String(_)) => Some(ValueModel::Null),
        (ValueModel::String(_), ValueModel::Null) => Some(ValueModel::Null),
        (ValueModel::Null, ValueModel::Null) => Some(ValueModel::Null),
        _ => None,
    }
}

/// Matches a text with a pattern.
pub fn match_pattern(a: &Value, b: &Value, not: bool) -> (r: Option<Value>)
    ensures
        opt_model(r) == like_value(a@, b@, not),
{
    match (a, b) {
        (Value::String(s), Value::String(p)) => {
            let sc: Vec<char> = text::chars_of(s.as_str());
            let pc: Vec<char> = text::chars_of(p.as_str());
            assert(sc@.skip(0) =~= sc@);
            assert(pc@.skip(0) =~= pc@);
            Some(Value::Boolean(like_from(&sc, 0, &pc, 0) != not))
        },
        (Value::Null, Value::String(_)) => Some(Value::Null),
        (Value::String(_), Value::Null) => Some(Value::Null),
        (Value::Null, Value::Null) => Some(Value::Null),
        _ => None,
    }
}

} // verus!
