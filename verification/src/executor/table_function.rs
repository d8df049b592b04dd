//! Functions that stand in place of a table: `generate_series` and `unnest`.

use crate::debug_text;
use crate::executor::any_operator::AnyOperator;
use crate::executor::operator;
use crate::executor::operator::PhysicalOperator;
use crate::executor::scan;
use crate::executor::scan::{GenerateSeriesOperator, UnnestOperator};
use crate::logical_plan;
use crate::logical_plan::{ExprModel, LogicalExpr, UnaryOperator};
use crate::schema;
use crate::schema::{Column, ColumnModel, ColumnStorageMode, Error, ErrorModel, Schema, TupleModel};
use crate::text;
use crate::tree_text;
use crate::value;
use crate::value::{DataType, Value, ValueModel};
use std::sync::Arc;
use vstd::arithmetic::power2::pow2;
use vstd::prelude::*;
use vstd::string::*;

verus! {

/// A floating-point number by its parts: its sign, the field of its exponent
/// and that of its mantissa, how many bits the mantissa has, and the bias and
/// the largest value of the exponent's field.
pub struct FloatParts {
    pub negative: bool,
    pub exponent: u32,
    pub mantissa: u64,
    pub mantissa_bits: u32,
    pub bias: u32,
    pub top: u32,
}

/// The parts of a 64-bit float.
pub open spec fn float8_parts(bits: u64) -> FloatParts {
    FloatParts {
        negative: bits / 0x8000_0000_0000_0000 == 1,
        exponent: ((bits / 0x10_0000_0000_0000) % 0x800) as u32,
        mantissa: bits % 0x10_0000_0000_0000,
        mantissa_bits: 52,
        bias: 1023,
        top: 0x7ff,
    }
}

/// The parts of a 32-bit float.
pub open spec fn float4_parts(bits: u32) -> FloatParts {
    FloatParts {
        negative: bits / 0x8000_0000 == 1,
        exponent: (bits / 0x80_0000) % 0x100,
        mantissa: (bits % 0x80_0000) as u64,
        mantissa_bits: 23,
        bias: 127,
        top: 0xff,
    }
}

/// The whole part of a float without its sign, for an exponent within bounds.
pub open spec fn whole_magnitude(p: FloatParts) -> nat {
    let m = pow2(p.mantissa_bits as nat) + p.mantissa as nat;
    let shift = p.exponent - p.bias - p.mantissa_bits;
    if shift >= 0 {
        m * pow2(shift as nat)
    } else {
        m / pow2((-shift) as nat)
    }
}

/// The whole part of a float, rounded towards zero and kept within the bounds of
/// a 64-bit integer. What is no number gives zero.
pub open spec fn whole_part(p: FloatParts) -> i64 {
    if p.exponent == p.top && p.mantissa != 0 {
        0
    } else if p.exponent < p.bias {
        0
    } else if p.exponent >= p.bias + 63 || whole_magnitude(p) > i64::MAX {
        if p.negative {
            i64::MIN
        } else {
            i64::MAX
        }
    } else if p.negative {
        (-whole_magnitude(p)) as i64
    } else {
        whole_magnitude(p) as i64
    }
}

fn two_to(k: u32) -> (r: u128)
    requires
        k <= 63,
    ensures
        r == pow2(k as nat),
        r <= 0x8000_0000_0000_0000,
        r >= 1,
{
    let mut p: u128 = 1;
    proof {
        vstd::arithmetic::power2::lemma2_to64();
    }
    for i in 0..k
        invariant
            k <= 63,
            p == pow2(i as nat),
            p >= 1,
    {
        proof {
            vstd::arithmetic::power2::lemma2_to64();
            vstd::arithmetic::power2::lemma2_to64_rest();
            vstd::arithmetic::power2::lemma_pow2_unfold((i + 1) as nat);
            vstd::arithmetic::power2::lemma_pow2_strictly_increases(i as nat, 63);
        }
        p = p * 2;
    }
    proof {
        vstd::arithmetic::power2::lemma2_to64();
        vstd::arithmetic::power2::lemma2_to64_rest();
        if k < 63 {
            vstd::arithmetic::power2::lemma_pow2_strictly_increases(k as nat, 63);
        }
    }
    p
}

fn truncate_parts(p: &FloatParts) -> (r: i64)
    requires
        p.mantissa_bits <= 52,
        p.mantissa < 0x10_0000_0000_0000,
        p.bias <= 1023,
    ensures
        r == whole_part(*p),
{
    if p.exponent == p.top && p.mantissa != 0 {
        return 0;
    }
    if p.exponent < p.bias {
        return 0;
    }
    if p.exponent >= p.bias + 63 {
        return if p.negative {
            i64::MIN
        } else {
            i64::MAX
        };
    }
    let m: u128 = two_to(p.mantissa_bits) + p.mantissa as u128;
    let over: u32 = p.exponent - p.bias;
    let n: u128 = if over >= p.mantissa_bits {
        let f: u128 = two_to(over - p.mantissa_bits);
        assert(m * f <= 0x8010_0000_0000_0000 * 0x8000_0000_0000_0000) by (nonlinear_arith)
            requires
                m <= 0x8010_0000_0000_0000,
                f <= 0x8000_0000_0000_0000,
        ;
        m * f
    } else {
        let f: u128 = two_to(p.mantissa_bits - over);
        m / f
    };
    assert(n == whole_magnitude(*p));
    if n > 0x7fff_ffff_ffff_ffff {
        return if p.negative {
            i64::MIN
        } else {
            i64::MAX
        };
    }
    if p.negative {
        -(n as i64)
    } else {
        n as i64
    }
}

/// The whole part of a 64-bit float, given by its bits.
pub fn float8_to_i64(bits: u64) -> (r: i64)
    ensures
        r == whole_part(float8_parts(bits)),
{
    let p: FloatParts = FloatParts {
        negative: bits / 0x8000_0000_0000_0000 == 1,
        exponent: ((bits / 0x10_0000_0000_0000) % 0x800) as u32,
        mantissa: bits % 0x10_0000_0000_0000,
        mantissa_bits: 52,
        bias: 1023,
        top: 0x7ff,
    };
    truncate_parts(&p)
}

/// The whole part of a 32-bit float, given by its bits.
pub fn float4_to_i64(bits: u32) -> (r: i64)
    ensures
        r == whole_part(float4_parts(bits)),
{
    let p: FloatParts = FloatParts {
        negative: bits / 0x8000_0000 == 1,
        exponent: (bits / 0x80_0000) % 0x100,
        mantissa: (bits % 0x80_0000) as u64,
        mantissa_bits: 23,
        bias: 127,
        top: 0xff,
    };
    truncate_parts(&p)
}

/// A number with its sign turned round; the smallest one stays as it is.
pub open spec fn negated(n: i64) -> i64 {
    if n == i64::MIN {
        i64::MIN
    } else {
        (-n) as i64
    }
}

pub open spec fn parameter_out_of_range(index: usize) -> ErrorModel {
    ErrorModel::QueryExecution("Parameter $"@ + text::decimal(index as nat) + " out of range"@)
}

pub open spec fn not_an_integer_parameter(v: ValueModel) -> ErrorModel {
    ErrorModel::QueryExecution(
        "Expected integer parameter for table function, got "@ + debug_text::value_text(v),
    )
}

pub open spec fn not_a_literal_integer(e: ExprModel) -> ErrorModel {
    ErrorModel::QueryExecution(
        "Table function argument must be a literal integer, got "@ + tree_text::expr_text(e),
    )
}

/// The number that an argument of a table function is.
pub open spec fn arg_number(e: ExprModel, params: Seq<ValueModel>) -> Result<i64, ErrorModel>
    decreases e,
{
    match e {
        ExprModel::Literal(ValueModel::Int4(n)) => Ok(n as i64),
        ExprModel::Literal(ValueModel::Int8(n)) => Ok(n),
        ExprModel::Literal(ValueModel::Int2(n)) => Ok(n as i64),
        ExprModel::Literal(ValueModel::Float4(b)) => Ok(whole_part(float4_parts(b))),
        ExprModel::Literal(ValueModel::Float8(b)) => Ok(whole_part(float8_parts(b))),
        ExprModel::UnaryExpr { op: UnaryOperator::Minus, expr } => match arg_number(*expr, params) {
            Ok(n) => Ok(negated(n)),
            Err(err) => Err(err),
        },
        ExprModel::Parameter { index } => if index == 0 || index > params.len() {
            Err(parameter_out_of_range(index))
        } else {
            match params[index - 1] {
                ValueModel::Int4(n) => Ok(n as i64),
                ValueModel::Int8(n) => Ok(n),
                ValueModel::Int2(n) => Ok(n as i64),
                v => Err(not_an_integer_parameter(v)),
            }
        },
        _ => Err(not_a_literal_integer(e)),
    }
}

pub open spec fn number_result(r: Result<i64, Error>) -> Result<i64, ErrorModel> {
    match r {
        Ok(n) => Ok(n),
        Err(e) => Err(e@),
    }
}

/// The number that an argument of a table function is.
pub fn eval_table_function_arg(expr: &LogicalExpr, params: &Vec<Value>) -> (r: Result<i64, Error>)
    ensures
        number_result(r) == arg_number(expr@, value::values_model(params@)),
    decreases expr,
{
    match expr {
        LogicalExpr::Literal(Value::Int4(n)) => Ok(*n as i64),
        LogicalExpr::Literal(Value::Int8(n)) => Ok(*n),
        LogicalExpr::Literal(Value::Int2(n)) => Ok(*n as i64),
        LogicalExpr::Literal(Value::Float4(b)) => Ok(float4_to_i64(*b)),
        LogicalExpr::Literal(Value::Float8(b)) => Ok(float8_to_i64(*b)),
        LogicalExpr::UnaryExpr { op: UnaryOperator::Minus, expr: inner } => {
            match eval_table_function_arg(inner, params) {
                Ok(n) => if n == i64::MIN {
                    Ok(n)
                } else {
                    Ok(-n)
                },
                Err(e) => Err(e),
            }
        },
        LogicalExpr::Parameter { index } => {
            proof {
                value::lemma_values_model(params@);
            }
            if *index == 0 || *index > params.len() {
                return Err(
                    Error::query_execution(
                        text::concat_number("Parameter $", *index as u128, " out of range"),
                    ),
                );
            }
            match &params[*index - 1] {
                Value::Int4(n) => Ok(*n as i64),
                Value::Int8(n) => Ok(*n),
                Value::Int2(n) => Ok(*n as i64),
                v => {
                    let head: String =
                        "Expected integer parameter for table function, got ".to_owned();
                    Err(Error::query_execution(head.concat(debug_text::show_value(v).as_str())))
                },
            }
        },
        _ => {
            let head: String = "Table function argument must be a literal integer, got ".to_owned();
            Err(Error::query_execution(head.concat(tree_text::show_expr(expr).as_str())))
        },
    }
}

/// The column of a table function, under its alias where it has one.
pub open spec fn function_column(name: Seq<char>, alias: Option<Seq<char>>) -> ColumnModel {
    ColumnModel {
        nullable: false,
        source_table: Some(
            match alias {
                Some(a) => a,
                None => name,
            },
        ),
        source_table_name: Some(name),
        ..schema::plain_column(name, DataType::Int8)
    }
}

/// Builds the schema of a table function.
pub fn build_table_function_schema(col_name: &str, alias: &Option<String>) -> (r: Arc<Schema>)
    ensures
        r@ == seq![function_column(col_name@, schema::opt_text(*alias))],
{
    let source: String = match alias {
        Some(a) => a.clone(),
        None => col_name.to_owned(),
    };
    let mut columns: Vec<Column> = Vec::new();
    columns.push(
        Column {
            name: col_name.to_owned(),
            data_type: DataType::Int8,
            nullable: false,
            primary_key: false,
            source_table: Some(source),
            source_table_name: Some(col_name.to_owned()),
            default_expr: None,
            unique: false,
            storage_mode: ColumnStorageMode::Default,
        },
    );
    let r = Arc::new(Schema { columns });
    assert(r@ =~= seq![function_column(col_name@, schema::opt_text(*alias))]);
    r
}

pub open spec fn query_error(message: Seq<char>) -> ErrorModel {
    ErrorModel::QueryExecution(message)
}

/// The bounds and the step of a series.
pub open spec fn series_bounds(args: Seq<ExprModel>, params: Seq<ValueModel>) -> Result<
    (i64, i64, i64),
    ErrorModel,
> {
    if args.len() < 2 || args.len() > 3 {
        Err(
            query_error(
                "generate_series requires 2 or 3 arguments: generate_series(start, stop[, step])"@,
            ),
        )
    } else {
        match arg_number(args[0], params) {
            Err(e) => Err(e),
            Ok(start) => match arg_number(args[1], params) {
                Err(e) => Err(e),
                Ok(stop) => if args.len() == 2 {
                    Ok((start, stop, 1i64))
                } else {
                    match arg_number(args[2], params) {
                        Err(e) => Err(e),
                        Ok(step) => if step == 0 {
                            Err(query_error("generate_series step cannot be zero"@))
                        } else {
                            Ok((start, stop, step))
                        },
                    }
                },
            },
        }
    }
}

/// The items of the first `n` arguments of `unnest`.
pub open spec fn unnested(args: Seq<ExprModel>, n: nat) -> Result<Seq<ValueModel>, ErrorModel>
    decreases n,
{
    if n == 0 || n > args.len() {
        Ok(Seq::empty())
    } else {
        match unnested(args, (n - 1) as nat) {
            Err(e) => Err(e),
            Ok(s) => match args[n - 1] {
                ExprModel::Literal(ValueModel::Array(items)) => Ok(s + items),
                ExprModel::Literal(v) => Ok(s.push(v)),
                _ => Err(query_error("UNNEST argument must be an array expression"@)),
            },
        }
    }
}

/// The column and the rows of a table function.
pub open spec fn function_rows(
    name: Seq<char>,
    args: Seq<ExprModel>,
    alias: Option<Seq<char>>,
    params: Seq<ValueModel>,
) -> Result<(Seq<ColumnModel>, Seq<TupleModel>), ErrorModel> {
    if name == "generate_series"@ {
        match series_bounds(args, params) {
            Err(e) => Err(e),
            Ok(b) => Ok(
                (
                    seq![function_column(name, alias)],
                    scan::series(b.0 as int, b.1 as int, b.2 as int).map_values(
                        |n: int| scan::number_row(n),
                    ),
                ),
            ),
        }
    } else if name == "unnest"@ {
        if args.len() == 0 {
            Err(query_error("unnest requires at least one argument"@))
        } else {
            match unnested(args, args.len()) {
                Err(e) => Err(e),
                Ok(s) => Ok(
                    (
                        seq![function_column(name, alias)],
                        s.map_values(|v: ValueModel| scan::single_value_row(v)),
                    ),
                ),
            }
        }
    } else {
        Err(query_error("Unknown table function: "@ + name))
    }
}

fn collect_series_bounds(args: &Vec<LogicalExpr>, params: &Vec<Value>) -> (r: Result<
    (i64, i64, i64),
    Error,
>)
    ensures
        match r {
            Ok(b) => series_bounds(
                logical_plan::exprs_model(args@),
                value::values_model(params@),
            ) == Ok::<(i64, i64, i64), ErrorModel>(b),
            Err(e) => series_bounds(
                logical_plan::exprs_model(args@),
                value::values_model(params@),
            ) == Err::<(i64, i64, i64), ErrorModel>(e@),
        },
{
    let ghost am = logical_plan::exprs_model(args@);
    assert(am.len() == args.len());
    if args.len() < 2 || args.len() > 3 {
        return Err(
            Error::query_execution(
                "generate_series requires 2 or 3 arguments: generate_series(start, stop[, step])".to_owned(),
            ),
        );
    }
    assert(am[0] == args@[0]@);
    assert(am[1] == args@[1]@);
    let start: i64 = match eval_table_function_arg(&args[0], params) {
        Ok(n) => n,
        Err(e) => {
            return Err(e);
        },
    };
    let stop: i64 = match eval_table_function_arg(&args[1], params) {
        Ok(n) => n,
        Err(e) => {
            return Err(e);
        },
    };
    if args.len() == 2 {
        return Ok((start, stop, 1));
    }
    assert(am[2] == args@[2]@);
    match eval_table_function_arg(&args[2], params) {
        Ok(step) => if step == 0 {
            Err(Error::query_execution("generate_series step cannot be zero".to_owned()))
        } else {
            Ok((start, stop, step))
        },
        Err(e) => Err(e),
    }
}

proof fn lemma_unnested_stop(args: Seq<ExprModel>, n: nat, m: nat)
    requires
        unnested(args, n) is Err,
        n <= m <= args.len(),
    ensures
        unnested(args, m) == unnested(args, n),
    decreases m - n,
{
    if n < m {
        lemma_unnested_stop(args, n, (m - 1) as nat);
    }
}

pub open spec fn values_result(r: Result<Vec<Value>, Error>) -> Result<Seq<ValueModel>, ErrorModel> {
    match r {
        Ok(v) => Ok(value::values_model(v@)),
        Err(e) => Err(e@),
    }
}

fn collect_unnested(args: &Vec<LogicalExpr>) -> (r: Result<Vec<Value>, Error>)
    ensures
        values_result(r) == unnested(logical_plan::exprs_model(args@), args@.len()),
{
    let ghost am = logical_plan::exprs_model(args@);
    assert(am.len() == args.len());
    let mut out: Vec<Value> = Vec::new();
    assert(value::values_model(out@) =~= Seq::<ValueModel>::empty());
    let mut i: usize = 0;
    while i < args.len()
        invariant
            i <= args.len(),
            am == logical_plan::exprs_model(args@),
            am.len() == args.len(),
            unnested(am, i as nat) == Ok::<Seq<ValueModel>, ErrorModel>(
                value::values_model(out@),
            ),
        decreases args.len() - i,
    {
        assert(am[i as int] == args@[i as int]@);
        let ghost was = value::values_model(out@);
        match &args[i] {
            LogicalExpr::Literal(Value::Array(items)) => {
                let mut more: Vec<Value> = value::clone_values(items);
                let ghost mm = value::values_model(more@);
                let ghost ov = out@;
                let ghost mv = more@;
                out.append(&mut more);
                proof {
                    value::lemma_values_model(ov);
                    value::lemma_values_model(mv);
                    value::lemma_values_model(out@);
                }
                assert(value::values_model(out@) =~= was + mm);
            },
            LogicalExpr::Literal(v) => {
                let c: Value = v.clone();
                proof {
                    value::lemma_values_model_push(out@, c);
                }
                out.push(c);
            },
            _ => {
                proof {
                    lemma_unnested_stop(am, (i + 1) as nat, am.len());
                }
                return Err(
                    Error::query_execution(
                        "UNNEST argument must be an array expression".to_owned(),
                    ),
                );
            },
        }
        i = i + 1;
    }
    Ok(out)
}

/// Builds the operator of a table function.
pub fn handle_table_function(
    function_name: &str,
    args: &Vec<LogicalExpr>,
    alias: &Option<String>,
    params: &Vec<Value>,
) -> (r: Result<AnyOperator, Error>)
    ensures
        match r {
            Ok(op) => function_rows(
                function_name@,
                logical_plan::exprs_model(args@),
                schema::opt_text(*alias),
                value::values_model(params@),
            ) matches Ok(b) && op.ready() && op.columns() == b.0 && op.stream()
                == operator::just_rows(b.1) && op.limits() == Set::<u64>::empty(),
            Err(e) => function_rows(
                function_name@,
                logical_plan::exprs_model(args@),
                schema::opt_text(*alias),
                value::values_model(params@),
            ) == Err::<(Seq<ColumnModel>, Seq<TupleModel>), ErrorModel>(e@),
        },
{
    proof {
        logical_plan::lemma_exprs_model(args@);
    }
    if text::same_text(function_name, "generate_series") {
        let (start, stop, step): (i64, i64, i64) = match collect_series_bounds(args, params) {
            Ok(b) => b,
            Err(e) => {
                return Err(e);
            },
        };
        let schema: Arc<Schema> = build_table_function_schema("generate_series", alias);
        let op: GenerateSeriesOperator = GenerateSeriesOperator::new(start, stop, step, schema);
        return Ok(AnyOperator::of_series(op));
    }
    if text::same_text(function_name, "unnest") {
        if args.len() == 0 {
            return Err(
                Error::query_execution("unnest requires at least one argument".to_owned()),
            );
        }
        let values: Vec<Value> = match collect_unnested(args) {
            Ok(v) => v,
            Err(e) => {
                return Err(e);
            },
        };
        let schema: Arc<Schema> = build_table_function_schema("unnest", alias);
        let op: UnnestOperator = UnnestOperator::new(values, schema);
        return Ok(AnyOperator::of_unnest(op));
    }
    let head: String = "Unknown table function: ".to_owned();
    Err(Error::query_execution(head.concat(function_name)))
}

} // verus!
