//! Reading a table through an index gives the rows that reading all of it gives.

use crate::compare;
use crate::evaluator;
use crate::executor::filter;
use crate::executor::index_lookup;
use crate::executor::index_lookup::{Asked, IndexModel};
use crate::executor::operator;
use crate::executor::operator::RowStream;
use crate::executor::ordered_topk;
use crate::executor::ordered_topk::TopkQuery;
use crate::executor::sources;
use crate::executor::storage_view;
use crate::executor::storage_view::StoreModel;
use crate::logical_plan::{BinaryOperator, ExprModel};
use crate::schema;
use crate::schema::{ColumnModel, ErrorModel, TupleModel};
use crate::text;
use crate::text::Order;
use crate::value::{DataType, ValueModel};
use vstd::prelude::*;

verus! {

/// Whether a column of a type can hold a value: one of its own kind, or NULL.
pub open spec fn of_type(v: ValueModel, t: DataType) -> bool {
    v is Null || match t {
        DataType::Boolean => v is Boolean,
        DataType::Int2 => v is Int2,
        DataType::Int4 => v is Int4,
        DataType::Int8 => v is Int8,
        DataType::Float4 => v is Float4,
        DataType::Float8 => v is Float8,
        DataType::Numeric => v is Numeric,
        DataType::Text => v is String,
        DataType::Varchar(_) => v is String,
        DataType::Char(_) => v is String,
        DataType::Bytea => v is Bytes,
        DataType::Uuid => v is Uuid,
        DataType::Date => v is Date,
        DataType::Time => v is Time,
        DataType::Timestamp => v is Timestamp,
        DataType::Timestamptz => v is Timestamp,
        DataType::Interval => v is Interval,
        DataType::Json => v is Json,
        DataType::Jsonb => v is Json,
        DataType::Vector(_) => v is Vector,
        DataType::Array(_) => v is Array,
    }
}

/// Whether a value and the number that a constant is compared with it as are zeros
/// of different sign: they are equal, and have different keys.
pub open spec fn mixed_zeros(a: ValueModel, b: ValueModel) -> bool {
    match a {
        ValueModel::Float4(x) => index_lookup::float4_given(b) matches Some(y) && x != y
            && compare::float4_rank(x) == 0 && compare::float4_rank(y) == 0,
        ValueModel::Float8(x) => index_lookup::float8_given(b) matches Some(y) && x != y
            && compare::float8_rank(x) == 0 && compare::float8_rank(y) == 0,
        _ => false,
    }
}

/// Whether a predicate compares a column with a constant.
pub open spec fn meets(
    e: ExprModel,
    cols: Seq<ColumnModel>,
    params: Seq<ValueModel>,
    c: usize,
    v: ValueModel,
) -> bool
    decreases e,
{
    match e {
        ExprModel::BinaryExpr { left, op, right } => if op == BinaryOperator::And {
            meets(*left, cols, params, c, v) || meets(*right, cols, params, c, v)
        } else {
            (index_lookup::column_of(*left, cols) == Some(c) && index_lookup::constant(
                *right,
                params,
            ) == Some(v)) || (index_lookup::column_of(*right, cols) == Some(c)
                && index_lookup::constant(*left, params) == Some(v))
        },
        ExprModel::Between { expr, low, high, negated } => index_lookup::column_of(*expr, cols)
            == Some(c) && (index_lookup::constant(*low, params) == Some(v)
            || index_lookup::constant(*high, params) == Some(v)),
        _ => false,
    }
}

/// Whether a row is one of a table: it has a value of the right kind for every
/// column, and no zero that the predicate compares with a zero of other sign.
pub open spec fn fits(
    row: TupleModel,
    cols: Seq<ColumnModel>,
    predicate: ExprModel,
    params: Seq<ValueModel>,
) -> bool {
    &&& row.row_id is Some
    &&& cols.len() <= row.values.len()
    &&& forall|i: int|
        0 <= i < cols.len() ==> of_type(#[trigger] row.values[i], cols[i].data_type)
    &&& forall|c: usize, v: ValueModel|
        c < cols.len() && #[trigger] meets(predicate, cols, params, c, v) ==> !mixed_zeros(
            row.values[c as int],
            v,
        )
}

/// Whether the columns have different names.
pub open spec fn names_differ(cols: Seq<ColumnModel>) -> bool {
    cols.len() <= usize::MAX && forall|i: int, j: int|
        0 <= i < j < cols.len() ==> (#[trigger] cols[i]).name != (#[trigger] cols[j]).name
}

/// Whether rows have different numbers.
pub open spec fn numbers_differ(rows: Seq<TupleModel>) -> bool {
    forall|i: int, j: int|
        0 <= i < j < rows.len() ==> (#[trigger] rows[i]).row_id != (#[trigger] rows[j]).row_id
}

/// Whether the indexes on the columns of a table have an entry for each row.
pub open spec fn indexes_are_full(s: StoreModel, table: Seq<char>, cols: Seq<ColumnModel>) -> bool {
    forall|c: int, row: TupleModel|
        0 <= c < cols.len() && #[trigger] sources::rows_of_table(s.tables, table).contains(row)
            && #[trigger] index_lookup::index_on(s.indexes, table, cols[c].name, 0) is Some
            ==> sources::known_entries(
            s,
            index_lookup::index_on(s.indexes, table, cols[c].name, 0)->Some_0,
        ).contains((row.values[c], row.row_id->Some_0))
}

proof fn lemma_resolved_name(s: Seq<ColumnModel>, table: Option<Seq<char>>, name: Seq<char>)
    requires
        s.len() <= usize::MAX,
    ensures
        schema::qualified_index(s, table, name) matches Some(i) ==> i < s.len() && s[i as int].name
            == name,
        schema::column_index(s, name) matches Some(i) ==> i < s.len() && s[i as int].name == name,
{
    schema::lemma_find_named(s, name, 0);
    if let Some(t) = table {
        schema::lemma_find_aliased(s, t, name, 0);
        schema::lemma_find_tabled(s, t, name, 0);
    }
}

/// A column that the index looks at is the one that the evaluator reads.
proof fn lemma_same_column(
    e: ExprModel,
    cols: Seq<ColumnModel>,
    source: Seq<char>,
    table: Seq<char>,
    params: Seq<ValueModel>,
    row: Seq<ValueModel>,
)
    requires
        names_differ(cols),
    ensures
        index_lookup::column_of(e, cols) matches Some(c) ==> c < cols.len() && (evaluator::eval(
            e,
            sources::sourced(cols, source, table),
            params,
            row,
        ) matches Ok(x) ==> c < row.len() && x == row[c as int]),
{
    if let ExprModel::Column { table: q, name } = e {
        let shown = sources::sourced(cols, source, table);
        lemma_resolved_name(cols, q, name);
        lemma_resolved_name(shown, q, name);
        if let Some(c) = index_lookup::column_of(e, cols) {
            if let Some(i) = schema::qualified_index(shown, q, name) {
                assert(shown[i as int].name == cols[i as int].name);
                if i < c {
                    assert(cols[i as int].name != cols[c as int].name);
                }
                if c < i {
                    assert(cols[c as int].name != cols[i as int].name);
                }
            }
        }
    }
}

/// A constant that the index looks up is the one that the evaluator reads.
proof fn lemma_same_constant(
    e: ExprModel,
    cols: Seq<ColumnModel>,
    params: Seq<ValueModel>,
    row: Seq<ValueModel>,
)
    ensures
        index_lookup::constant(e, params) matches Some(v) ==> (evaluator::eval(e, cols, params, row)
            matches Ok(x) ==> x == v),
{
}

proof fn lemma_int_lex(a: int, b: int, k: int)
    ensures
        text::lex_order(seq![k] + seq![a], seq![k] + seq![b]) == text::int_order(a, b),
{
    reveal_with_fuel(text::lex_order, 4);
    let x = seq![k] + seq![a];
    let y = seq![k] + seq![b];
    assert(x.drop_first() =~= seq![a]);
    assert(y.drop_first() =~= seq![b]);
}

proof fn lemma_tail_lex(a: Seq<int>, b: Seq<int>, k: int)
    ensures
        text::lex_order(seq![k] + a, seq![k] + b) == text::lex_order(a, b),
{
    let x = seq![k] + a;
    let y = seq![k] + b;
    assert(x.drop_first() =~= a);
    assert(y.drop_first() =~= b);
}

/// Values that are equal to a constant have the key that the constant is looked
/// up under.
proof fn lemma_equal_key(x: ValueModel, v: ValueModel, t: DataType)
    requires
        of_type(x, t),
        !mixed_zeros(x, v),
        compare::direct_order(x, v) == Some(Order::Equal),
    ensures
        index_lookup::coerced(v, t, index_lookup::spelled_by(v)) matches Some(k) ==> k == x,
{
    match (x, v) {
        (ValueModel::String(a), ValueModel::String(b)) => {
            text::lemma_lex_equal(text::codes(a), text::codes(b));
            text::lemma_codes_injective(a, b);
        },
        _ => {},
    }
}

/// Values stand to a constant as their keys stand to the one that the constant
/// is looked up under.
proof fn lemma_ordered_key(x: ValueModel, v: ValueModel, t: DataType)
    requires
        of_type(x, t),
        !(x is Null),
        !mixed_zeros(x, v),
        index_lookup::ordered_type(t),
        compare::direct_order(x, v) is Some,
    ensures
        index_lookup::coerced(v, t, index_lookup::spelled_by(v)) matches Some(k) ==> Some(
            index_lookup::key_order(x, k),
        ) == compare::direct_order(x, v),
{
    if let Some(k) = index_lookup::coerced(v, t, index_lookup::spelled_by(v)) {
        match (x, v) {
            (ValueModel::String(a), ValueModel::String(b)) => {
                lemma_tail_lex(text::codes(a), text::codes(b), 3);
            },
            (ValueModel::Float4(a), _) => {
                let b = index_lookup::float4_given(v)->Some_0;
                lemma_int_lex(index_lookup::float4_key(a), index_lookup::float4_key(b), 1);
            },
            (ValueModel::Float8(a), _) => {
                let b = index_lookup::float8_given(v)->Some_0;
                lemma_int_lex(index_lookup::float8_key(a), index_lookup::float8_key(b), 2);
            },
            _ => {
                if let (Some(n), Some(m)) = (compare::int_value(x), compare::int_value(v)) {
                    lemma_int_lex(n as int, m as int, 0);
                }
            },
        }
    }
}

/// A row on which a predicate is true has the value that the predicate is looked
/// up under.
proof fn lemma_point_value(
    e: ExprModel,
    cols: Seq<ColumnModel>,
    source: Seq<char>,
    table: Seq<char>,
    params: Seq<ValueModel>,
    indexes: Seq<IndexModel>,
    row: TupleModel,
) -> (c: int)
    requires
        names_differ(cols),
        fits(row, cols, e, params),
        evaluator::eval(e, sources::sourced(cols, source, table), params, row.values) == Ok::<
            ValueModel,
            ErrorModel,
        >(ValueModel::Boolean(true)),
        index_lookup::index_point(e, cols, params, indexes, table) is Some,
    ensures
        ({
            let p = index_lookup::index_point(e, cols, params, indexes, table)->Some_0;
            &&& 0 <= c < cols.len()
            &&& index_lookup::index_on(indexes, table, cols[c].name, 0) == Some(p.0)
            &&& row.values[c] == p.1
        }),
    decreases e,
{
    let shown = sources::sourced(cols, source, table);
    if let ExprModel::BinaryExpr { left, op, right } = e {
        if op == BinaryOperator::And {
            lemma_fits_the_sides(*left, *right, cols, params, row);
            if index_lookup::index_point(*left, cols, params, indexes, table) is Some {
                lemma_point_value(*left, cols, source, table, params, indexes, row)
            } else {
                lemma_point_value(*right, cols, source, table, params, indexes, row)
            }
        } else {
            lemma_same_column(*left, cols, source, table, params, row.values);
            lemma_same_column(*right, cols, source, table, params, row.values);
            lemma_same_constant(*left, shown, params, row.values);
            lemma_same_constant(*right, shown, params, row.values);
            let a = evaluator::eval(*left, shown, params, row.values)->Ok_0;
            let b = evaluator::eval(*right, shown, params, row.values)->Ok_0;
            if index_lookup::equality_point(*left, *right, cols, params, indexes, table) is Some {
                let c = index_lookup::column_of(*left, cols)->Some_0;
                assert(meets(e, cols, params, c, b));
                lemma_equal_key(a, b, cols[c as int].data_type);
                c as int
            } else {
                let c = index_lookup::column_of(*right, cols)->Some_0;
                assert(meets(e, cols, params, c, a));
                compare::law_direct_order_is_antisymmetric(a, b);
                lemma_equal_key(b, a, cols[c as int].data_type);
                c as int
            }
        }
    } else {
        0
    }
}

proof fn lemma_entry_gives_id(entries: Seq<(ValueModel, u64)>, key: ValueModel, id: u64)
    requires
        entries.contains((key, id)),
    ensures
        storage_view::ids_at(entries, key).contains(id),
    decreases entries.len(),
{
    let i = choose|i: int| 0 <= i < entries.len() && entries[i] == (key, id);
    let ids = storage_view::ids_at(entries, key);
    let before = storage_view::ids_at(entries.drop_last(), key);
    if i == entries.len() - 1 {
        assert(ids[ids.len() - 1] == id);
    } else {
        assert(entries.drop_last()[i] == (key, id));
        lemma_entry_gives_id(entries.drop_last(), key, id);
        let k = choose|k: int| 0 <= k < before.len() && before[k] == id;
        assert(ids[k] == id);
    }
}

proof fn lemma_entry_within(
    entries: Seq<(ValueModel, u64)>,
    lower: Option<index_lookup::RangeBoundModel>,
    upper: Option<index_lookup::RangeBoundModel>,
    key: ValueModel,
    id: u64,
)
    requires
        entries.contains((key, id)),
        storage_view::behind_lower(key, lower),
        storage_view::before_upper(key, upper),
    ensures
        storage_view::ids_within(entries, lower, upper).contains(id),
    decreases entries.len(),
{
    let i = choose|i: int| 0 <= i < entries.len() && entries[i] == (key, id);
    let ids = storage_view::ids_within(entries, lower, upper);
    let before = storage_view::ids_within(entries.drop_last(), lower, upper);
    if i == entries.len() - 1 {
        assert(ids[ids.len() - 1] == id);
    } else {
        assert(entries.drop_last()[i] == (key, id));
        lemma_entry_within(entries.drop_last(), lower, upper, key, id);
        let k = choose|k: int| 0 <= k < before.len() && before[k] == id;
        assert(ids[k] == id);
    }
}

proof fn lemma_row_of_id(rows: Seq<TupleModel>, at: int, from: int)
    requires
        numbers_differ(rows),
        0 <= from <= at < rows.len(),
        rows[at].row_id is Some,
    ensures
        storage_view::row_with_id(rows, rows[at].row_id->Some_0, from) == Some(rows[at]),
    decreases at - from,
{
    if from < at {
        assert(rows[from].row_id != rows[at].row_id);
        lemma_row_of_id(rows, at, from + 1);
    }
}

pub proof fn lemma_fetched(rows: Seq<TupleModel>, ids: Seq<u64>, row: TupleModel)
    requires
        numbers_differ(rows),
        rows.contains(row),
        row.row_id is Some,
        ids.contains(row.row_id->Some_0),
    ensures
        storage_view::rows_with_ids(rows, ids).contains(row),
    decreases ids.len(),
{
    let id = row.row_id->Some_0;
    let at = choose|i: int| 0 <= i < rows.len() && rows[i] == row;
    let k = choose|k: int| 0 <= k < ids.len() && ids[k] == id;
    let out = storage_view::rows_with_ids(rows, ids);
    let before = storage_view::rows_with_ids(rows, ids.drop_last());
    if k == ids.len() - 1 {
        lemma_row_of_id(rows, at, 0);
        assert(out[out.len() - 1] == row);
    } else {
        assert(ids.drop_last()[k] == id);
        lemma_fetched(rows, ids.drop_last(), row);
        let j = choose|j: int| 0 <= j < before.len() && before[j] == row;
        assert(out[j] == row);
    }
}

proof fn lemma_true_rows_are_kept(
    s: RowStream,
    predicate: ExprModel,
    cols: Seq<ColumnModel>,
    params: Seq<ValueModel>,
    row: TupleModel,
)
    requires
        s.rows.contains(row),
        filter::filtered(s, predicate, cols, params).end is None,
        evaluator::eval(predicate, cols, params, row.values) == Ok::<ValueModel, ErrorModel>(
            ValueModel::Boolean(true),
        ),
    ensures
        filter::filtered(s, predicate, cols, params).rows.contains(row),
    decreases s.rows.len(),
{
    let i = choose|i: int| 0 <= i < s.rows.len() && s.rows[i] == row;
    let out = filter::filtered(s, predicate, cols, params);
    let rest = filter::filtered(s.rest(), predicate, cols, params);
    if i == 0 {
        assert(out.rows[0] == row);
    } else {
        assert(s.rest().rows[i - 1] == row);
        lemma_true_rows_are_kept(s.rest(), predicate, cols, params, row);
        let k = choose|k: int| 0 <= k < rest.rows.len() && rest.rows[k] == row;
        if filter::keeps(evaluator::eval(predicate, cols, params, s.rows[0].values)) == Ok::<
            bool,
            ErrorModel,
        >(true) {
            assert(out.rows[k + 1] == row);
        } else {
            assert(out.rows[k] == row);
        }
    }
}

/// A row of a table on which a predicate is true is among those that looking up
/// a single value gives, where the indexes have an entry for each row.
pub proof fn law_a_point_lookup_misses_no_row(
    s: StoreModel,
    params: Seq<ValueModel>,
    table: Seq<char>,
    alias: Option<Seq<char>>,
    cols: Seq<ColumnModel>,
    predicate: ExprModel,
    row: TupleModel,
)
    requires
        names_differ(cols),
        numbers_differ(sources::rows_of_table(s.tables, table)),
        indexes_are_full(s, table, cols),
        sources::rows_of_table(s.tables, table).contains(row),
        fits(row, cols, predicate, params),
        evaluator::eval(
            predicate,
            sources::sourced(cols, sources::source_name(alias, table), table),
            params,
            row.values,
        ) == Ok::<ValueModel, ErrorModel>(ValueModel::Boolean(true)),
    ensures
        sources::point_rows(s, params, table, alias, cols, predicate) matches Ok(Some(out))
            ==> out.contains(row),
{
    if let Ok(Some(out)) = sources::point_rows(s, params, table, alias, cols, predicate) {
        let source = sources::source_name(alias, table);
        let rows = sources::rows_of_table(s.tables, table);
        let c = lemma_point_value(predicate, cols, source, table, params, s.indexes, row);
        let p = index_lookup::index_point(predicate, cols, params, s.indexes, table)->Some_0;
        let entries = sources::known_entries(s, p.0);
        assert(entries.contains((row.values[c], row.row_id->Some_0)));
        lemma_entry_gives_id(entries, p.1, row.row_id->Some_0);
        let ids = storage_view::ids_at(entries, p.1);
        lemma_fetched(rows, ids, row);
        lemma_true_rows_are_kept(
            operator::just_rows(storage_view::rows_with_ids(rows, ids)),
            predicate,
            sources::sourced(cols, source, table),
            params,
            row,
        );
    }
}

/// Whether a value satisfies what is asked of its column.
pub open spec fn satisfies(x: ValueModel, a: Asked) -> bool {
    match compare::direct_order(x, a.bound.0) {
        Some(o) => match o {
            Order::Equal => a.bound.1,
            Order::Greater => a.is_lower,
            Order::Less => !a.is_lower,
        },
        None => false,
    }
}

/// Whether a row satisfies everything that is asked of its columns.
spec fn all_satisfied(
    asked: Seq<Asked>,
    cols: Seq<ColumnModel>,
    row: Seq<ValueModel>,
) -> bool {
    forall|i: int, c: int|
        0 <= i < asked.len() && 0 <= c < cols.len() && (#[trigger] asked[i]).column == (
        #[trigger] cols[c]).name ==> satisfies(row[c], asked[i]) && !mixed_zeros(
            row[c],
            asked[i].bound.0,
        )
}

proof fn lemma_asked_of_column(
    e: ExprModel,
    cols: Seq<ColumnModel>,
    params: Seq<ValueModel>,
    row: TupleModel,
    c: usize,
    a: Asked,
)
    requires
        names_differ(cols),
        fits(row, cols, e, params),
        c < cols.len(),
        a.column == cols[c as int].name,
        meets(e, cols, params, c, a.bound.0),
        satisfies(row.values[c as int], a),
    ensures
        forall|d: int|
            0 <= d < cols.len() && a.column == (#[trigger] cols[d]).name ==> satisfies(
                row.values[d],
                a,
            ) && !mixed_zeros(row.values[d], a.bound.0),
{
    assert forall|d: int| 0 <= d < cols.len() && a.column == (#[trigger] cols[d]).name implies
        satisfies(row.values[d], a) && !mixed_zeros(row.values[d], a.bound.0) by {
        if d < c {
            assert(cols[d].name != cols[c as int].name);
        }
        if c < d {
            assert(cols[c as int].name != cols[d].name);
        }
    }
}

proof fn lemma_comparison_is_satisfied(
    e: ExprModel,
    cols: Seq<ColumnModel>,
    source: Seq<char>,
    table: Seq<char>,
    params: Seq<ValueModel>,
    row: TupleModel,
)
    requires
        names_differ(cols),
        fits(row, cols, e, params),
        evaluator::eval(e, sources::sourced(cols, source, table), params, row.values) == Ok::<
            ValueModel,
            ErrorModel,
        >(ValueModel::Boolean(true)),
        e is BinaryExpr,
        e->BinaryExpr_op != BinaryOperator::And,
    ensures
        all_satisfied(index_lookup::term_asks(e, cols, params), cols, row.values),
{
    let shown = sources::sourced(cols, source, table);
    let asked = index_lookup::term_asks(e, cols, params);
    let left = e->BinaryExpr_left;
    let right = e->BinaryExpr_right;
    lemma_same_column(*left, cols, source, table, params, row.values);
    lemma_same_column(*right, cols, source, table, params, row.values);
    lemma_same_constant(*left, shown, params, row.values);
    lemma_same_constant(*right, shown, params, row.values);
    let a = evaluator::eval(*left, shown, params, row.values)->Ok_0;
    let b = evaluator::eval(*right, shown, params, row.values)->Ok_0;
    compare::law_direct_order_is_antisymmetric(a, b);
    if asked.len() > 0 {
        let c = match index_lookup::column_of(*left, cols) {
            Some(c) => c,
            None => index_lookup::column_of(*right, cols)->Some_0,
        };
        assert(asked.len() == 1);
        lemma_asked_of_column(e, cols, params, row, c, asked[0]);
    }
}

proof fn lemma_between_sides(v: ValueModel, lo: ValueModel, hi: ValueModel)
    requires
        evaluator::binary_value(v, BinaryOperator::GtEq, lo) is Ok,
        evaluator::and_value(
            evaluator::binary_value(v, BinaryOperator::GtEq, lo)->Ok_0,
            evaluator::binary_value(v, BinaryOperator::LtEq, hi),
        ) == Ok::<ValueModel, ErrorModel>(ValueModel::Boolean(true)),
    ensures
        compare::direct_order(v, lo) matches Some(o) && o != Order::Less,
        compare::direct_order(v, hi) matches Some(o) && o != Order::Greater,
{
}

proof fn lemma_true_between(
    e: ExprModel,
    cols: Seq<ColumnModel>,
    params: Seq<ValueModel>,
    row: Seq<ValueModel>,
)
    requires
        evaluator::eval(e, cols, params, row) == Ok::<ValueModel, ErrorModel>(
            ValueModel::Boolean(true),
        ),
        e is Between,
        !e->Between_negated,
    ensures
        ({
            let v = evaluator::eval(*e->Between_expr, cols, params, row);
            let lo = evaluator::eval(*e->Between_low, cols, params, row);
            let hi = evaluator::eval(*e->Between_high, cols, params, row);
            &&& v is Ok && lo is Ok && hi is Ok
            &&& compare::direct_order(v->Ok_0, lo->Ok_0) matches Some(o) && o != Order::Less
            &&& compare::direct_order(v->Ok_0, hi->Ok_0) matches Some(o) && o != Order::Greater
        }),
{
    let v = evaluator::eval(*e->Between_expr, cols, params, row);
    let lo = evaluator::eval(*e->Between_low, cols, params, row);
    let hi = evaluator::eval(*e->Between_high, cols, params, row);
    lemma_between_sides(v->Ok_0, lo->Ok_0, hi->Ok_0);
}

proof fn lemma_between_is_satisfied(
    e: ExprModel,
    cols: Seq<ColumnModel>,
    source: Seq<char>,
    table: Seq<char>,
    params: Seq<ValueModel>,
    row: TupleModel,
)
    requires
        names_differ(cols),
        fits(row, cols, e, params),
        evaluator::eval(e, sources::sourced(cols, source, table), params, row.values) == Ok::<
            ValueModel,
            ErrorModel,
        >(ValueModel::Boolean(true)),
        e is Between,
    ensures
        all_satisfied(index_lookup::term_asks(e, cols, params), cols, row.values),
{
    let shown = sources::sourced(cols, source, table);
    let asked = index_lookup::term_asks(e, cols, params);
    let expr = e->Between_expr;
    let low = e->Between_low;
    let high = e->Between_high;
    lemma_same_column(*expr, cols, source, table, params, row.values);
    lemma_same_constant(*low, shown, params, row.values);
    lemma_same_constant(*high, shown, params, row.values);
    if asked.len() > 0 {
        lemma_true_between(e, shown, params, row.values);
        let c = index_lookup::column_of(*expr, cols)->Some_0;
        lemma_two_bounds(
            e,
            cols,
            params,
            row,
            c,
            index_lookup::constant(*low, params)->Some_0,
            index_lookup::constant(*high, params)->Some_0,
        );
    }
}

proof fn lemma_two_bounds(
    e: ExprModel,
    cols: Seq<ColumnModel>,
    params: Seq<ValueModel>,
    row: TupleModel,
    c: usize,
    lo: ValueModel,
    hi: ValueModel,
)
    requires
        names_differ(cols),
        fits(row, cols, e, params),
        e is Between,
        !e->Between_negated,
        c < cols.len(),
        index_lookup::column_of(*e->Between_expr, cols) == Some(c),
        index_lookup::constant(*e->Between_low, params) == Some(lo),
        index_lookup::constant(*e->Between_high, params) == Some(hi),
        compare::direct_order(row.values[c as int], lo) matches Some(o) && o != Order::Less,
        compare::direct_order(row.values[c as int], hi) matches Some(o) && o != Order::Greater,
    ensures
        all_satisfied(index_lookup::term_asks(e, cols, params), cols, row.values),
{
    let asked = index_lookup::term_asks(e, cols, params);
    if asked.len() > 0 {
        assert(asked.len() == 2);
        lemma_asked_of_column(e, cols, params, row, c, asked[0]);
        lemma_asked_of_column(e, cols, params, row, c, asked[1]);
    }
}

proof fn lemma_fits_the_sides(
    left: ExprModel,
    right: ExprModel,
    cols: Seq<ColumnModel>,
    params: Seq<ValueModel>,
    row: TupleModel,
)
    requires
        fits(
            row,
            cols,
            ExprModel::BinaryExpr {
                left: Box::new(left),
                op: BinaryOperator::And,
                right: Box::new(right),
            },
            params,
        ),
    ensures
        fits(row, cols, left, params),
        fits(row, cols, right, params),
{
    let e = ExprModel::BinaryExpr {
        left: Box::new(left),
        op: BinaryOperator::And,
        right: Box::new(right),
    };
    assert forall|c: usize, v: ValueModel|
        c < cols.len() && #[trigger] meets(left, cols, params, c, v) implies !mixed_zeros(
        row.values[c as int],
        v,
    ) by {
        assert(meets(e, cols, params, c, v));
    }
    assert forall|c: usize, v: ValueModel|
        c < cols.len() && #[trigger] meets(right, cols, params, c, v) implies !mixed_zeros(
        row.values[c as int],
        v,
    ) by {
        assert(meets(e, cols, params, c, v));
    }
}

proof fn lemma_both_satisfied(
    l: Seq<Asked>,
    r: Seq<Asked>,
    cols: Seq<ColumnModel>,
    row: Seq<ValueModel>,
)
    requires
        all_satisfied(l, cols, row),
        all_satisfied(r, cols, row),
    ensures
        all_satisfied(l + r, cols, row),
{
    let asked = l + r;
    assert forall|i: int, c: int|
        0 <= i < asked.len() && 0 <= c < cols.len() && (#[trigger] asked[i]).column == (
        #[trigger] cols[c]).name implies satisfies(row[c], asked[i]) && !mixed_zeros(
        row[c],
        asked[i].bound.0,
    ) by {
        if i < l.len() {
            assert(asked[i] == l[i]);
        } else {
            assert(asked[i] == r[i - l.len()]);
        }
    }
}

/// A row on which a predicate is true satisfies everything that the predicate
/// asks of its columns.
proof fn lemma_asked_is_satisfied(
    e: ExprModel,
    cols: Seq<ColumnModel>,
    source: Seq<char>,
    table: Seq<char>,
    params: Seq<ValueModel>,
    row: TupleModel,
)
    requires
        names_differ(cols),
        fits(row, cols, e, params),
        evaluator::eval(e, sources::sourced(cols, source, table), params, row.values) == Ok::<
            ValueModel,
            ErrorModel,
        >(ValueModel::Boolean(true)),
    ensures
        all_satisfied(index_lookup::predicate_asks(e, cols, params), cols, row.values),
    decreases e,
{
    match e {
        ExprModel::BinaryExpr { left, op, right } => {
            if op == BinaryOperator::And {
                lemma_fits_the_sides(*left, *right, cols, params, row);
                lemma_asked_is_satisfied(*left, cols, source, table, params, row);
                lemma_asked_is_satisfied(*right, cols, source, table, params, row);
                lemma_both_satisfied(
                    index_lookup::predicate_asks(*left, cols, params),
                    index_lookup::predicate_asks(*right, cols, params),
                    cols,
                    row.values,
                );
            } else {
                lemma_comparison_is_satisfied(e, cols, source, table, params, row);
            }
        },
        ExprModel::Between { .. } => {
            lemma_between_is_satisfied(e, cols, source, table, params, row);
        },
        _ => {},
    }
}

/// A value that satisfies everything that is asked lies within the bounds.
proof fn lemma_within_side(
    asked: Seq<Asked>,
    cols: Seq<ColumnModel>,
    row: Seq<ValueModel>,
    c: int,
    is_lower: bool,
)
    requires
        0 <= c < cols.len(),
        cols.len() <= row.len(),
        of_type(row[c], cols[c].data_type),
        index_lookup::ordered_type(cols[c].data_type),
        all_satisfied(asked, cols, row),
    ensures
        index_lookup::side_bounds(asked, cols[c].name, cols[c].data_type, is_lower) matches Some(s)
            ==> (forall|i: int|
            0 <= i < s.len() ==> index_lookup::within(row[c], #[trigger] s[i], is_lower)) && (
        s.len() > 0 ==> !(row[c] is Null)),
    decreases asked.len(),
{
    if asked.len() > 0 {
        let short = asked.drop_last();
        let a = asked.last();
        assert(asked[asked.len() - 1] == a);
        assert forall|i: int, d: int|
            0 <= i < short.len() && 0 <= d < cols.len() && (#[trigger] short[i]).column == (
            #[trigger] cols[d]).name implies satisfies(row[d], short[i]) && !mixed_zeros(
            row[d],
            short[i].bound.0,
        ) by {
            assert(short[i] == asked[i]);
        }
        lemma_within_side(short, cols, row, c, is_lower);
        let t = cols[c].data_type;
        if a.column == cols[c].name && a.is_lower == is_lower {
            assert(satisfies(row[c], a));
            lemma_ordered_key(row[c], a.bound.0, t);
            if let Some(s) = index_lookup::side_bounds(asked, cols[c].name, t, is_lower) {
                let before = index_lookup::side_bounds(short, cols[c].name, t, is_lower)->Some_0;
                let v = index_lookup::coerced(
                    a.bound.0,
                    t,
                    index_lookup::spelled_by(a.bound.0),
                )->Some_0;
                assert(s =~= before.push((v, a.bound.1)));
                assert(index_lookup::within(row[c], (v, a.bound.1), is_lower));
                assert forall|i: int| 0 <= i < s.len() implies index_lookup::within(
                    row[c],
                    #[trigger] s[i],
                    is_lower,
                ) by {
                    if i < before.len() {
                        assert(s[i] == before[i]);
                    }
                }
            }
        }
    }
}

proof fn lemma_range_column(
    asked: Seq<Asked>,
    cols: Seq<ColumnModel>,
    indexes: Seq<IndexModel>,
    table: Seq<char>,
    from: int,
) -> (c: int)
    requires
        0 <= from,
        index_lookup::first_range(asked, cols, indexes, table, from) is Some,
    ensures
        0 <= c < cols.len(),
        index_lookup::column_range(
            asked,
            cols[c],
            index_lookup::index_on(indexes, table, cols[c].name, 0),
        ) == index_lookup::first_range(asked, cols, indexes, table, from),
    decreases cols.len() - from,
{
    if index_lookup::column_range(
        asked,
        cols[from],
        index_lookup::index_on(indexes, table, cols[from].name, 0),
    ) is Some {
        from
    } else {
        lemma_range_column(asked, cols, indexes, table, from + 1)
    }
}

/// A row of a table on which a predicate is true is among those that reading a
/// range of an index gives, where the indexes have an entry for each row.
pub proof fn law_a_range_scan_misses_no_row(
    s: StoreModel,
    params: Seq<ValueModel>,
    table: Seq<char>,
    alias: Option<Seq<char>>,
    cols: Seq<ColumnModel>,
    predicate: ExprModel,
    row: TupleModel,
)
    requires
        names_differ(cols),
        numbers_differ(sources::rows_of_table(s.tables, table)),
        indexes_are_full(s, table, cols),
        sources::rows_of_table(s.tables, table).contains(row),
        fits(row, cols, predicate, params),
        evaluator::eval(
            predicate,
            sources::sourced(cols, sources::source_name(alias, table), table),
            params,
            row.values,
        ) == Ok::<ValueModel, ErrorModel>(ValueModel::Boolean(true)),
    ensures
        index_lookup::index_range(predicate, cols, params, s.indexes, table) matches Some(range)
            ==> (sources::range_rows(s, params, table, alias, cols, range, predicate) matches Ok(
            Some(out),
        ) ==> out.contains(row)),
{
    if let Some(range) = index_lookup::index_range(predicate, cols, params, s.indexes, table) {
        if let Ok(Some(out)) = sources::range_rows(
            s,
            params,
            table,
            alias,
            cols,
            range,
            predicate,
        ) {
            let source = sources::source_name(alias, table);
            let rows = sources::rows_of_table(s.tables, table);
            let asked = index_lookup::predicate_asks(predicate, cols, params);
            lemma_asked_is_satisfied(predicate, cols, source, table, params, row);
            let c = lemma_range_column(asked, cols, s.indexes, table, 0);
            let t = cols[c].data_type;
            let x = row.values[c];
            lemma_within_side(asked, cols, row.values, c, true);
            lemma_within_side(asked, cols, row.values, c, false);
            let lowers = index_lookup::side_bounds(asked, cols[c].name, t, true)->Some_0;
            let uppers = index_lookup::side_bounds(asked, cols[c].name, t, false)->Some_0;
            index_lookup::law_tightest_bound_is_all_of_them(lowers, true, x);
            index_lookup::law_tightest_bound_is_all_of_them(uppers, false, x);
            assert(!(x is Null));
            assert(storage_view::behind_lower(x, range.lower));
            assert(storage_view::before_upper(x, range.upper));
            let entries = sources::known_entries(s, range.index_name);
            let id = row.row_id->Some_0;
            assert(entries.contains((x, id)));
            lemma_entry_within(entries, range.lower, range.upper, x, id);
            let ids = storage_view::ids_within(entries, range.lower, range.upper);
            storage_view::law_ascending_is_a_sort(ids);
            let sorted = storage_view::ascending(ids);
            assert(sorted.contains(id)) by {
                broadcast use vstd::seq_lib::group_to_multiset_ensures;

                assert(ids.to_multiset().count(id) > 0);
                assert(sorted.to_multiset().count(id) > 0);
            }
            lemma_fetched(rows, sorted, row);
            lemma_true_rows_are_kept(
                operator::just_rows(storage_view::rows_with_ids(rows, sorted)),
                predicate,
                sources::sourced(cols, source, table),
                params,
                row,
            );
        }
    }
}

/// Whether a table can be read through its indexes: its columns have different
/// names, its rows different numbers, each index has an entry for each row, and
/// the rows are of the table.
pub open spec fn indexes_serve(
    s: StoreModel,
    params: Seq<ValueModel>,
    table: Seq<char>,
    cols: Seq<ColumnModel>,
    predicate: ExprModel,
) -> bool {
    &&& names_differ(cols)
    &&& numbers_differ(sources::rows_of_table(s.tables, table))
    &&& indexes_are_full(s, table, cols)
    &&& forall|row: TupleModel| #[trigger]
        sources::rows_of_table(s.tables, table).contains(row) ==> fits(
            row,
            cols,
            predicate,
            params,
        )
}

/// Whether a predicate is true on a row.
pub open spec fn is_true_on(
    predicate: ExprModel,
    cols: Seq<ColumnModel>,
    params: Seq<ValueModel>,
    row: TupleModel,
) -> bool {
    filter::keeps(evaluator::eval(predicate, cols, params, row.values)) == Ok::<bool, ErrorModel>(
        true,
    )
}

/// What an index gives for a predicate, single value or range, is what the
/// predicate keeps of the whole table.
pub proof fn law_an_index_gives_the_rows_of_the_whole_table(
    s: StoreModel,
    params: Seq<ValueModel>,
    table: Seq<char>,
    alias: Option<Seq<char>>,
    cols: Seq<ColumnModel>,
    predicate: ExprModel,
    row: TupleModel,
)
    requires
        indexes_serve(s, params, table, cols, predicate),
    ensures
        sources::point_rows(s, params, table, alias, cols, predicate) matches Ok(Some(out)) ==> (
        out.contains(row) <==> sources::rows_of_table(s.tables, table).contains(row) && is_true_on(
            predicate,
            sources::sourced(cols, sources::source_name(alias, table), table),
            params,
            row,
        )),
        index_lookup::index_range(predicate, cols, params, s.indexes, table) matches Some(range)
            ==> (sources::range_rows(s, params, table, alias, cols, range, predicate) matches Ok(
            Some(out),
        ) ==> (out.contains(row) <==> sources::rows_of_table(s.tables, table).contains(row)
            && is_true_on(
            predicate,
            sources::sourced(cols, sources::source_name(alias, table), table),
            params,
            row,
        ))),
{
    let shown = sources::sourced(cols, sources::source_name(alias, table), table);
    if sources::rows_of_table(s.tables, table).contains(row) && is_true_on(
        predicate,
        shown,
        params,
        row,
    ) {
        law_a_point_lookup_misses_no_row(s, params, table, alias, cols, predicate, row);
        law_a_range_scan_misses_no_row(s, params, table, alias, cols, predicate, row);
    }
    if let Ok(Some(out)) = sources::point_rows(s, params, table, alias, cols, predicate) {
        if out.contains(row) {
            let i = choose|i: int| 0 <= i < out.len() && out[i] == row;
            sources::law_lookups_give_rows_that_satisfy(
                s,
                params,
                table,
                alias,
                cols,
                predicate,
                i,
            );
        }
    }
    if let Some(range) = index_lookup::index_range(predicate, cols, params, s.indexes, table) {
        if let Ok(Some(out)) = sources::range_rows(
            s,
            params,
            table,
            alias,
            cols,
            range,
            predicate,
        ) {
            if out.contains(row) {
                let i = choose|i: int| 0 <= i < out.len() && out[i] == row;
                sources::law_range_scans_give_rows_that_satisfy(
                    s,
                    params,
                    table,
                    alias,
                    cols,
                    range,
                    predicate,
                    i,
                );
            }
        }
    }
}

/// Whether the keys of an index never go down. NULL has its own place.
pub open spec fn keys_rise(entries: Seq<(ValueModel, u64)>) -> bool {
    forall|i: int, j: int|
        0 <= i < j < entries.len() && !((#[trigger] entries[i]).0 is Null) && !((
        #[trigger] entries[j]).0 is Null) ==> index_lookup::key_order(entries[i].0, entries[j].0)
            != Order::Greater
}

/// Whether the entries of an index have the values of a column of the rows that
/// they lead to.
pub open spec fn keys_are_true(entries: Seq<(ValueModel, u64)>, q: TopkQuery, t: DataType) -> bool {
    forall|i: int|
        0 <= i < entries.len() ==> of_type((#[trigger] entries[i]).0, t) && (
        storage_view::row_with_id(q.rows, entries[i].1, 0) matches Some(row) ==> q.at
            < row.values.len() && row.values[q.at as int] == entries[i].0)
}

/// All rows that an index leads to, in output order.
pub open spec fn all_in_order(entries: Seq<(ValueModel, u64)>, q: TopkQuery) -> Seq<TupleModel> {
    ordered_topk::rows_reached(entries, entries.len(), q, true) + ordered_topk::rows_reached(
        entries,
        entries.len(),
        q,
        false,
    )
}

proof fn lemma_key_order_is_sort_order(x: ValueModel, y: ValueModel, t: DataType)
    requires
        index_lookup::ordered_type(t),
        of_type(x, t),
        of_type(y, t),
        !(x is Null),
        !(y is Null),
        index_lookup::key_order(x, y) != Order::Greater,
    ensures
        compare::sort_order(x, y) != Order::Greater,
{
    match (x, y) {
        (ValueModel::String(a), ValueModel::String(b)) => {
            lemma_tail_lex(text::codes(a), text::codes(b), 3);
        },
        (ValueModel::Float4(a), ValueModel::Float4(b)) => {
            lemma_int_lex(index_lookup::float4_key(a), index_lookup::float4_key(b), 1);
        },
        (ValueModel::Float8(a), ValueModel::Float8(b)) => {
            lemma_int_lex(index_lookup::float8_key(a), index_lookup::float8_key(b), 2);
        },
        _ => {
            let n = compare::int_value(x)->Some_0;
            let m = compare::int_value(y)->Some_0;
            lemma_int_lex(n as int, m as int, 0);
        },
    }
}

proof fn lemma_reached_have_keys(
    entries: Seq<(ValueModel, u64)>,
    n: nat,
    q: TopkQuery,
    first: bool,
    t: DataType,
)
    requires
        n <= entries.len(),
        keys_are_true(entries, q, t),
    ensures
        forall|j: int|
            0 <= j < ordered_topk::rows_reached(entries, n, q, first).len() ==> has_key(
                entries,
                n,
                q.at,
                #[trigger] ordered_topk::rows_reached(entries, n, q, first)[j],
            ) && (ordered_topk::rows_reached(entries, n, q, first)[j].values[q.at as int] is Null)
                == first,
    decreases n,
{
    if n > 0 {
        lemma_reached_have_keys(entries, (n - 1) as nat, q, first, t);
        let before = ordered_topk::rows_reached(entries, (n - 1) as nat, q, first);
        let now = ordered_topk::rows_reached(entries, n, q, first);
        assert(of_type(entries[n - 1].0, t));
        assert forall|j: int| 0 <= j < now.len() implies has_key(
            entries,
            n,
            q.at,
            #[trigger] now[j],
        ) && (now[j].values[q.at as int] is Null) == first by {
            if j < before.len() {
                assert(now[j] == before[j]);
                assert(has_key(entries, (n - 1) as nat, q.at, before[j]));
                let i = choose|i: int|
                    0 <= i < n - 1 && (#[trigger] entries[i]).0 == before[j].values[q.at as int];
                assert(entries[i].0 == now[j].values[q.at as int]);
            } else {
                assert(entries[n - 1].0 == now[j].values[q.at as int]);
            }
        }
    }
}

/// Whether one of the first `n` entries has the value of a row.
spec fn has_key(entries: Seq<(ValueModel, u64)>, n: nat, at: usize, row: TupleModel) -> bool {
    at < row.values.len() && exists|i: int|
        0 <= i < n && (#[trigger] entries[i]).0 == row.values[at as int]
}

proof fn lemma_others_are_sorted(
    entries: Seq<(ValueModel, u64)>,
    n: nat,
    q: TopkQuery,
    t: DataType,
)
    requires
        n <= entries.len(),
        index_lookup::ordered_type(t),
        keys_rise(entries),
        keys_are_true(entries, q, t),
    ensures
        forall|i: int, j: int|
            0 <= i < j < ordered_topk::rows_reached(entries, n, q, false).len()
                ==> compare::sort_order(
                (#[trigger] ordered_topk::rows_reached(
                    entries,
                    n,
                    q,
                    false,
                )[i]).values[q.at as int],
                (#[trigger] ordered_topk::rows_reached(
                    entries,
                    n,
                    q,
                    false,
                )[j]).values[q.at as int],
            ) != Order::Greater,
    decreases n,
{
    if n > 0 {
        lemma_others_are_sorted(entries, (n - 1) as nat, q, t);
        lemma_reached_have_keys(entries, (n - 1) as nat, q, false, t);
        let before = ordered_topk::rows_reached(entries, (n - 1) as nat, q, false);
        let now = ordered_topk::rows_reached(entries, n, q, false);
        assert(of_type(entries[n - 1].0, t));
        assert forall|i: int, j: int| 0 <= i < j < now.len() implies compare::sort_order(
            (#[trigger] now[i]).values[q.at as int],
            (#[trigger] now[j]).values[q.at as int],
        ) != Order::Greater by {
            assert(now[i] == before[i]);
            if j < before.len() {
                assert(now[j] == before[j]);
            } else {
                assert(has_key(entries, (n - 1) as nat, q.at, before[i]));
                let e = choose|e: int|
                    0 <= e < n - 1 && (#[trigger] entries[e]).0 == before[i].values[q.at as int];
                assert(entries[n - 1].0 == now[j].values[q.at as int]);
                assert(of_type(entries[e].0, t));
                lemma_key_order_is_sort_order(entries[e].0, entries[n - 1].0, t);
            }
        }
    }
}

/// The rows that an index leads to come in the order that sorting them gives,
/// NULL first, so that the first of them are the first of the sorted rows.
pub proof fn law_index_order_is_sort_order(
    entries: Seq<(ValueModel, u64)>,
    q: TopkQuery,
    t: DataType,
)
    requires
        index_lookup::ordered_type(t),
        keys_rise(entries),
        keys_are_true(entries, q, t),
    ensures
        forall|i: int, j: int|
            0 <= i < j < all_in_order(entries, q).len() ==> compare::sort_order(
                (#[trigger] all_in_order(entries, q)[i]).values[q.at as int],
                (#[trigger] all_in_order(entries, q)[j]).values[q.at as int],
            ) != Order::Greater,
        ordered_topk::first_in_order(entries, q) == if q.k <= all_in_order(entries, q).len() {
            all_in_order(entries, q).take(q.k as int)
        } else {
            all_in_order(entries, q)
        },
{
    let n = entries.len();
    let nulls = ordered_topk::rows_reached(entries, n, q, true);
    let others = ordered_topk::rows_reached(entries, n, q, false);
    let all = all_in_order(entries, q);
    lemma_reached_have_keys(entries, n, q, true, t);
    lemma_reached_have_keys(entries, n, q, false, t);
    lemma_others_are_sorted(entries, n, q, t);
    assert forall|i: int, j: int| 0 <= i < j < all.len() implies compare::sort_order(
        (#[trigger] all[i]).values[q.at as int],
        (#[trigger] all[j]).values[q.at as int],
    ) != Order::Greater by {
        if i < nulls.len() {
            assert(all[i] == nulls[i]);
            compare::law_null_sorts_first(all[j].values[q.at as int]);
        } else {
            assert(all[i] == others[i - nulls.len()]);
            assert(all[j] == others[j - nulls.len()]);
        }
    }
}

proof fn lemma_entry_kept(
    entries: Seq<(ValueModel, u64)>,
    lower: Option<index_lookup::RangeBoundModel>,
    upper: Option<index_lookup::RangeBoundModel>,
    key: ValueModel,
    id: u64,
)
    requires
        entries.contains((key, id)),
        storage_view::behind_lower(key, lower),
        storage_view::before_upper(key, upper),
    ensures
        storage_view::entries_within(entries, lower, upper).contains((key, id)),
    decreases entries.len(),
{
    let i = choose|i: int| 0 <= i < entries.len() && entries[i] == (key, id);
    let all = storage_view::entries_within(entries, lower, upper);
    let before = storage_view::entries_within(entries.drop_last(), lower, upper);
    if i == entries.len() - 1 {
        assert(all[all.len() - 1] == (key, id));
    } else {
        assert(entries.drop_last()[i] == (key, id));
        lemma_entry_kept(entries.drop_last(), lower, upper, key, id);
        let k = choose|k: int| 0 <= k < before.len() && before[k] == (key, id);
        assert(all[k] == (key, id));
    }
}

proof fn lemma_row_reached(entries: Seq<(ValueModel, u64)>, n: nat, q: TopkQuery, row: TupleModel, k: int)
    requires
        0 <= k < n <= entries.len(),
        storage_view::row_with_id(q.rows, entries[k].1, 0) == Some(row),
        ordered_topk::wanted(q, row) == Ok::<bool, ErrorModel>(true),
    ensures
        ordered_topk::rows_reached(
            entries,
            n,
            q,
            ordered_topk::sorts_first(row, q.at),
        ).contains(row),
    decreases n,
{
    let first = ordered_topk::sorts_first(row, q.at);
    let now = ordered_topk::rows_reached(entries, n, q, first);
    if k == n - 1 {
        assert(now[now.len() - 1] == row);
    } else {
        lemma_row_reached(entries, (n - 1) as nat, q, row, k);
        let before = ordered_topk::rows_reached(entries, (n - 1) as nat, q, first);
        let j = choose|j: int| 0 <= j < before.len() && before[j] == row;
        assert(now[j] == row);
    }
}

proof fn lemma_reached_are_wanted(
    entries: Seq<(ValueModel, u64)>,
    n: nat,
    q: TopkQuery,
    first: bool,
)
    requires
        n <= entries.len(),
    ensures
        forall|j: int|
            0 <= j < ordered_topk::rows_reached(entries, n, q, first).len() ==> q.rows.contains(
                #[trigger] ordered_topk::rows_reached(entries, n, q, first)[j],
            ) && ordered_topk::wanted(
                q,
                ordered_topk::rows_reached(entries, n, q, first)[j],
            ) == Ok::<bool, ErrorModel>(true),
    decreases n,
{
    if n > 0 {
        lemma_reached_are_wanted(entries, (n - 1) as nat, q, first);
        let before = ordered_topk::rows_reached(entries, (n - 1) as nat, q, first);
        let now = ordered_topk::rows_reached(entries, n, q, first);
        lemma_id_is_of_a_row(q.rows, entries[n - 1].1, 0);
        assert forall|j: int| 0 <= j < now.len() implies q.rows.contains(#[trigger] now[j])
            && ordered_topk::wanted(q, now[j]) == Ok::<bool, ErrorModel>(true) by {
            if j < before.len() {
                assert(now[j] == before[j]);
            }
        }
    }
}

proof fn lemma_id_is_of_a_row(rows: Seq<TupleModel>, id: u64, from: int)
    requires
        0 <= from,
    ensures
        storage_view::row_with_id(rows, id, from) matches Some(row) ==> rows.contains(row),
    decreases rows.len() - from,
{
    if from < rows.len() {
        if rows[from].row_id == Some(id) {
            assert(rows.contains(rows[from]));
        } else {
            lemma_id_is_of_a_row(rows, id, from + 1);
        }
    }
}

/// Whether a query for the first rows in the order of an index asks for the rows of a
/// table with a predicate.
pub open spec fn asks_for(
    q: TopkQuery,
    s: StoreModel,
    params: Seq<ValueModel>,
    table: Seq<char>,
    alias: Option<Seq<char>>,
    cols: Seq<ColumnModel>,
    predicate: Option<ExprModel>,
) -> bool {
    &&& q.rows == sources::rows_of_table(s.tables, table)
    &&& q.cols == sources::sourced(cols, sources::source_name(alias, table), table)
    &&& q.params == params
    &&& q.predicate == predicate
}

/// The rows that an index leads to for a sort that it serves, within the bounds that the
/// predicate sets, are exactly the rows of the table on which the predicate is true.
pub proof fn law_a_served_sort_gives_the_rows_that_pass(
    s: StoreModel,
    params: Seq<ValueModel>,
    table: Seq<char>,
    alias: Option<Seq<char>>,
    cols: Seq<ColumnModel>,
    predicate: Option<ExprModel>,
    at: usize,
    q: TopkQuery,
    row: TupleModel,
)
    requires
        at < cols.len(),
        index_lookup::index_on(s.indexes, table, cols[at as int].name, 0) is Some,
        ordered_topk::topk_bounds(predicate, cols[at as int].name, cols, table, s, params) is Some,
        asks_for(q, s, params, table, alias, cols, predicate),
        indexes_serve(
            s,
            params,
            table,
            cols,
            match predicate {
                Some(p) => p,
                None => ExprModel::Literal(ValueModel::Boolean(true)),
            },
        ),
    ensures
        ({
            let bounds = ordered_topk::topk_bounds(
                predicate,
                cols[at as int].name,
                cols,
                table,
                s,
                params,
            )->Some_0;
            let index = index_lookup::index_on(s.indexes, table, cols[at as int].name, 0)->Some_0;
            let entries = storage_view::entries_within(
                sources::known_entries(s, index),
                bounds.0,
                bounds.1,
            );
            all_in_order(entries, q).contains(row) <==> q.rows.contains(row) && (
            predicate matches Some(p) ==> is_true_on(p, q.cols, params, row))
        }),
{
    let bounds = ordered_topk::topk_bounds(
        predicate,
        cols[at as int].name,
        cols,
        table,
        s,
        params,
    )->Some_0;
    let index = index_lookup::index_on(s.indexes, table, cols[at as int].name, 0)->Some_0;
    let known = sources::known_entries(s, index);
    let entries = storage_view::entries_within(known, bounds.0, bounds.1);
    let nulls = ordered_topk::rows_reached(entries, entries.len(), q, true);
    let others = ordered_topk::rows_reached(entries, entries.len(), q, false);
    let all = all_in_order(entries, q);
    if all.contains(row) {
        lemma_reached_are_wanted(entries, entries.len(), q, true);
        lemma_reached_are_wanted(entries, entries.len(), q, false);
        let j = choose|j: int| 0 <= j < all.len() && all[j] == row;
        if j < nulls.len() {
            assert(nulls[j] == row);
        } else {
            assert(others[j - nulls.len()] == row);
        }
    }
    if q.rows.contains(row) && (predicate matches Some(p) ==> is_true_on(
        p,
        q.cols,
        params,
        row,
    )) {
        let id = row.row_id->Some_0;
        let x = row.values[at as int];
        assert(sources::rows_of_table(s.tables, table).contains(row));
        assert(index_lookup::index_on(s.indexes, table, cols[at as int].name, 0) is Some);
        assert(known.contains((x, id)));
        if let Some(p) = predicate {
            lemma_row_within_bounds(s, params, table, alias, cols, p, at, row);
        }
        lemma_entry_kept(known, bounds.0, bounds.1, x, id);
        let k = choose|k: int| 0 <= k < entries.len() && entries[k] == (x, id);
        let n = choose|n: int| 0 <= n < q.rows.len() && q.rows[n] == row;
        lemma_row_of_id(q.rows, n, 0);
        lemma_row_reached(entries, entries.len(), q, row, k);
        if ordered_topk::sorts_first(row, q.at) {
            let j = choose|j: int| 0 <= j < nulls.len() && nulls[j] == row;
            assert(all[j] == row);
        } else {
            let j = choose|j: int| 0 <= j < others.len() && others[j] == row;
            assert(all[nulls.len() + j] == row);
        }
    }
}

proof fn lemma_row_within_bounds(
    s: StoreModel,
    params: Seq<ValueModel>,
    table: Seq<char>,
    alias: Option<Seq<char>>,
    cols: Seq<ColumnModel>,
    predicate: ExprModel,
    at: usize,
    row: TupleModel,
)
    requires
        at < cols.len(),
        ordered_topk::topk_bounds(
            Some(predicate),
            cols[at as int].name,
            cols,
            table,
            s,
            params,
        ) is Some,
        names_differ(cols),
        fits(row, cols, predicate, params),
        is_true_on(
            predicate,
            sources::sourced(cols, sources::source_name(alias, table), table),
            params,
            row,
        ),
    ensures
        ({
            let bounds = ordered_topk::topk_bounds(
                Some(predicate),
                cols[at as int].name,
                cols,
                table,
                s,
                params,
            )->Some_0;
            &&& storage_view::behind_lower(row.values[at as int], bounds.0)
            &&& storage_view::before_upper(row.values[at as int], bounds.1)
        }),
{
    let range = index_lookup::index_range(predicate, cols, params, s.indexes, table)->Some_0;
    let source = sources::source_name(alias, table);
    let asked = index_lookup::predicate_asks(predicate, cols, params);
    lemma_asked_is_satisfied(predicate, cols, source, table, params, row);
    let c = lemma_range_column(asked, cols, s.indexes, table, 0);
    assert(cols[c].name == cols[at as int].name);
    assert(c == at);
    let t = cols[c].data_type;
    let x = row.values[c];
    lemma_within_side(asked, cols, row.values, c, true);
    lemma_within_side(asked, cols, row.values, c, false);
    let lowers = index_lookup::side_bounds(asked, cols[c].name, t, true)->Some_0;
    let uppers = index_lookup::side_bounds(asked, cols[c].name, t, false)->Some_0;
    index_lookup::law_tightest_bound_is_all_of_them(lowers, true, x);
    index_lookup::law_tightest_bound_is_all_of_them(uppers, false, x);
    assert(!(x is Null));
    assert(storage_view::behind_lower(x, range.lower));
    assert(storage_view::before_upper(x, range.upper));
}

} // verus!
