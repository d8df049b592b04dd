//! What of a scan is left to the storage: the columns it reads, the predicates it
//! tests, and the aggregates it computes.

use crate::evaluator;
use crate::evaluator::Evaluator;
use crate::executor::decode_hints::{HintModel, ScanDecodeHint};
use crate::executor::filter;
use crate::executor::handle_scan::ScanParts;
use crate::executor::join_planning;
use crate::executor::ordered_topk;
use crate::executor::semantics::ScanNode;
use crate::executor::sort;
use crate::logical_plan;
use crate::logical_plan::{
    AggregateFunction, BinaryOperator, ExprModel, LogicalExpr, LogicalPlan, PlanModel,
};
use crate::schema;
use crate::schema::{
    ColumnModel, ColumnStorageMode, Error, ErrorModel, Schema, Tuple, TupleModel,
};
use crate::value;
use crate::value::{DataType, Value, ValueModel};
use vstd::prelude::*;

verus! {

/// The comparisons that the storage tests.
#[derive(Clone, Copy, PartialEq, Eq, Structural, Debug)]
pub enum PredicateOp {
    Eq,
    NotEq,
    Lt,
    LtEq,
    Gt,
    GtEq,
    Like,
    Between,
    In,
    IsNull,
    IsNotNull,
}

/// A predicate on one column that the storage tests.
#[derive(Debug)]
pub struct AnalyzedPredicate {
    pub column_index: usize,
    pub op: PredicateOp,
    pub value: Value,
    pub value2: Option<Value>,
    pub value_list: Vec<Value>,
}

#[verifier::ext_equal]
pub struct AnalyzedModel {
    pub column_index: usize,
    pub op: PredicateOp,
    pub value: ValueModel,
    pub value2: Option<ValueModel>,
    pub value_list: Seq<ValueModel>,
}

impl View for AnalyzedPredicate {
    type V = AnalyzedModel;

    open spec fn view(&self) -> AnalyzedModel {
        AnalyzedModel {
            column_index: self.column_index,
            op: self.op,
            value: self.value@,
            value2: value::opt_value_model(self.value2),
            value_list: value::values_model(self.value_list@),
        }
    }
}

pub open spec fn analyzed_model(s: Seq<AnalyzedPredicate>) -> Seq<AnalyzedModel> {
    Seq::new(s.len(), |i: int| s[i]@)
}

/// Whether the storage compares a value with a column of a type as SQL does.
pub open spec fn value_fits(t: DataType, v: ValueModel) -> bool {
    v is Null || (match t {
        DataType::Int2 => v is Int2 || v is Int4 || v is Int8,
        DataType::Int4 => v is Int2 || v is Int4 || v is Int8,
        DataType::Int8 => v is Int2 || v is Int4 || v is Int8,
        DataType::Float4 => v is Float4 || v is Float8,
        DataType::Float8 => v is Float4 || v is Float8,
        DataType::Text => v is String,
        DataType::Varchar(_) => v is String,
        DataType::Char(_) => v is String,
        DataType::Boolean => v is Boolean,
        DataType::Bytea => v is Bytes,
        DataType::Uuid => v is Uuid,
        DataType::Date => v is Date,
        DataType::Timestamp => v is Timestamp,
        DataType::Timestamptz => v is Timestamp,
        DataType::Time => v is Time,
        DataType::Interval => v is Interval,
        DataType::Numeric => v is Numeric,
        DataType::Json => v is Json,
        DataType::Jsonb => v is Json,
        DataType::Vector(_) => v is Vector,
        DataType::Array(_) => v is Array,
    })
}

/// Whether the storage compares a value with a column of a type as SQL does.
pub fn storage_filter_value_matches_type(t: &DataType, v: &Value) -> (r: bool)
    ensures
        r == value_fits(*t, v@),
{
    if matches!(v, Value::Null) {
        return true;
    }
    match t {
        DataType::Int2 | DataType::Int4 | DataType::Int8 => matches!(
            v,
            Value::Int2(_) | Value::Int4(_) | Value::Int8(_)
        ),
        DataType::Float4 | DataType::Float8 => matches!(v, Value::Float4(_) | Value::Float8(_)),
        DataType::Text | DataType::Varchar(_) | DataType::Char(_) => matches!(v, Value::String(_)),
        DataType::Boolean => matches!(v, Value::Boolean(_)),
        DataType::Bytea => matches!(v, Value::Bytes(_)),
        DataType::Uuid => matches!(v, Value::Uuid(_)),
        DataType::Date => matches!(v, Value::Date(_)),
        DataType::Timestamp | DataType::Timestamptz => matches!(v, Value::Timestamp(_)),
        DataType::Time => matches!(v, Value::Time(_)),
        DataType::Interval => matches!(v, Value::Interval(_)),
        DataType::Numeric => matches!(v, Value::Numeric(_)),
        DataType::Json | DataType::Jsonb => matches!(v, Value::Json(_)),
        DataType::Vector(_) => matches!(v, Value::Vector(_)),
        DataType::Array(_) => matches!(v, Value::Array(_)),
    }
}

/// Whether all of some values fit a type.
pub open spec fn all_fit(t: DataType, s: Seq<ValueModel>) -> bool {
    forall|i: int| 0 <= i < s.len() ==> value_fits(t, #[trigger] s[i])
}

fn all_values_fit(t: &DataType, v: &Vec<Value>) -> (r: bool)
    ensures
        r == all_fit(*t, value::values_model(v@)),
{
    let ghost model = value::values_model(v@);
    let mut i: usize = 0;
    while i < v.len()
        invariant
            model == value::values_model(v@),
            i <= v@.len(),
            forall|j: int| 0 <= j < i ==> value_fits(*t, #[trigger] model[j]),
        decreases v.len() - i,
    {
        assert(model[i as int] == v@[i as int]@);
        if !storage_filter_value_matches_type(t, &v[i]) {
            assert(!value_fits(*t, model[i as int]));
            return false;
        }
        i += 1;
    }
    true
}

/// Whether the storage tests a predicate as SQL does.
pub open spec fn predicate_is_safe(p: AnalyzedModel, cols: Seq<ColumnModel>) -> bool {
    p.column_index < cols.len() && {
        let t = cols[p.column_index as int].data_type;
        match p.op {
            PredicateOp::IsNull => true,
            PredicateOp::IsNotNull => true,
            PredicateOp::Between => value_fits(t, p.value) && (p.value2 matches Some(v)
                && value_fits(t, v)),
            PredicateOp::In => all_fit(t, p.value_list),
            _ => value_fits(t, p.value),
        }
    }
}

fn is_predicate_safe(p: &AnalyzedPredicate, schema: &Schema) -> (r: bool)
    ensures
        r == predicate_is_safe(p@, schema@),
{
    if p.column_index >= schema.columns.len() {
        return false;
    }
    assert(schema@[p.column_index as int] == schema.columns@[p.column_index as int]@);
    let t: &DataType = &schema.columns[p.column_index].data_type;
    match p.op {
        PredicateOp::IsNull | PredicateOp::IsNotNull => true,
        PredicateOp::Between => {
            if !storage_filter_value_matches_type(t, &p.value) {
                return false;
            }
            match &p.value2 {
                Some(v) => storage_filter_value_matches_type(t, v),
                None => false,
            }
        },
        PredicateOp::In => all_values_fit(t, &p.value_list),
        _ => storage_filter_value_matches_type(t, &p.value),
    }
}

/// Whether the storage tests all predicates as SQL does.
pub open spec fn predicates_are_safe(s: Seq<AnalyzedModel>, cols: Seq<ColumnModel>) -> bool {
    forall|i: int| 0 <= i < s.len() ==> predicate_is_safe(#[trigger] s[i], cols)
}

/// Whether the storage tests all predicates as SQL does.
pub fn storage_predicates_are_sql_safe(schema: &Schema, predicates: &Vec<AnalyzedPredicate>) -> (r:
    bool)
    ensures
        r == predicates_are_safe(analyzed_model(predicates@), schema@),
{
    let ghost model = analyzed_model(predicates@);
    let mut i: usize = 0;
    while i < predicates.len()
        invariant
            model == analyzed_model(predicates@),
            i <= predicates@.len(),
            forall|j: int| 0 <= j < i ==> predicate_is_safe(#[trigger] model[j], schema@),
        decreases predicates.len() - i,
    {
        assert(model[i as int] == predicates@[i as int]@);
        if !is_predicate_safe(&predicates[i], schema) {
            assert(!predicate_is_safe(model[i as int], schema@));
            return false;
        }
        i += 1;
    }
    true
}

/// Whether NULL makes a predicate unknown in the storage too.
pub open spec fn null_is_unknown(p: AnalyzedModel) -> bool {
    match p.op {
        PredicateOp::Eq => !(p.value is Null),
        PredicateOp::Lt => !(p.value is Null),
        PredicateOp::LtEq => !(p.value is Null),
        PredicateOp::Gt => !(p.value is Null),
        PredicateOp::GtEq => !(p.value is Null),
        PredicateOp::Like => !(p.value is Null),
        PredicateOp::Between => !(p.value is Null) && (p.value2 matches Some(v) && !(v is Null)),
        PredicateOp::In => forall|i: int|
            0 <= i < p.value_list.len() ==> !((#[trigger] p.value_list[i]) is Null),
        PredicateOp::IsNull => true,
        PredicateOp::IsNotNull => true,
        PredicateOp::NotEq => false,
    }
}

fn has_no_null(v: &Vec<Value>) -> (r: bool)
    ensures
        r == (forall|i: int|
            0 <= i < value::values_model(v@).len() ==> !((#[trigger] value::values_model(v@)[i])
                is Null)),
{
    let ghost model = value::values_model(v@);
    let mut i: usize = 0;
    while i < v.len()
        invariant
            model == value::values_model(v@),
            i <= v@.len(),
            forall|j: int| 0 <= j < i ==> !((#[trigger] model[j]) is Null),
        decreases v.len() - i,
    {
        assert(model[i as int] == v@[i as int]@);
        if matches!(v[i], Value::Null) {
            assert(model[i as int] is Null);
            return false;
        }
        i += 1;
    }
    true
}

fn treats_null_as_unknown(p: &AnalyzedPredicate) -> (r: bool)
    ensures
        r == null_is_unknown(p@),
{
    match p.op {
        PredicateOp::Eq
        | PredicateOp::Lt
        | PredicateOp::LtEq
        | PredicateOp::Gt
        | PredicateOp::GtEq
        | PredicateOp::Like => !matches!(p.value, Value::Null),
        PredicateOp::Between => !matches!(p.value, Value::Null) && (match &p.value2 {
            Some(v) => !matches!(v, Value::Null),
            None => false,
        }),
        PredicateOp::In => has_no_null(&p.value_list),
        PredicateOp::IsNull | PredicateOp::IsNotNull => true,
        PredicateOp::NotEq => false,
    }
}

/// Whether aggregates over filtered rows can be left to the row store.
pub open spec fn aggregates_are_safe(s: Seq<AnalyzedModel>, cols: Seq<ColumnModel>) -> bool {
    predicates_are_safe(s, cols) && forall|i: int|
        0 <= i < s.len() ==> null_is_unknown(#[trigger] s[i])
}

/// Whether aggregates over filtered rows can be left to the row store.
pub fn rowstore_aggregate_predicates_are_sql_safe(
    schema: &Schema,
    predicates: &Vec<AnalyzedPredicate>,
) -> (r: bool)
    ensures
        r == aggregates_are_safe(analyzed_model(predicates@), schema@),
{
    if !storage_predicates_are_sql_safe(schema, predicates) {
        return false;
    }
    let ghost model = analyzed_model(predicates@);
    let mut i: usize = 0;
    while i < predicates.len()
        invariant
            model == analyzed_model(predicates@),
            i <= predicates@.len(),
            forall|j: int| 0 <= j < i ==> null_is_unknown(#[trigger] model[j]),
        decreases predicates.len() - i,
    {
        assert(model[i as int] == predicates@[i as int]@);
        if !treats_null_as_unknown(&predicates[i]) {
            assert(!null_is_unknown(model[i as int]));
            return false;
        }
        i += 1;
    }
    true
}

/// Whether a column is stored in a mode.
pub open spec fn stored_in(cols: Seq<ColumnModel>, i: usize, mode: ColumnStorageMode) -> bool {
    i < cols.len() && cols[i as int].storage_mode == mode
}

/// Whether all of some columns are stored in a mode.
pub open spec fn all_stored_in(cols: Seq<ColumnModel>, s: Seq<usize>, mode: ColumnStorageMode) -> bool {
    forall|i: int| 0 <= i < s.len() ==> stored_in(cols, #[trigger] s[i], mode)
}

fn columns_are_stored_in(schema: &Schema, indices: &Vec<usize>, mode: ColumnStorageMode) -> (r: bool)
    ensures
        r == all_stored_in(schema@, indices@, mode),
{
    let mut i: usize = 0;
    while i < indices.len()
        invariant
            i <= indices@.len(),
            forall|j: int| 0 <= j < i ==> stored_in(schema@, #[trigger] indices@[j], mode),
        decreases indices.len() - i,
    {
        let at: usize = indices[i];
        if at >= schema.columns.len() {
            assert(!stored_in(schema@, indices@[i as int], mode));
            return false;
        }
        assert(schema@[at as int] == schema.columns@[at as int]@);
        if schema.columns[at].storage_mode != mode {
            assert(!stored_in(schema@, indices@[i as int], mode));
            return false;
        }
        i += 1;
    }
    true
}

/// Whether all of some columns are stored column by column.
pub fn indices_are_columnar(schema: &Schema, indices: &Vec<usize>) -> (r: bool)
    ensures
        r == all_stored_in(schema@, indices@, ColumnStorageMode::Columnar),
{
    columns_are_stored_in(schema, indices, ColumnStorageMode::Columnar)
}

/// The first numbers.
pub open spec fn up_to(n: nat) -> Seq<usize> {
    Seq::new(n, |i: int| i as usize)
}

pub(crate) fn list_up_to(n: usize) -> (r: Vec<usize>)
    ensures
        r@ == up_to(n as nat),
{
    let mut out: Vec<usize> = Vec::new();
    let mut i: usize = 0;
    while i < n
        invariant
            i <= n,
            out@.len() == i,
            forall|j: int| 0 <= j < i ==> #[trigger] out@[j] == j,
        decreases n - i,
    {
        out.push(i);
        i += 1;
    }
    assert(out@ =~= up_to(n as nat));
    out
}

/// The columns that a hint names.
pub open spec fn hinted(h: HintModel) -> Seq<usize> {
    match h {
        HintModel::Prefix(n) => up_to(n as nat),
        HintModel::Columns(s) => s,
    }
}

fn list_hinted(h: &ScanDecodeHint) -> (r: Vec<usize>)
    ensures
        r@ == hinted(h@),
{
    match h {
        ScanDecodeHint::Prefix(n) => list_up_to(*n),
        ScanDecodeHint::Columns(s) => clone_indices(s),
    }
}

pub(crate) fn clone_indices(s: &Vec<usize>) -> (r: Vec<usize>)
    ensures
        r@ == s@,
{
    let mut out: Vec<usize> = Vec::new();
    let mut i: usize = 0;
    while i < s.len()
        invariant
            i <= s@.len(),
            out@ == s@.take(i as int),
        decreases s.len() - i,
    {
        out.push(s[i]);
        i += 1;
        assert(out@ =~= s@.take(i as int));
    }
    assert(s@.take(i as int) =~= s@);
    out
}

pub open spec fn opt_hint_ref(h: Option<&ScanDecodeHint>) -> Option<HintModel> {
    match h {
        Some(x) => Some(x@),
        None => None,
    }
}

/// The columns that a scan reads.
pub open spec fn read_columns(
    cols: Seq<ColumnModel>,
    projection: Option<Seq<usize>>,
    hint: Option<HintModel>,
) -> Seq<usize> {
    match hint {
        Some(h) => hinted(h),
        None => match projection {
            Some(p) => p,
            None => up_to(cols.len()),
        },
    }
}

/// The columns that a scan reads column by column, where it can: all of them are
/// stored that way.
pub open spec fn columnar_columns(
    cols: Seq<ColumnModel>,
    projection: Option<Seq<usize>>,
    hint: Option<HintModel>,
) -> Option<Seq<usize>> {
    let s = read_columns(cols, projection, hint);
    if all_stored_in(cols, s, ColumnStorageMode::Columnar) {
        Some(s)
    } else {
        None
    }
}

/// The columns that a scan reads column by column, where it can.
pub fn columnar_scan_columns(
    schema: &Schema,
    projection: &Option<Vec<usize>>,
    hint: Option<&ScanDecodeHint>,
) -> (r: Option<Vec<usize>>)
    ensures
        logical_plan::opt_positions(r) == columnar_columns(
            schema@,
            logical_plan::opt_positions(*projection),
            opt_hint_ref(hint),
        ),
{
    let indices: Vec<usize> = match hint {
        Some(h) => list_hinted(h),
        None => match projection {
            Some(p) => clone_indices(p),
            None => list_up_to(schema.columns.len()),
        },
    };
    if indices_are_columnar(schema, &indices) {
        Some(indices)
    } else {
        None
    }
}

/// A number placed among ascending ones, once.
pub open spec fn placed_once(s: Seq<usize>, x: usize) -> Seq<usize>
    decreases s.len(),
{
    if s.len() == 0 {
        seq![x]
    } else if s.last() < x {
        s.push(x)
    } else if s.last() == x {
        s
    } else {
        placed_once(s.drop_last(), x).push(s.last())
    }
}

/// Numbers in ascending order, each once.
pub open spec fn ascending_once(s: Seq<usize>) -> Seq<usize>
    decreases s.len(),
{
    if s.len() == 0 {
        s
    } else {
        placed_once(ascending_once(s.drop_last()), s.last())
    }
}

pub open spec fn strictly_ascending(s: Seq<usize>) -> bool {
    forall|i: int, j: int| 0 <= i < j < s.len() ==> s[i] < s[j]
}

proof fn lemma_placed_once(s: Seq<usize>, x: usize)
    requires
        strictly_ascending(s),
    ensures
        strictly_ascending(placed_once(s, x)),
        forall|y: usize| #[trigger] placed_once(s, x).contains(y) == (s.contains(y) || y == x),
        placed_once(s, x).len() > 0,
        placed_once(s, x).last() == (if s.len() > 0 && s.last() > x {
            s.last()
        } else {
            x
        }),
    decreases s.len(),
{
    let p = placed_once(s, x);
    if s.len() == 0 {
        assert(p[0] == x);
        assert forall|y: usize| #[trigger] p.contains(y) == (s.contains(y) || y == x) by {
            if y == x {
                assert(p[0] == y);
            }
        }
    } else if s.last() < x {
        assert forall|y: usize| #[trigger] p.contains(y) == (s.contains(y) || y == x) by {
            if s.contains(y) {
                let i = choose|i: int| 0 <= i < s.len() && s[i] == y;
                assert(p[i] == y);
            }
            if y == x {
                assert(p[s.len() as int] == y);
            }
        }
    } else if s.last() == x {
        assert(s[s.len() - 1] == x);
    } else {
        let d = s.drop_last();
        lemma_placed_once(d, x);
        let q = placed_once(d, x);
        assert(d.len() > 0 ==> d.last() < s.last());
        assert forall|y: usize| #[trigger] p.contains(y) == (s.contains(y) || y == x) by {
            assert(q.contains(y) == (d.contains(y) || y == x));
            if s.contains(y) {
                let i = choose|i: int| 0 <= i < s.len() && s[i] == y;
                if i < d.len() {
                    assert(d[i] == y);
                    assert(q.contains(y));
                    let j = choose|j: int| 0 <= j < q.len() && q[j] == y;
                    assert(p[j] == y);
                } else {
                    assert(p[q.len() as int] == y);
                }
            }
            if y == x {
                assert(q.contains(y));
                let j = choose|j: int| 0 <= j < q.len() && q[j] == y;
                assert(p[j] == y);
            }
            if p.contains(y) {
                let i = choose|i: int| 0 <= i < p.len() && p[i] == y;
                if i < q.len() {
                    assert(q[i] == y);
                    assert(q.contains(y));
                    if d.contains(y) {
                        let j = choose|j: int| 0 <= j < d.len() && d[j] == y;
                        assert(s[j] == y);
                    }
                } else {
                    assert(s[s.len() - 1] == y);
                }
            }
        }
        assert(forall|i: int| 0 <= i < q.len() ==> q[i] <= q.last());
    }
}

/// Sorting numbers and dropping repeated ones gives an ascending list with the
/// same numbers.
pub proof fn law_ascending_once_is_the_set(s: Seq<usize>)
    ensures
        strictly_ascending(ascending_once(s)),
        forall|y: usize| #[trigger] ascending_once(s).contains(y) == s.contains(y),
    decreases s.len(),
{
    if s.len() > 0 {
        let d = s.drop_last();
        law_ascending_once_is_the_set(d);
        lemma_placed_once(ascending_once(d), s.last());
        assert forall|y: usize| #[trigger] ascending_once(s).contains(y) == s.contains(y) by {
            assert(ascending_once(d).contains(y) == d.contains(y));
            if s.contains(y) {
                let i = choose|i: int| 0 <= i < s.len() && s[i] == y;
                if i < d.len() {
                    assert(d[i] == y);
                }
            }
            if d.contains(y) {
                let i = choose|i: int| 0 <= i < d.len() && d[i] == y;
                assert(s[i] == y);
            }
            assert(s[s.len() - 1] == s.last());
        }
    }
}

fn place_once(v: &mut Vec<usize>, x: usize)
    ensures
        final(v)@ == placed_once(old(v)@, x),
{
    let ghost before = v@;
    let mut i: usize = v.len();
    let ghost mut tail: Seq<usize> = Seq::empty();
    assert(before.take(before.len() as int) =~= before);
    assert(before.skip(before.len() as int) =~= Seq::<usize>::empty());
    assert(placed_once(before, x) =~= placed_once(before.take(i as int), x) + before.skip(i as int));
    while i > 0 && v[i - 1] > x
        invariant
            v@ == before,
            i <= before.len(),
            placed_once(before, x) == placed_once(before.take(i as int), x) + before.skip(i as int),
        decreases i,
    {
        let ghost head = before.take(i as int);
        assert(head.last() == before[i - 1]);
        assert(head.drop_last() =~= before.take(i - 1));
        assert(placed_once(head.drop_last(), x).push(head.last()) + before.skip(i as int)
            =~= placed_once(before.take(i - 1), x) + before.skip(i - 1));
        i -= 1;
    }
    let ghost head = before.take(i as int);
    if i > 0 && v[i - 1] == x {
        assert(head.last() == x);
        assert(head + before.skip(i as int) =~= before);
        return;
    }
    v.insert(i, x);
    proof {
        if i > 0 {
            assert(head.last() == before[i - 1]);
            assert(placed_once(head, x) == head.push(x));
        } else {
            assert(head =~= Seq::<usize>::empty());
            assert(placed_once(head, x) =~= head.push(x));
        }
        assert(v@ =~= head.push(x) + before.skip(i as int));
    }
}

/// Numbers in ascending order, each once.
pub fn sort_and_dedup(s: &Vec<usize>) -> (r: Vec<usize>)
    ensures
        r@ == ascending_once(s@),
{
    let mut out: Vec<usize> = Vec::new();
    let mut i: usize = 0;
    assert(s@.take(0) =~= Seq::<usize>::empty());
    while i < s.len()
        invariant
            i <= s@.len(),
            out@ == ascending_once(s@.take(i as int)),
        decreases s.len() - i,
    {
        assert(s@.take(i + 1).drop_last() =~= s@.take(i as int));
        assert(s@.take(i + 1).last() == s@[i as int]);
        place_once(&mut out, s[i]);
        i += 1;
    }
    assert(s@.take(i as int) =~= s@);
    out
}

/// The columns that predicates test.
pub open spec fn tested_columns(s: Seq<AnalyzedModel>) -> Seq<usize> {
    Seq::new(s.len(), |i: int| s[i].column_index)
}

/// The columns that a scan with predicates reads column by column, where it can.
pub open spec fn columnar_columns_with(
    cols: Seq<ColumnModel>,
    projection: Option<Seq<usize>>,
    hint: Option<HintModel>,
    predicates: Seq<AnalyzedModel>,
) -> Option<Seq<usize>> {
    match columnar_columns(cols, projection, hint) {
        None => None,
        Some(s) => {
            let all = ascending_once(s + tested_columns(predicates));
            if all_stored_in(cols, all, ColumnStorageMode::Columnar) {
                Some(all)
            } else {
                None
            }
        },
    }
}

/// The columns that a scan with predicates reads column by column, where it can.
pub fn columnar_scan_columns_with_predicates(
    schema: &Schema,
    projection: &Option<Vec<usize>>,
    hint: Option<&ScanDecodeHint>,
    predicates: &Vec<AnalyzedPredicate>,
) -> (r: Option<Vec<usize>>)
    ensures
        logical_plan::opt_positions(r) == columnar_columns_with(
            schema@,
            logical_plan::opt_positions(*projection),
            opt_hint_ref(hint),
            analyzed_model(predicates@),
        ),
{
    let mut indices: Vec<usize> = match columnar_scan_columns(schema, projection, hint) {
        Some(s) => s,
        None => {
            return None;
        },
    };
    add_tested_columns(&mut indices, predicates);
    let all: Vec<usize> = sort_and_dedup(&indices);
    if indices_are_columnar(schema, &all) {
        Some(all)
    } else {
        None
    }
}

fn add_tested_columns(indices: &mut Vec<usize>, predicates: &Vec<AnalyzedPredicate>)
    ensures
        final(indices)@ == old(indices)@ + tested_columns(analyzed_model(predicates@)),
{
    let ghost before = indices@;
    let ghost tested = tested_columns(analyzed_model(predicates@));
    let mut i: usize = 0;
    assert(before + tested.take(0) =~= before);
    while i < predicates.len()
        invariant
            tested == tested_columns(analyzed_model(predicates@)),
            i <= predicates@.len(),
            indices@ == before + tested.take(i as int),
        decreases predicates.len() - i,
    {
        assert(tested[i as int] == predicates@[i as int].column_index);
        indices.push(predicates[i].column_index);
        i += 1;
        assert(indices@ =~= before + tested.take(i as int));
    }
    assert(tested.take(i as int) =~= tested);
}

/// Whether a predicate is worth testing while a column is read.
pub open spec fn pays_in_columns(op: PredicateOp) -> bool {
    op == PredicateOp::Eq || op == PredicateOp::Lt || op == PredicateOp::LtEq || op
        == PredicateOp::Gt || op == PredicateOp::GtEq || op == PredicateOp::In || op
        == PredicateOp::IsNull
}

/// Whether predicates are worth testing while columns are read.
pub open spec fn tests_in_columns(s: Seq<AnalyzedModel>) -> bool {
    s.len() > 1 || exists|i: int| 0 <= i < s.len() && pays_in_columns((#[trigger] s[i]).op)
}

/// Whether predicates are worth testing while columns are read.
pub fn should_apply_columnar_predicates(predicates: &Vec<AnalyzedPredicate>) -> (r: bool)
    ensures
        r == tests_in_columns(analyzed_model(predicates@)),
{
    let ghost model = analyzed_model(predicates@);
    if predicates.len() > 1 {
        return true;
    }
    if predicates.len() == 0 {
        return false;
    }
    assert(model[0] == predicates@[0]@);
    match predicates[0].op {
        PredicateOp::Eq
        | PredicateOp::Lt
        | PredicateOp::LtEq
        | PredicateOp::Gt
        | PredicateOp::GtEq
        | PredicateOp::In
        | PredicateOp::IsNull => {
            assert(pays_in_columns(model[0].op));
            true
        },
        _ => false,
    }
}

/// How the rows of a table are read.
#[derive(Debug)]
pub enum ScanAccess {
    /// The given columns, column by column; `tested` says whether the predicates
    /// are tested on the way.
    Columnar { columns: Vec<usize>, tested: bool },
    /// Row by row, with the predicates tested on the way; only the given columns
    /// have to be decoded.
    Filtered { decoded: Option<Vec<usize>> },
    /// Row by row, the first columns.
    Prefix(usize),
    /// Row by row, the given columns.
    Columns(Vec<usize>),
    /// Row by row, all columns.
    Full,
}

#[verifier::ext_equal]
pub enum AccessModel {
    Columnar { columns: Seq<usize>, tested: bool },
    Filtered { decoded: Option<Seq<usize>> },
    Prefix(usize),
    Columns(Seq<usize>),
    Full,
}

impl View for ScanAccess {
    type V = AccessModel;

    open spec fn view(&self) -> AccessModel {
        match *self {
            ScanAccess::Columnar { columns, tested } => AccessModel::Columnar {
                columns: columns@,
                tested,
            },
            ScanAccess::Filtered { decoded } => AccessModel::Filtered {
                decoded: logical_plan::opt_positions(decoded),
            },
            ScanAccess::Prefix(n) => AccessModel::Prefix(n),
            ScanAccess::Columns(s) => AccessModel::Columns(s@),
            ScanAccess::Full => AccessModel::Full,
        }
    }
}

/// How rows are read one by one under a hint.
pub open spec fn hinted_access(hint: Option<HintModel>) -> AccessModel {
    match hint {
        Some(HintModel::Prefix(n)) => AccessModel::Prefix(n),
        Some(HintModel::Columns(s)) => AccessModel::Columns(s),
        None => AccessModel::Full,
    }
}

/// How the current rows of a table are read for a scan without predicates:
/// column by column where all columns allow it, else as the hint says. The data
/// table of a materialized view is read in full.
pub open spec fn plain_access(
    cols: Seq<ColumnModel>,
    own_table: bool,
    projection: Option<Seq<usize>>,
    hint: Option<HintModel>,
) -> AccessModel {
    if !own_table {
        AccessModel::Full
    } else {
        match columnar_columns(cols, projection, hint) {
            Some(s) => AccessModel::Columnar { columns: s, tested: false },
            None => hinted_access(hint),
        }
    }
}

/// How the current rows of a table are read for a scan with predicates: column by
/// column where all columns allow it, else with the predicates tested in the
/// storage, else as the hint says.
pub open spec fn filtered_access(
    cols: Seq<ColumnModel>,
    own_table: bool,
    projection: Option<Seq<usize>>,
    hint: Option<HintModel>,
    predicates: Seq<AnalyzedModel>,
) -> AccessModel {
    if !own_table {
        AccessModel::Full
    } else {
        match columnar_columns_with(cols, projection, hint, predicates) {
            Some(s) => AccessModel::Columnar { columns: s, tested: tests_in_columns(predicates) },
            None => if predicates.len() == 0 {
                hinted_access(hint)
            } else {
                AccessModel::Filtered {
                    decoded: match hint {
                        Some(h) => Some(hinted(h)),
                        None => None,
                    },
                }
            },
        }
    }
}

fn choose_hinted_access(hint: Option<&ScanDecodeHint>) -> (r: ScanAccess)
    ensures
        r@ == hinted_access(opt_hint_ref(hint)),
{
    match hint {
        Some(ScanDecodeHint::Prefix(n)) => ScanAccess::Prefix(*n),
        Some(ScanDecodeHint::Columns(s)) => ScanAccess::Columns(clone_indices(s)),
        None => ScanAccess::Full,
    }
}

/// How the current rows of a table are read for a scan without predicates.
pub fn choose_plain_access(
    schema: &Schema,
    own_table: bool,
    projection: &Option<Vec<usize>>,
    hint: Option<&ScanDecodeHint>,
) -> (r: ScanAccess)
    ensures
        r@ == plain_access(
            schema@,
            own_table,
            logical_plan::opt_positions(*projection),
            opt_hint_ref(hint),
        ),
{
    if !own_table {
        return ScanAccess::Full;
    }
    match columnar_scan_columns(schema, projection, hint) {
        Some(columns) => ScanAccess::Columnar { columns, tested: false },
        None => choose_hinted_access(hint),
    }
}

/// How the current rows of a table are read for a scan with predicates.
pub fn choose_filtered_access(
    schema: &Schema,
    own_table: bool,
    projection: &Option<Vec<usize>>,
    hint: Option<&ScanDecodeHint>,
    predicates: &Vec<AnalyzedPredicate>,
) -> (r: ScanAccess)
    ensures
        r@ == filtered_access(
            schema@,
            own_table,
            logical_plan::opt_positions(*projection),
            opt_hint_ref(hint),
            analyzed_model(predicates@),
        ),
{
    if !own_table {
        return ScanAccess::Full;
    }
    match columnar_scan_columns_with_predicates(schema, projection, hint, predicates) {
        Some(columns) => ScanAccess::Columnar {
            columns,
            tested: should_apply_columnar_predicates(predicates),
        },
        None => {
            if predicates.len() == 0 {
                choose_hinted_access(hint)
            } else {
                ScanAccess::Filtered {
                    decoded: match hint {
                        Some(h) => Some(list_hinted(h)),
                        None => None,
                    },
                }
            }
        },
    }
}

/// The scan that an aggregation stands on, with the predicate on it: one of all
/// columns.
pub open spec fn aggregate_input(p: PlanModel) -> Option<(ScanNode, Option<ExprModel>)> {
    match ordered_topk::filtered_scan_node(p) {
        Some(f) => if f.0.projection is None {
            Some(f)
        } else {
            None
        },
        None => None,
    }
}

/// The scan that an aggregation stands on, with the predicate on it.
pub fn columnar_aggregate_input(input: &LogicalPlan) -> (r: Option<
    (ScanParts<'_>, Option<&LogicalExpr>),
>)
    ensures
        match r {
            Some(f) => aggregate_input(input@) == Some((f.0@, join_planning::opt_borrowed(f.1))),
            None => aggregate_input(input@) is None,
        },
{
    match ordered_topk::filtered_scan_parts(input) {
        Some((n, p)) => {
            if n.projection.is_none() {
                Some((n, p))
            } else {
                None
            }
        },
        None => None,
    }
}

/// The position of the column that an expression is.
pub open spec fn column_position(e: ExprModel, cols: Seq<ColumnModel>) -> Option<usize> {
    match e {
        ExprModel::Column { table, name } => schema::qualified_or_bare_index(cols, table, name),
        _ => None,
    }
}

/// The position of the column that an expression is.
pub fn column_expr_index(e: &LogicalExpr, schema: &Schema) -> (r: Option<usize>)
    ensures
        r == column_position(e@, schema@),
        r matches Some(i) ==> i < schema.columns.len(),
{
    match e {
        LogicalExpr::Column { table, name } => schema.find_column(table, name.as_str()),
        _ => None,
    }
}

/// The aggregates that the storage computes.
#[derive(Clone, Copy, PartialEq, Eq, Structural, Debug)]
pub enum ColumnarAggregateOp {
    CountStar,
    Count,
    CountDistinct,
    Sum,
    Avg,
    Min,
    Max,
}

/// An aggregate of a column, or of the rows.
#[derive(Clone, Copy, PartialEq, Eq, Structural, Debug)]
pub struct ColumnarAggregateSpec {
    pub op: ColumnarAggregateOp,
    pub column_index: Option<usize>,
}

pub open spec fn of_column(op: ColumnarAggregateOp, e: ExprModel, cols: Seq<ColumnModel>) -> Option<
    ColumnarAggregateSpec,
> {
    match column_position(e, cols) {
        Some(i) => Some(ColumnarAggregateSpec { op, column_index: Some(i) }),
        None => None,
    }
}

/// The aggregate that an expression is, where the storage computes it.
pub open spec fn storage_aggregate(e: ExprModel, cols: Seq<ColumnModel>) -> Option<
    ColumnarAggregateSpec,
> {
    match e {
        ExprModel::AggregateFunction { fun, args, distinct } => if args.len() == 0 {
            None
        } else {
            let arg = args[0];
            match fun {
                AggregateFunction::Count => if arg is Wildcard {
                    if distinct {
                        None
                    } else {
                        Some(
                            ColumnarAggregateSpec {
                                op: ColumnarAggregateOp::CountStar,
                                column_index: None,
                            },
                        )
                    }
                } else if distinct {
                    of_column(ColumnarAggregateOp::CountDistinct, arg, cols)
                } else {
                    of_column(ColumnarAggregateOp::Count, arg, cols)
                },
                AggregateFunction::Sum => if distinct {
                    None
                } else {
                    of_column(ColumnarAggregateOp::Sum, arg, cols)
                },
                AggregateFunction::Avg => if distinct {
                    None
                } else {
                    of_column(ColumnarAggregateOp::Avg, arg, cols)
                },
                AggregateFunction::Min => if distinct {
                    None
                } else {
                    of_column(ColumnarAggregateOp::Min, arg, cols)
                },
                AggregateFunction::Max => if distinct {
                    None
                } else {
                    of_column(ColumnarAggregateOp::Max, arg, cols)
                },
                _ => None,
            }
        },
        _ => None,
    }
}

fn aggregate_of_column(op: ColumnarAggregateOp, e: &LogicalExpr, schema: &Schema) -> (r: Option<
    ColumnarAggregateSpec,
>)
    ensures
        r == of_column(op, e@, schema@),
{
    match column_expr_index(e, schema) {
        Some(i) => Some(ColumnarAggregateSpec { op, column_index: Some(i) }),
        None => None,
    }
}

/// The aggregate that an expression is, where the storage computes it.
pub fn columnar_aggregate_spec(e: &LogicalExpr, schema: &Schema) -> (r: Option<
    ColumnarAggregateSpec,
>)
    ensures
        r == storage_aggregate(e@, schema@),
{
    match e {
        LogicalExpr::AggregateFunction { fun, args, distinct } => {
            proof {
                logical_plan::lemma_exprs_model(args@);
            }
            if args.len() == 0 {
                return None;
            }
            assert(logical_plan::exprs_model(args@)[0] == args@[0]@);
            let arg: &LogicalExpr = &args[0];
            if matches!(fun, AggregateFunction::Count) {
                if matches!(arg, LogicalExpr::Wildcard) {
                    return if *distinct {
                        None
                    } else {
                        Some(
                            ColumnarAggregateSpec {
                                op: ColumnarAggregateOp::CountStar,
                                column_index: None,
                            },
                        )
                    };
                }
                return if *distinct {
                    aggregate_of_column(ColumnarAggregateOp::CountDistinct, arg, schema)
                } else {
                    aggregate_of_column(ColumnarAggregateOp::Count, arg, schema)
                };
            }
            if *distinct {
                return None;
            }
            match fun {
                AggregateFunction::Sum => aggregate_of_column(
                    ColumnarAggregateOp::Sum,
                    arg,
                    schema,
                ),
                AggregateFunction::Avg => aggregate_of_column(
                    ColumnarAggregateOp::Avg,
                    arg,
                    schema,
                ),
                AggregateFunction::Min => aggregate_of_column(
                    ColumnarAggregateOp::Min,
                    arg,
                    schema,
                ),
                AggregateFunction::Max => aggregate_of_column(
                    ColumnarAggregateOp::Max,
                    arg,
                    schema,
                ),
                _ => None,
            }
        },
        _ => None,
    }
}

/// A literal other than NULL.
pub open spec fn is_known_literal(e: ExprModel) -> bool {
    match e {
        ExprModel::Literal(v) => !(v is Null),
        _ => false,
    }
}

/// A predicate that the storage tests whole.
pub open spec fn simple_pushdown(e: ExprModel) -> bool
    decreases e,
{
    match e {
        ExprModel::BinaryExpr { left, op, right } => if op == BinaryOperator::And {
            simple_pushdown(*left) && simple_pushdown(*right)
        } else {
            (op == BinaryOperator::Eq || op == BinaryOperator::Lt || op == BinaryOperator::LtEq
                || op == BinaryOperator::Gt || op == BinaryOperator::GtEq || op
                == BinaryOperator::Like) && *left is Column && is_known_literal(*right)
        },
        ExprModel::IsNull { expr, is_null } => *expr is Column,
        ExprModel::Between { expr, low, high, negated } => !negated && *expr is Column
            && is_known_literal(*low) && is_known_literal(*high),
        ExprModel::InList { expr, list, negated } => !negated && *expr is Column && forall|i: int|
            0 <= i < list.len() ==> is_known_literal(#[trigger] list[i]),
        _ => false,
    }
}

fn plain_column(e: &LogicalExpr) -> (r: bool)
    ensures
        r == (e@ is Column),
{
    matches!(e, LogicalExpr::Column { .. })
}

fn known_literal(e: &LogicalExpr) -> (r: bool)
    ensures
        r == is_known_literal(e@),
{
    match e {
        LogicalExpr::Literal(v) => !matches!(v, Value::Null),
        _ => false,
    }
}

fn all_known_literals(v: &Vec<LogicalExpr>) -> (r: bool)
    ensures
        r == (forall|i: int|
            0 <= i < logical_plan::exprs_model(v@).len() ==> is_known_literal(
                #[trigger] logical_plan::exprs_model(v@)[i],
            )),
{
    let ghost model = logical_plan::exprs_model(v@);
    proof {
        logical_plan::lemma_exprs_model(v@);
    }
    let mut i: usize = 0;
    while i < v.len()
        invariant
            model == logical_plan::exprs_model(v@),
            model.len() == v@.len(),
            forall|j: int| 0 <= j < v@.len() ==> #[trigger] model[j] == v@[j]@,
            i <= v@.len(),
            forall|j: int| 0 <= j < i ==> is_known_literal(#[trigger] model[j]),
        decreases v.len() - i,
    {
        assert(model[i as int] == v@[i as int]@);
        if !known_literal(&v[i]) {
            assert(!is_known_literal(model[i as int]));
            return false;
        }
        i += 1;
    }
    true
}

/// Whether the storage tests a predicate whole.
pub fn is_simple_columnar_pushdown_predicate(e: &LogicalExpr) -> (r: bool)
    ensures
        r == simple_pushdown(e@),
    decreases e,
{
    match e {
        LogicalExpr::BinaryExpr { left, op, right } => match op {
            BinaryOperator::And => is_simple_columnar_pushdown_predicate(left)
                && is_simple_columnar_pushdown_predicate(right),
            BinaryOperator::Eq
            | BinaryOperator::Lt
            | BinaryOperator::LtEq
            | BinaryOperator::Gt
            | BinaryOperator::GtEq
            | BinaryOperator::Like => plain_column(left) && known_literal(right),
            _ => false,
        },
        LogicalExpr::IsNull { expr, is_null: _ } => plain_column(expr),
        LogicalExpr::Between { expr, low, high, negated } => !*negated && plain_column(expr)
            && known_literal(low) && known_literal(high),
        LogicalExpr::InList { expr, list, negated } => {
            let known: bool = all_known_literals(list);
            assert(e@->InList_list == logical_plan::exprs_model(list@));
            !*negated && plain_column(expr) && known
        },
        _ => false,
    }
}

/// The positions of the first `n` columns to group by.
pub open spec fn group_positions(s: Seq<ExprModel>, n: nat, cols: Seq<ColumnModel>) -> Option<
    Seq<usize>,
>
    decreases n,
{
    if n == 0 || n > s.len() {
        Some(Seq::empty())
    } else {
        match (group_positions(s, (n - 1) as nat, cols), column_position(s[n - 1], cols)) {
            (Some(p), Some(i)) => Some(p.push(i)),
            _ => None,
        }
    }
}

/// The first `n` aggregates of a list.
pub open spec fn storage_aggregates(s: Seq<ExprModel>, n: nat, cols: Seq<ColumnModel>) -> Option<
    Seq<ColumnarAggregateSpec>,
>
    decreases n,
{
    if n == 0 || n > s.len() {
        Some(Seq::empty())
    } else {
        match (storage_aggregates(s, (n - 1) as nat, cols), storage_aggregate(s[n - 1], cols)) {
            (Some(p), Some(a)) => Some(p.push(a)),
            _ => None,
        }
    }
}

proof fn lemma_groups_stop(s: Seq<ExprModel>, k: nat, n: nat, cols: Seq<ColumnModel>)
    requires
        k <= n <= s.len(),
        group_positions(s, k, cols) is None,
    ensures
        group_positions(s, n, cols) is None,
    decreases n,
{
    if k < n {
        lemma_groups_stop(s, k, (n - 1) as nat, cols);
    }
}

proof fn lemma_aggregates_stop(s: Seq<ExprModel>, k: nat, n: nat, cols: Seq<ColumnModel>)
    requires
        k <= n <= s.len(),
        storage_aggregates(s, k, cols) is None,
    ensures
        storage_aggregates(s, n, cols) is None,
    decreases n,
{
    if k < n {
        lemma_aggregates_stop(s, k, (n - 1) as nat, cols);
    }
}

pub(crate) fn collect_group_positions(exprs: &Vec<LogicalExpr>, schema: &Schema) -> (r: Option<Vec<usize>>)
    ensures
        logical_plan::opt_positions(r) == group_positions(
            logical_plan::exprs_model(exprs@),
            exprs@.len(),
            schema@,
        ),
{
    let ghost model = logical_plan::exprs_model(exprs@);
    proof {
        logical_plan::lemma_exprs_model(exprs@);
    }
    let mut out: Vec<usize> = Vec::new();
    let mut i: usize = 0;
    while i < exprs.len()
        invariant
            model == logical_plan::exprs_model(exprs@),
            model.len() == exprs@.len(),
            forall|j: int| 0 <= j < exprs@.len() ==> #[trigger] model[j] == exprs@[j]@,
            i <= exprs@.len(),
            group_positions(model, i as nat, schema@) == Some(out@),
        decreases exprs.len() - i,
    {
        assert(model[i as int] == exprs@[i as int]@);
        match column_expr_index(&exprs[i], schema) {
            Some(at) => {
                out.push(at);
            },
            None => {
                proof {
                    lemma_groups_stop(model, (i + 1) as nat, model.len(), schema@);
                }
                return None;
            },
        }
        i += 1;
    }
    Some(out)
}

pub open spec fn opt_specs(s: Option<Vec<ColumnarAggregateSpec>>) -> Option<
    Seq<ColumnarAggregateSpec>,
> {
    match s {
        Some(v) => Some(v@),
        None => None,
    }
}

fn collect_storage_aggregates(exprs: &Vec<LogicalExpr>, schema: &Schema) -> (r: Option<
    Vec<ColumnarAggregateSpec>,
>)
    ensures
        opt_specs(r) == storage_aggregates(
            logical_plan::exprs_model(exprs@),
            exprs@.len(),
            schema@,
        ),
{
    let ghost model = logical_plan::exprs_model(exprs@);
    proof {
        logical_plan::lemma_exprs_model(exprs@);
    }
    let mut out: Vec<ColumnarAggregateSpec> = Vec::new();
    let mut i: usize = 0;
    while i < exprs.len()
        invariant
            model == logical_plan::exprs_model(exprs@),
            model.len() == exprs@.len(),
            forall|j: int| 0 <= j < exprs@.len() ==> #[trigger] model[j] == exprs@[j]@,
            i <= exprs@.len(),
            storage_aggregates(model, i as nat, schema@) == Some(out@),
        decreases exprs.len() - i,
    {
        assert(model[i as int] == exprs@[i as int]@);
        match columnar_aggregate_spec(&exprs[i], schema) {
            Some(a) => {
                out.push(a);
            },
            None => {
                proof {
                    lemma_aggregates_stop(model, (i + 1) as nat, model.len(), schema@);
                }
                return None;
            },
        }
        i += 1;
    }
    Some(out)
}

/// The columns that the first `n` aggregates are of.
pub open spec fn aggregated_columns(s: Seq<ColumnarAggregateSpec>, n: nat) -> Seq<usize>
    decreases n,
{
    if n == 0 || n > s.len() {
        Seq::empty()
    } else {
        let before = aggregated_columns(s, (n - 1) as nat);
        match s[n - 1].column_index {
            Some(i) => before.push(i),
            None => before,
        }
    }
}

/// The columns that an aggregation reads.
pub open spec fn referenced(
    groups: Seq<usize>,
    aggregates: Seq<ColumnarAggregateSpec>,
    predicates: Seq<AnalyzedModel>,
) -> Seq<usize> {
    groups + aggregated_columns(aggregates, aggregates.len()) + tested_columns(predicates)
}

/// An aggregation that is left to the storage.
#[verifier::ext_equal]
pub struct PushedModel {
    pub groups: Seq<usize>,
    pub aggregates: Seq<ColumnarAggregateSpec>,
}

/// An aggregation that is left to the storage.
#[derive(Debug)]
pub struct PushedAggregation {
    pub groups: Vec<usize>,
    pub aggregates: Vec<ColumnarAggregateSpec>,
}

impl View for PushedAggregation {
    type V = PushedModel;

    open spec fn view(&self) -> PushedModel {
        PushedModel { groups: self.groups@, aggregates: self.aggregates@ }
    }
}

/// Whether the storage can test a predicate: it has found all of it.
pub open spec fn predicate_is_pushed(
    predicate: Option<ExprModel>,
    predicates: Seq<AnalyzedModel>,
) -> bool {
    match predicate {
        None => true,
        Some(p) => simple_pushdown(p) && predicates.len() > 0,
    }
}

/// An aggregation over columns that are stored column by column, left to them:
/// every column it reads is, and there is one.
pub open spec fn columnar_aggregation(
    predicate: Option<ExprModel>,
    group_by: Seq<ExprModel>,
    aggr_exprs: Seq<ExprModel>,
    predicates: Seq<AnalyzedModel>,
    cols: Seq<ColumnModel>,
) -> Option<PushedModel> {
    match (
        group_positions(group_by, group_by.len(), cols),
        storage_aggregates(aggr_exprs, aggr_exprs.len(), cols),
    ) {
        (Some(groups), Some(aggregates)) => {
            let read = referenced(groups, aggregates, predicates);
            if predicate_is_pushed(predicate, predicates) && read.len() > 0 && all_stored_in(
                cols,
                read,
                ColumnStorageMode::Columnar,
            ) {
                Some(PushedModel { groups, aggregates })
            } else {
                None
            }
        },
        _ => None,
    }
}

/// An aggregation over columns that are stored row by row, left to the row store.
pub open spec fn rowstore_aggregation(
    predicate: Option<ExprModel>,
    group_by: Seq<ExprModel>,
    aggr_exprs: Seq<ExprModel>,
    predicates: Seq<AnalyzedModel>,
    cols: Seq<ColumnModel>,
) -> Option<PushedModel> {
    match (
        group_positions(group_by, group_by.len(), cols),
        storage_aggregates(aggr_exprs, aggr_exprs.len(), cols),
    ) {
        (Some(groups), Some(aggregates)) => if predicate_is_pushed(predicate, predicates)
            && aggregates_are_safe(predicates, cols) && all_stored_in(
            cols,
            referenced(groups, aggregates, predicates),
            ColumnStorageMode::Default,
        ) {
            Some(PushedModel { groups, aggregates })
        } else {
            None
        },
        _ => None,
    }
}

fn collect_referenced(p: &PushedAggregation, predicates: &Vec<AnalyzedPredicate>) -> (r: Vec<usize>)
    ensures
        r@ == referenced(p.groups@, p.aggregates@, analyzed_model(predicates@)),
{
    let mut out: Vec<usize> = clone_indices(&p.groups);
    let ghost groups = p.groups@;
    let mut i: usize = 0;
    assert(groups + aggregated_columns(p.aggregates@, 0) =~= groups);
    while i < p.aggregates.len()
        invariant
            groups == p.groups@,
            i <= p.aggregates@.len(),
            out@ == groups + aggregated_columns(p.aggregates@, i as nat),
        decreases p.aggregates.len() - i,
    {
        if let Some(at) = p.aggregates[i].column_index {
            let ghost before = aggregated_columns(p.aggregates@, i as nat);
            out.push(at);
            assert(out@ =~= groups + before.push(at));
        }
        i += 1;
    }
    add_tested_columns(&mut out, predicates);
    out
}

fn predicate_can_be_pushed(predicate: Option<&LogicalExpr>, predicates: &Vec<AnalyzedPredicate>) -> (r:
    bool)
    ensures
        r == predicate_is_pushed(
            join_planning::opt_borrowed(predicate),
            analyzed_model(predicates@),
        ),
{
    match predicate {
        None => true,
        Some(p) => is_simple_columnar_pushdown_predicate(p) && predicates.len() > 0,
    }
}

fn plan_pushed(group_by: &Vec<LogicalExpr>, aggr_exprs: &Vec<LogicalExpr>, schema: &Schema) -> (r:
    Option<PushedAggregation>)
    ensures
        match r {
            Some(p) => group_positions(
                logical_plan::exprs_model(group_by@),
                logical_plan::exprs_model(group_by@).len(),
                schema@,
            ) == Some(p.groups@) && storage_aggregates(
                logical_plan::exprs_model(aggr_exprs@),
                logical_plan::exprs_model(aggr_exprs@).len(),
                schema@,
            ) == Some(p.aggregates@),
            None => group_positions(
                logical_plan::exprs_model(group_by@),
                logical_plan::exprs_model(group_by@).len(),
                schema@,
            ) is None || storage_aggregates(
                logical_plan::exprs_model(aggr_exprs@),
                logical_plan::exprs_model(aggr_exprs@).len(),
                schema@,
            ) is None,
        },
{
    proof {
        logical_plan::lemma_exprs_model(group_by@);
        logical_plan::lemma_exprs_model(aggr_exprs@);
    }
    match collect_group_positions(group_by, schema) {
        Some(groups) => match collect_storage_aggregates(aggr_exprs, schema) {
            Some(aggregates) => Some(PushedAggregation { groups, aggregates }),
            None => None,
        },
        None => None,
    }
}

/// An aggregation over columns that are stored column by column, left to them.
pub fn try_columnar_aggregate(
    predicate: Option<&LogicalExpr>,
    group_by: &Vec<LogicalExpr>,
    aggr_exprs: &Vec<LogicalExpr>,
    predicates: &Vec<AnalyzedPredicate>,
    schema: &Schema,
) -> (r: Option<PushedAggregation>)
    ensures
        match r {
            Some(p) => columnar_aggregation(
                join_planning::opt_borrowed(predicate),
                logical_plan::exprs_model(group_by@),
                logical_plan::exprs_model(aggr_exprs@),
                analyzed_model(predicates@),
                schema@,
            ) == Some(p@),
            None => columnar_aggregation(
                join_planning::opt_borrowed(predicate),
                logical_plan::exprs_model(group_by@),
                logical_plan::exprs_model(aggr_exprs@),
                analyzed_model(predicates@),
                schema@,
            ) is None,
        },
{
    let p: PushedAggregation = match plan_pushed(group_by, aggr_exprs, schema) {
        Some(p) => p,
        None => {
            return None;
        },
    };
    if !predicate_can_be_pushed(predicate, predicates) {
        return None;
    }
    let read: Vec<usize> = collect_referenced(&p, predicates);
    if read.len() > 0 && indices_are_columnar(schema, &read) {
        Some(p)
    } else {
        None
    }
}

/// An aggregation over columns that are stored row by row, left to the row store.
pub fn try_rowstore_aggregate(
    predicate: Option<&LogicalExpr>,
    group_by: &Vec<LogicalExpr>,
    aggr_exprs: &Vec<LogicalExpr>,
    predicates: &Vec<AnalyzedPredicate>,
    schema: &Schema,
) -> (r: Option<PushedAggregation>)
    ensures
        match r {
            Some(p) => rowstore_aggregation(
                join_planning::opt_borrowed(predicate),
                logical_plan::exprs_model(group_by@),
                logical_plan::exprs_model(aggr_exprs@),
                analyzed_model(predicates@),
                schema@,
            ) == Some(p@),
            None => rowstore_aggregation(
                join_planning::opt_borrowed(predicate),
                logical_plan::exprs_model(group_by@),
                logical_plan::exprs_model(aggr_exprs@),
                analyzed_model(predicates@),
                schema@,
            ) is None,
        },
{
    let p: PushedAggregation = match plan_pushed(group_by, aggr_exprs, schema) {
        Some(p) => p,
        None => {
            return None;
        },
    };
    if !predicate_can_be_pushed(predicate, predicates) {
        return None;
    }
    if !rowstore_aggregate_predicates_are_sql_safe(schema, predicates) {
        return None;
    }
    let read: Vec<usize> = collect_referenced(&p, predicates);
    if columns_are_stored_in(schema, &read, ColumnStorageMode::Default) {
        Some(p)
    } else {
        None
    }
}

/// The groups that `HAVING` keeps: those it is true on. One that it fails on is
/// dropped; what is left to the database is no failure.
pub open spec fn kept_groups(
    rows: Seq<TupleModel>,
    n: nat,
    having: ExprModel,
    cols: Seq<ColumnModel>,
) -> Result<Seq<TupleModel>, ErrorModel>
    decreases n,
{
    if n == 0 || n > rows.len() {
        Ok(Seq::empty())
    } else {
        match kept_groups(rows, (n - 1) as nat, having, cols) {
            Err(e) => Err(e),
            Ok(before) => match evaluator::eval(having, cols, Seq::empty(), rows[n - 1].values) {
                Ok(v) => if v == ValueModel::Boolean(true) {
                    Ok(before.push(rows[n - 1]))
                } else {
                    Ok(before)
                },
                Err(e) => if e is Unsupported {
                    Err(e)
                } else {
                    Ok(before)
                },
            },
        }
    }
}

proof fn lemma_kept_groups_stop(
    rows: Seq<TupleModel>,
    k: nat,
    n: nat,
    having: ExprModel,
    cols: Seq<ColumnModel>,
)
    requires
        k <= n <= rows.len(),
        kept_groups(rows, k, having, cols) is Err,
    ensures
        kept_groups(rows, n, having, cols) == kept_groups(rows, k, having, cols),
    decreases n,
{
    if k < n {
        lemma_kept_groups_stop(rows, k, (n - 1) as nat, having, cols);
    }
}

/// The groups that `HAVING` keeps, with its aggregates given as columns.
pub fn apply_having_post_filter(rows: Vec<Tuple>, having: &LogicalExpr, evaluator: &Evaluator) -> (r:
    Result<Vec<Tuple>, Error>)
    requires
        evaluator.params() == Seq::<ValueModel>::empty(),
    ensures
        sort::rows_result(r) == kept_groups(
            schema::rows_model(rows@),
            rows@.len(),
            having@,
            evaluator.columns(),
        ),
{
    let ghost model = schema::rows_model(rows@);
    let mut out: Vec<Tuple> = Vec::new();
    assert(schema::rows_model(out@) =~= Seq::<TupleModel>::empty());
    let mut i: usize = 0;
    while i < rows.len()
        invariant
            evaluator.params() == Seq::<ValueModel>::empty(),
            model == schema::rows_model(rows@),
            i <= rows@.len(),
            kept_groups(model, i as nat, having@, evaluator.columns()) == Ok::<
                Seq<TupleModel>,
                ErrorModel,
            >(schema::rows_model(out@)),
        decreases rows.len() - i,
    {
        assert(model[i as int] == rows@[i as int]@);
        match evaluator.evaluate(having, &rows[i]) {
            Ok(v) => {
                if matches!(v, Value::Boolean(true)) {
                    let ghost was = schema::rows_model(out@);
                    let t: Tuple = rows[i].clone();
                    out.push(t);
                    assert(schema::rows_model(out@) =~= was.push(t@));
                }
            },
            Err(e) => {
                if e.is_refusal() {
                    proof {
                        lemma_kept_groups_stop(
                            model,
                            (i + 1) as nat,
                            model.len(),
                            having@,
                            evaluator.columns(),
                        );
                    }
                    return Err(e);
                }
            },
        }
        i += 1;
    }
    Ok(out)
}

/// The groups on which a condition is true.
pub open spec fn true_groups(having: ExprModel, cols: Seq<ColumnModel>) -> spec_fn(
    TupleModel,
) -> bool {
    |row: TupleModel|
        evaluator::eval(having, cols, Seq::empty(), row.values) == Ok::<ValueModel, ErrorModel>(
            ValueModel::Boolean(true),
        )
}

proof fn lemma_kept_groups(rows: Seq<TupleModel>, n: nat, having: ExprModel, cols: Seq<ColumnModel>)
    requires
        n <= rows.len(),
        kept_groups(rows, n, having, cols) is Ok,
    ensures
        kept_groups(rows, n, having, cols)->Ok_0 == rows.take(n as int).filter(
            true_groups(having, cols),
        ),
    decreases n,
{
    let keep = true_groups(having, cols);
    if n > 0 {
        let m = (n - 1) as nat;
        let row = rows[n - 1];
        lemma_kept_groups(rows, m, having, cols);
        assert(rows.take(n as int) =~= rows.take(m as int) + seq![row]);
        Seq::filter_distributes_over_add(rows.take(m as int), seq![row], keep);
        filter::lemma_filter_one(row, keep);
        let kept = rows.take(m as int).filter(keep);
        assert(kept + seq![row] =~= kept.push(row));
        assert(kept + Seq::<TupleModel>::empty() =~= kept);
    } else {
        assert(rows.take(0) =~= Seq::<TupleModel>::empty());
        filter::lemma_filter_none(keep);
    }
}

/// `HAVING` keeps exactly the groups on which it is true, unchanged and in order; a group
/// on which it fails or is NULL is dropped. Nothing is kept only where it is left to the
/// database.
pub proof fn law_having_keeps_the_true_groups(
    rows: Seq<TupleModel>,
    having: ExprModel,
    cols: Seq<ColumnModel>,
)
    ensures
        match kept_groups(rows, rows.len(), having, cols) {
            Ok(kept) => kept == rows.filter(true_groups(having, cols)),
            Err(e) => e is Unsupported,
        },
{
    assert(rows.take(rows.len() as int) =~= rows);
    if kept_groups(rows, rows.len(), having, cols) is Ok {
        lemma_kept_groups(rows, rows.len(), having, cols);
    } else {
        lemma_refused_groups(rows, rows.len(), having, cols);
    }
}

proof fn lemma_refused_groups(
    rows: Seq<TupleModel>,
    n: nat,
    having: ExprModel,
    cols: Seq<ColumnModel>,
)
    ensures
        kept_groups(rows, n, having, cols) matches Err(e) ==> e is Unsupported,
    decreases n,
{
    if n > 0 && n <= rows.len() {
        lemma_refused_groups(rows, (n - 1) as nat, having, cols);
    }
}

proof fn lemma_group_positions(s: Seq<ExprModel>, n: nat, cols: Seq<ColumnModel>, i: int)
    requires
        0 <= i < n <= s.len(),
        group_positions(s, n, cols) is Some,
    ensures
        group_positions(s, n, cols)->Some_0.len() == n,
        column_position(s[i], cols) == Some(group_positions(s, n, cols)->Some_0[i]),
    decreases n,
{
    if n > 1 {
        lemma_group_positions(
            s,
            (n - 1) as nat,
            cols,
            if i < n - 1 {
                i
            } else {
                0
            },
        );
    } else {
        assert(group_positions(s, 0, cols) == Some(Seq::<usize>::empty()));
    }
}

/// A pushed-down grouping reads, from a stored row, the values that the grouping
/// expressions have on it, in their order.
pub proof fn law_pushed_down_groups_read_their_columns(
    group_by: Seq<ExprModel>,
    cols: Seq<ColumnModel>,
    params: Seq<ValueModel>,
    row: Seq<ValueModel>,
    i: int,
)
    requires
        0 <= i < group_by.len(),
        group_positions(group_by, group_by.len(), cols) is Some,
        row.len() == cols.len(),
        cols.len() <= usize::MAX,
        schema::qualified_index(cols, group_by[i]->Column_table, group_by[i]->Column_name) is Some,
    ensures
        ({
            let groups = group_positions(group_by, group_by.len(), cols)->Some_0;
            &&& groups.len() == group_by.len()
            &&& evaluator::eval(group_by[i], cols, params, row) == Ok::<ValueModel, ErrorModel>(
                row[groups[i] as int],
            )
        }),
{
    lemma_group_positions(group_by, group_by.len(), cols, i);
    schema::lemma_qualified_index_in_range(
        cols,
        group_by[i]->Column_table,
        group_by[i]->Column_name,
    );
}

/// An aggregate that is pushed down is computed over its own argument and as it says:
/// `COUNT(*)` counts rows, and `DISTINCT` is pushed down with `COUNT` alone.
pub proof fn law_pushed_down_aggregates_keep_their_meaning(
    fun: AggregateFunction,
    args: Seq<ExprModel>,
    distinct: bool,
    cols: Seq<ColumnModel>,
)
    ensures
        storage_aggregate((ExprModel::AggregateFunction { fun, args, distinct }), cols) matches Some(a)
            ==> {
            &&& distinct ==> fun == AggregateFunction::Count && a.op
                == ColumnarAggregateOp::CountDistinct
            &&& a.op == ColumnarAggregateOp::CountDistinct ==> distinct
            &&& a.op == ColumnarAggregateOp::CountStar <==> args[0] is Wildcard && fun
                == AggregateFunction::Count
            &&& a.op == ColumnarAggregateOp::Sum <==> fun == AggregateFunction::Sum
            &&& a.op == ColumnarAggregateOp::Avg <==> fun == AggregateFunction::Avg
            &&& a.op == ColumnarAggregateOp::Min <==> fun == AggregateFunction::Min
            &&& a.op == ColumnarAggregateOp::Max <==> fun == AggregateFunction::Max
            &&& a.op != ColumnarAggregateOp::CountStar ==> a.column_index is Some
                && a.column_index == column_position(args[0], cols)
        },
{
}

} // verus!
