//! How a join is executed: row estimates, lookups in an index of the right
//! side, and inputs cut down to the columns that the join needs.

use crate::executor::index_lookup;
use crate::executor::join_keys;
use crate::executor::join_pair;
use crate::executor::storage_view;
use crate::executor::storage_view::{IndexEntry, StorageView, StoreModel};
use crate::expr_tree;
use crate::logical_plan;
use crate::logical_plan::{
    BinaryOperator, ExprModel, JoinType, LogicalExpr, LogicalPlan, PlanModel,
};
use crate::schema;
use crate::schema::{Column, ColumnModel, Schema, Tuple, TupleModel};
use crate::text;
use crate::value::{DataType, Value, ValueModel};
use std::sync::Arc;
use vstd::prelude::*;

verus! {

/// How many rows a filter is expected to keep: about a third, and at least one.
pub open spec fn filtered_estimate(rows: usize) -> usize {
    let n = join_pair::capped(join_pair::capped((rows * 33) as nat) as nat + 99) / 100;
    if n < 1 {
        1
    } else {
        n
    }
}

/// A product that stops at the largest `usize`.
pub fn capped_times(n: usize, k: usize) -> (r: usize)
    ensures
        r == join_pair::capped((n * k) as nat),
{
    proof {
        vstd::arithmetic::mul::lemma_mul_nonnegative(n as int, k as int);
    }
    match n.checked_mul(k) {
        Some(x) => x,
        None => usize::MAX,
    }
}

/// How many rows a filter is expected to keep.
pub fn estimate_filtered_rows(rows: usize) -> (r: usize)
    ensures
        r == filtered_estimate(rows),
{
    let n: usize = capped_times(rows, 33).saturating_add(99) / 100;
    if n < 1 {
        1
    } else {
        n
    }
}

/// How many rows a stored table has.
pub open spec fn stored_rows(store: Option<StoreModel>, table: Seq<char>) -> Option<usize> {
    match store {
        Some(s) => match storage_view::table_named(s.tables, table, 0) {
            Some(t) => Some(join_pair::capped(t.rows.len())),
            None => None,
        },
        None => None,
    }
}

/// How many rows a stored table has.
pub fn count_stored_rows(storage: Option<&StorageView>, table: &str) -> (r: Option<usize>)
    ensures
        r == stored_rows(storage_view::opt_store(storage), table@),
{
    match storage {
        Some(s) => match storage_view::find_table(&s.tables, table) {
            Some(t) => {
                assert(schema::rows_model(t.rows@).len() == t.rows.len());
                Some(t.rows.len())
            },
            None => None,
        },
        None => None,
    }
}

pub open spec fn smaller(a: usize, b: usize) -> usize {
    if a <= b {
        a
    } else {
        b
    }
}

/// How many rows a join input is expected to have.
pub open spec fn estimate(store: Option<StoreModel>, p: PlanModel) -> Option<usize>
    decreases p,
{
    match p {
        PlanModel::Scan { table_name, alias, schema, projection, as_of } => stored_rows(
            store,
            table_name,
        ),
        PlanModel::FilteredScan { table_name, alias, schema, projection, predicate, as_of } =>
            match stored_rows(store, table_name) {
            Some(n) => if predicate is Some {
                Some(filtered_estimate(n))
            } else {
                Some(n)
            },
            None => None,
        },
        PlanModel::Filter { input, predicate } => match estimate(store, *input) {
            Some(n) => Some(filtered_estimate(n)),
            None => None,
        },
        PlanModel::Project { input, exprs, aliases, distinct, distinct_on, source_alias } =>
            estimate(store, *input),
        PlanModel::Sort { input, exprs, asc } => estimate(store, *input),
        PlanModel::Limit { input, limit, offset, limit_param, offset_param } => match estimate(
            store,
            *input,
        ) {
            Some(n) => Some(smaller(n, limit)),
            None => None,
        },
        _ => None,
    }
}

/// How many rows a join input is expected to have.
pub fn estimate_hash_join_rows(storage: Option<&StorageView>, plan: &LogicalPlan) -> (r: Option<usize>)
    ensures
        r == estimate(storage_view::opt_store(storage), plan@),
    decreases plan,
{
    match plan {
        LogicalPlan::Scan { table_name, .. } => count_stored_rows(storage, table_name.as_str()),
        LogicalPlan::FilteredScan { table_name, predicate, .. } => {
            match count_stored_rows(storage, table_name.as_str()) {
                Some(n) => if predicate.is_some() {
                    Some(estimate_filtered_rows(n))
                } else {
                    Some(n)
                },
                None => None,
            }
        },
        LogicalPlan::Filter { input, .. } => match estimate_hash_join_rows(storage, input) {
            Some(n) => Some(estimate_filtered_rows(n)),
            None => None,
        },
        LogicalPlan::Project { input, .. } => estimate_hash_join_rows(storage, input),
        LogicalPlan::Sort { input, .. } => estimate_hash_join_rows(storage, input),
        LogicalPlan::Limit { input, limit, .. } => match estimate_hash_join_rows(storage, input) {
            Some(n) => Some(
                if n <= *limit {
                    n
                } else {
                    *limit
                },
            ),
            None => None,
        },
        _ => None,
    }
}

/// Whether the left side of an inner join is so much smaller that the table of
/// keys is built from it.
pub fn should_build_left_for_inner(left_rows: Option<usize>, right_rows: Option<usize>) -> (r: bool)
    ensures
        r == builds_left(left_rows, right_rows),
{
    match (left_rows, right_rows) {
        (Some(l), Some(n)) => capped_times(l, 4) < n,
        _ => false,
    }
}

pub open spec fn builds_left(left_rows: Option<usize>, right_rows: Option<usize>) -> bool {
    match (left_rows, right_rows) {
        (Some(l), Some(r)) => l * 4 < r,
        _ => false,
    }
}

/// Whether looking up the right side row by row is expected to be cheaper than
/// building a table of its keys.
pub open spec fn tries_lookups(off: bool, left_rows: Option<usize>, right_rows: Option<usize>) -> bool {
    !off && match (left_rows, right_rows) {
        (Some(l), Some(r)) => l <= 128 || join_pair::capped((l * 8) as nat) <= r,
        (Some(l), None) => l <= 128,
        _ => false,
    }
}

/// Whether looking up the right side row by row is expected to be cheaper than
/// building a table of its keys.
pub fn should_try_index_nested_loop_join(
    off: bool,
    left_rows: Option<usize>,
    right_rows: Option<usize>,
) -> (r: bool)
    ensures
        r == tries_lookups(off, left_rows, right_rows),
{
    if off {
        return false;
    }
    match (left_rows, right_rows) {
        (Some(l), Some(n)) => l <= 128 || capped_times(l, 8) <= n,
        (Some(l), None) => l <= 128,
        _ => false,
    }
}

/// Whether a plan is a scan, perhaps under projections without a name of their
/// own.
pub open spec fn plain_scan(p: PlanModel) -> bool
    decreases p,
{
    match p {
        PlanModel::Scan { table_name, alias, schema, projection, as_of } => true,
        PlanModel::Project { input, exprs, aliases, distinct, distinct_on, source_alias } =>
            source_alias is None && plain_scan(*input),
        _ => false,
    }
}

/// Whether a plan is a scan, perhaps under projections without a name of their
/// own.
pub fn is_plain_scan_like(plan: &LogicalPlan) -> (r: bool)
    ensures
        r == plain_scan(plan@),
    decreases plan,
{
    match plan {
        LogicalPlan::Scan { .. } => true,
        LogicalPlan::Project { input, source_alias, .. } => source_alias.is_none()
            && is_plain_scan_like(input),
        _ => false,
    }
}

/// The table that a plan scans: its name, its alias and its columns.
pub struct ScanInfo {
    pub table: String,
    pub alias: Option<String>,
    pub schema: Arc<Schema>,
}

#[verifier::ext_equal]
pub struct ScanInfoModel {
    pub table: Seq<char>,
    pub alias: Option<Seq<char>>,
    pub columns: Seq<ColumnModel>,
}

impl View for ScanInfo {
    type V = ScanInfoModel;

    open spec fn view(&self) -> ScanInfoModel {
        ScanInfoModel {
            table: self.table@,
            alias: schema::opt_text(self.alias),
            columns: self.schema@,
        }
    }
}

pub open spec fn scan_info(p: PlanModel) -> Option<ScanInfoModel>
    decreases p,
{
    match p {
        PlanModel::Scan { table_name, alias, schema, projection, as_of } => Some(
            ScanInfoModel { table: table_name, alias, columns: schema },
        ),
        PlanModel::Filter { input, predicate } => scan_info(*input),
        PlanModel::Project { input, exprs, aliases, distinct, distinct_on, source_alias } =>
            if source_alias is None {
            scan_info(*input)
        } else {
            None
        },
        _ => None,
    }
}

pub open spec fn opt_info(i: Option<ScanInfo>) -> Option<ScanInfoModel> {
    match i {
        Some(x) => Some(x@),
        None => None,
    }
}

/// The table that a plan scans.
pub fn extract_scan_info(plan: &LogicalPlan) -> (r: Option<ScanInfo>)
    ensures
        opt_info(r) == scan_info(plan@),
    decreases plan,
{
    match plan {
        LogicalPlan::Scan { table_name, alias, schema, .. } => Some(
            ScanInfo { table: table_name.clone(), alias: alias.clone(), schema: schema.clone() },
        ),
        LogicalPlan::Filter { input, .. } => extract_scan_info(input),
        LogicalPlan::Project { input, source_alias, .. } => if source_alias.is_none() {
            extract_scan_info(input)
        } else {
            None
        },
        _ => None,
    }
}

/// A column name of one side that an equality compares with a column of the
/// table on the right.
pub type Named = (Option<Seq<char>>, Seq<char>);

/// Which of two compared columns belongs to the right table, with the other one
/// first.
pub open spec fn right_side(pair: (Named, Named), info: ScanInfoModel) -> Option<(Named, Named)> {
    if join_keys::names_table(pair.1, info.table, info.alias) {
        Some((pair.0, pair.1))
    } else if join_keys::names_table(pair.0, info.table, info.alias) {
        Some((pair.1, pair.0))
    } else {
        None
    }
}

/// Whether one of the first `n` equalities compares an indexed column of the
/// right table.
pub open spec fn any_pair_indexed(
    pairs: Seq<(Named, Named)>,
    n: nat,
    info: ScanInfoModel,
    store: StoreModel,
) -> bool
    decreases n,
{
    n != 0 && n <= pairs.len() && (any_pair_indexed(pairs, (n - 1) as nat, info, store) || (
    match right_side(pairs[n - 1], info) {
        Some(p) => index_lookup::index_on(store.indexes, info.table, p.1.1, 0) is Some,
        None => false,
    }))
}

/// Whether a join condition compares an indexed column of the right table.
pub open spec fn right_key_indexed(
    store: Option<StoreModel>,
    right: PlanModel,
    condition: ExprModel,
) -> bool {
    match (store, scan_info(right)) {
        (Some(s), Some(info)) => any_pair_indexed(
            join_keys::column_pairs(condition),
            join_keys::column_pairs(condition).len(),
            info,
            s,
        ),
        _ => false,
    }
}

/// Whether a join condition compares an indexed column of the right table.
pub fn right_join_key_has_index(
    storage: Option<&StorageView>,
    right: &LogicalPlan,
    condition: &LogicalExpr,
) -> (r: bool)
    ensures
        r == right_key_indexed(storage_view::opt_store(storage), right@, condition@),
{
    let store: &StorageView = match storage {
        Some(s) => s,
        None => {
            return false;
        },
    };
    let info: ScanInfo = match extract_scan_info(right) {
        Some(i) => i,
        None => {
            return false;
        },
    };
    let mut pairs: Vec<((Option<String>, String), (Option<String>, String))> = Vec::new();
    join_keys::collect_equi_column_pairs(condition, &mut pairs);
    let ghost all = join_keys::column_pairs(condition@);
    assert(join_keys::named_pairs(pairs@) =~= all);
    let mut any: bool = false;
    for i in 0..pairs.len()
        invariant
            join_keys::named_pairs(pairs@) == all,
            any == any_pair_indexed(all, i as nat, info@, store@),
    {
        assert(all[i as int] == join_keys::named_pair(pairs@[i as int]));
        let alias: Option<&str> = schema::as_str(&info.alias);
        let here: bool = if join_keys::column_matches_table(
            &pairs[i].1,
            info.table.as_str(),
            alias,
        ) {
            index_lookup::find_column_index(
                &store.indexes,
                info.table.as_str(),
                pairs[i].1.1.as_str(),
            ).is_some()
        } else if join_keys::column_matches_table(&pairs[i].0, info.table.as_str(), alias) {
            index_lookup::find_column_index(
                &store.indexes,
                info.table.as_str(),
                pairs[i].0.1.as_str(),
            ).is_some()
        } else {
            false
        };
        any = any || here;
    }
    assert(all.len() == pairs.len());
    any
}

/// The column that an equality compares with a literal or a parameter.
pub open spec fn compared_with_constant(e: ExprModel) -> Option<Named> {
    match e {
        ExprModel::BinaryExpr { left, op: BinaryOperator::Eq, right } => match (*left, *right) {
            (ExprModel::Column { table, name }, ExprModel::Literal(_)) => Some((table, name)),
            (ExprModel::Column { table, name }, ExprModel::Parameter { index }) => Some(
                (table, name),
            ),
            (ExprModel::Literal(_), ExprModel::Column { table, name }) => Some((table, name)),
            (ExprModel::Parameter { index }, ExprModel::Column { table, name }) => Some(
                (table, name),
            ),
            _ => None,
        },
        _ => None,
    }
}

/// Whether a schema has a column of some name, upper or lower case.
pub open spec fn has_name(cols: Seq<ColumnModel>, name: Seq<char>) -> bool {
    exists|i: int| 0 <= i < cols.len() && text::same_ignoring_case(#[trigger] cols[i].name, name)
}

/// Whether a qualifier is a table's name or alias, upper or lower case.
pub open spec fn qualifies(q: Seq<char>, table: Seq<char>, alias: Option<Seq<char>>) -> bool {
    text::same_ignoring_case(q, table) || match alias {
        Some(a) => text::same_ignoring_case(q, a),
        None => false,
    }
}

/// Whether a predicate picks the rows of one value of an indexed column.
pub open spec fn selective(
    store: Option<StoreModel>,
    table: Seq<char>,
    alias: Option<Seq<char>>,
    cols: Seq<ColumnModel>,
    predicate: ExprModel,
) -> bool {
    match (compared_with_constant(predicate), store) {
        (Some(c), Some(s)) => (match c.0 {
            Some(q) => qualifies(q, table, alias),
            None => true,
        }) && has_name(cols, c.1) && index_lookup::index_on(s.indexes, table, c.1, 0) is Some,
        _ => false,
    }
}

/// Whether a qualifier is a table's name or alias, upper or lower case.
pub fn qualifier_matches_join_input(table_name: &str, alias: Option<&str>, qualifier: &str) -> (r: bool)
    ensures
        r == qualifies(qualifier@, table_name@, schema::opt_str(alias)),
{
    text::eq_ignore_ascii_case(qualifier, table_name) || match alias {
        Some(a) => text::eq_ignore_ascii_case(qualifier, a),
        None => false,
    }
}

fn constant_column<'a>(e: &'a LogicalExpr) -> (r: Option<(&'a Option<String>, &'a String)>)
    ensures
        match r {
            Some(c) => compared_with_constant(e@) == Some((schema::opt_text(*c.0), c.1@)),
            None => compared_with_constant(e@) is None,
        },
{
    match e {
        LogicalExpr::BinaryExpr { left, op: BinaryOperator::Eq, right } => {
            let ghost l = (**left)@;
            let ghost r = (**right)@;
            assert(e@ == ExprModel::BinaryExpr {
                left: Box::new(l),
                op: BinaryOperator::Eq,
                right: Box::new(r),
            });
            match (&**left, &**right) {
                (LogicalExpr::Column { table, name }, LogicalExpr::Literal(_)) => Some(
                    (table, name),
                ),
                (LogicalExpr::Column { table, name }, LogicalExpr::Parameter { .. }) => Some(
                    (table, name),
                ),
                (LogicalExpr::Literal(_), LogicalExpr::Column { table, name }) => Some(
                    (table, name),
                ),
                (LogicalExpr::Parameter { .. }, LogicalExpr::Column { table, name }) => Some(
                    (table, name),
                ),
                _ => None,
            }
        },
        _ => None,
    }
}

fn schema_has_name(schema: &Schema, name: &str) -> (r: bool)
    ensures
        r == has_name(schema@, name@),
{
    for i in 0..schema.columns.len()
        invariant
            forall|j: int|
                0 <= j < i ==> !text::same_ignoring_case(#[trigger] schema@[j].name, name@),
    {
        assert(schema@[i as int] == schema.columns@[i as int]@);
        if text::eq_ignore_ascii_case(schema.columns[i].name.as_str(), name) {
            assert(text::same_ignoring_case(schema@[i as int].name, name@));
            return true;
        }
    }
    assert(schema@.len() == schema.columns.len());
    false
}

/// Whether a predicate picks the rows of one value of an indexed column.
pub fn indexed_equality_predicate_is_selective(
    storage: Option<&StorageView>,
    table_name: &str,
    alias: Option<&str>,
    schema: &Schema,
    predicate: &LogicalExpr,
) -> (r: bool)
    ensures
        r == selective(
            storage_view::opt_store(storage),
            table_name@,
            schema::opt_str(alias),
            schema@,
            predicate@,
        ),
{
    let (table, name): (&Option<String>, &String) = match constant_column(predicate) {
        Some(c) => c,
        None => {
            return false;
        },
    };
    if let Some(q) = table {
        if !qualifier_matches_join_input(table_name, alias, q.as_str()) {
            return false;
        }
    }
    if !schema_has_name(schema, name.as_str()) {
        return false;
    }
    match storage {
        Some(s) => index_lookup::find_column_index(
            &s.indexes,
            table_name,
            name.as_str(),
        ).is_some(),
        None => false,
    }
}

/// How many rows the left side of a join is expected to look up, where that can
/// be told from its indexes.
pub open spec fn lookup_estimate(store: Option<StoreModel>, p: PlanModel) -> Option<usize>
    decreases p,
{
    match p {
        PlanModel::FilteredScan { table_name, alias, schema, projection, predicate, as_of } =>
            match predicate {
            Some(e) => if selective(store, table_name, alias, schema, e) {
                Some(1)
            } else {
                None
            },
            None => None,
        },
        PlanModel::Filter { input, predicate } => match lookup_estimate(store, *input) {
            Some(n) => Some(filtered_estimate(n)),
            None => None,
        },
        PlanModel::Project { input, exprs, aliases, distinct, distinct_on, source_alias } =>
            lookup_estimate(store, *input),
        PlanModel::Sort { input, exprs, asc } => lookup_estimate(store, *input),
        PlanModel::Limit { input, limit, offset, limit_param, offset_param } =>
            match lookup_estimate(store, *input) {
            Some(n) => Some(smaller(n, limit)),
            None => None,
        },
        PlanModel::Join { left, right, join_type, on, lateral } => match on {
            Some(condition) => if lateral || join_type != JoinType::Inner {
                None
            } else {
                match lookup_estimate(store, *left) {
                    Some(n) => if n > 128 || !plain_scan(*right) || !right_key_indexed(
                        store,
                        *right,
                        condition,
                    ) {
                        None
                    } else {
                        Some(smaller(join_pair::capped((n * 8) as nat), 128))
                    },
                    None => None,
                }
            },
            None => None,
        },
        _ => None,
    }
}

/// How many rows the left side of a join is expected to look up.
pub fn estimate_index_nested_loop_probe_rows(storage: Option<&StorageView>, plan: &LogicalPlan) -> (r:
    Option<usize>)
    ensures
        r == lookup_estimate(storage_view::opt_store(storage), plan@),
    decreases plan,
{
    match plan {
        LogicalPlan::FilteredScan { table_name, alias, schema, predicate, .. } => match predicate {
            Some(p) => if indexed_equality_predicate_is_selective(
                storage,
                table_name.as_str(),
                schema::as_str(alias),
                schema,
                p,
            ) {
                Some(1)
            } else {
                None
            },
            None => None,
        },
        LogicalPlan::Filter { input, .. } => match estimate_index_nested_loop_probe_rows(
            storage,
            input,
        ) {
            Some(n) => Some(estimate_filtered_rows(n)),
            None => None,
        },
        LogicalPlan::Project { input, .. } => estimate_index_nested_loop_probe_rows(storage, input),
        LogicalPlan::Sort { input, .. } => estimate_index_nested_loop_probe_rows(storage, input),
        LogicalPlan::Limit { input, limit, .. } => match estimate_index_nested_loop_probe_rows(
            storage,
            input,
        ) {
            Some(n) => Some(
                if n <= *limit {
                    n
                } else {
                    *limit
                },
            ),
            None => None,
        },
        LogicalPlan::Join { left, right, join_type, on, lateral } => match on {
            Some(condition) => {
                if *lateral || *join_type != JoinType::Inner {
                    return None;
                }
                let n: usize = match estimate_index_nested_loop_probe_rows(storage, left) {
                    Some(n) => n,
                    None => {
                        return None;
                    },
                };
                if n > 128 || !is_plain_scan_like(right) || !right_join_key_has_index(
                    storage,
                    right,
                    condition,
                ) {
                    return None;
                }
                let wide: usize = capped_times(n, 8);
                Some(
                    if wide <= 128 {
                        wide
                    } else {
                        128
                    },
                )
            },
            None => None,
        },
        _ => None,
    }
}

/// How a join looks up the rows of its right side.
pub struct LookupPlan {
    pub info: ScanInfo,
    pub index_name: String,
    pub left_column: (Option<String>, String),
    pub right_type: Option<DataType>,
}

#[verifier::ext_equal]
pub struct LookupModel {
    pub info: ScanInfoModel,
    pub index_name: Seq<char>,
    pub left_column: Named,
    pub right_type: Option<DataType>,
}

impl View for LookupPlan {
    type V = LookupModel;

    open spec fn view(&self) -> LookupModel {
        LookupModel {
            info: self.info@,
            index_name: self.index_name@,
            left_column: join_keys::named(self.left_column),
            right_type: self.right_type,
        }
    }
}

/// The type of the first column of some name, upper or lower case.
pub open spec fn type_named(cols: Seq<ColumnModel>, name: Seq<char>, from: int) -> Option<DataType>
    decreases cols.len() - from,
{
    if from < 0 || from >= cols.len() {
        None
    } else if text::same_ignoring_case(cols[from].name, name) {
        Some(cols[from].data_type)
    } else {
        type_named(cols, name, from + 1)
    }
}

fn find_type(schema: &Schema, name: &str) -> (r: Option<DataType>)
    ensures
        r == type_named(schema@, name@, 0),
{
    let mut i: usize = 0;
    while i < schema.columns.len()
        invariant
            i <= schema.columns.len(),
            type_named(schema@, name@, 0) == type_named(schema@, name@, i as int),
        decreases schema.columns.len() - i,
    {
        assert(schema@[i as int] == schema.columns@[i as int]@);
        if text::eq_ignore_ascii_case(schema.columns[i].name.as_str(), name) {
            return Some(schema.columns[i].data_type.clone());
        }
        i = i + 1;
    }
    None
}

/// How a join can look up the rows of its right side: its condition is one
/// equality with an indexed column of a table whose current state may be read.
pub open spec fn lookup_plan(
    store: Option<StoreModel>,
    txn: Option<storage_view::TransactionModel>,
    right: PlanModel,
    condition: ExprModel,
) -> Option<LookupModel> {
    match (store, scan_info(right), join_keys::equal_columns(condition)) {
        (Some(s), Some(info), Some(pair)) => match right_side(pair, info) {
            Some(p) => match index_lookup::index_on(s.indexes, info.table, p.1.1, 0) {
                Some(index_name) => if s.branch_active || storage_view::reads_table_slowly(
                    txn,
                    info.table,
                ) {
                    None
                } else {
                    Some(
                        LookupModel {
                            info,
                            index_name,
                            left_column: p.0,
                            right_type: type_named(info.columns, p.1.1, 0),
                        },
                    )
                },
                None => None,
            },
            None => None,
        },
        _ => None,
    }
}

/// A condition of several terms is never answered by one lookup.
pub proof fn law_lookup_is_the_whole_condition(
    store: Option<StoreModel>,
    txn: Option<storage_view::TransactionModel>,
    right: PlanModel,
    a: ExprModel,
    b: ExprModel,
)
    ensures
        lookup_plan(
            store,
            txn,
            right,
            (ExprModel::BinaryExpr {
                left: Box::new(a),
                op: BinaryOperator::And,
                right: Box::new(b),
            }),
        ) is None,
{
}

/// How a join can look up the rows of its right side.
pub fn plan_lookups(
    storage: Option<&StorageView>,
    txn: Option<&storage_view::TransactionView>,
    right: &LogicalPlan,
    condition: &LogicalExpr,
) -> (r: Option<LookupPlan>)
    ensures
        match r {
            Some(p) => lookup_plan(
                storage_view::opt_store(storage),
                storage_view::opt_txn(txn),
                right@,
                condition@,
            ) == Some(p@),
            None => lookup_plan(
                storage_view::opt_store(storage),
                storage_view::opt_txn(txn),
                right@,
                condition@,
            ) is None,
        },
{
    let store: &StorageView = match storage {
        Some(s) => s,
        None => {
            return None;
        },
    };
    if store.branch_active {
        return None;
    }
    let info: ScanInfo = match extract_scan_info(right) {
        Some(i) => i,
        None => {
            return None;
        },
    };
    let (left_col, right_col): ((Option<String>, String), (Option<String>, String)) =
        match join_keys::extract_equi_columns(condition) {
        Some(p) => p,
        None => {
            return None;
        },
    };
    let alias: Option<&str> = schema::as_str(&info.alias);
    let (other, own): ((Option<String>, String), (Option<String>, String)) =
        if join_keys::column_matches_table(&right_col, info.table.as_str(), alias) {
        (left_col, right_col)
    } else if join_keys::column_matches_table(&left_col, info.table.as_str(), alias) {
        (right_col, left_col)
    } else {
        return None;
    };
    let index_name: String = match index_lookup::find_column_index(
        &store.indexes,
        info.table.as_str(),
        own.1.as_str(),
    ) {
        Some(n) => n,
        None => {
            return None;
        },
    };
    if storage_view::txn_forces_slow_reads_for_table(txn, info.table.as_str()) {
        return None;
    }
    let right_type: Option<DataType> = find_type(&info.schema, own.1.as_str());
    Some(LookupPlan { info, index_name, left_column: other, right_type })
}

fn same_type(a: &DataType, b: &DataType) -> (r: bool)
    ensures
        r == (*a == *b),
    decreases a,
{
    match (a, b) {
        (DataType::Boolean, DataType::Boolean) => true,
        (DataType::Int2, DataType::Int2) => true,
        (DataType::Int4, DataType::Int4) => true,
        (DataType::Int8, DataType::Int8) => true,
        (DataType::Float4, DataType::Float4) => true,
        (DataType::Float8, DataType::Float8) => true,
        (DataType::Numeric, DataType::Numeric) => true,
        (DataType::Text, DataType::Text) => true,
        (DataType::Varchar(x), DataType::Varchar(y)) => match (x, y) {
            (Some(m), Some(n)) => *m == *n,
            (None, None) => true,
            _ => false,
        },
        (DataType::Char(x), DataType::Char(y)) => *x == *y,
        (DataType::Bytea, DataType::Bytea) => true,
        (DataType::Uuid, DataType::Uuid) => true,
        (DataType::Date, DataType::Date) => true,
        (DataType::Time, DataType::Time) => true,
        (DataType::Timestamp, DataType::Timestamp) => true,
        (DataType::Timestamptz, DataType::Timestamptz) => true,
        (DataType::Interval, DataType::Interval) => true,
        (DataType::Json, DataType::Json) => true,
        (DataType::Jsonb, DataType::Jsonb) => true,
        (DataType::Vector(x), DataType::Vector(y)) => *x == *y,
        (DataType::Array(x), DataType::Array(y)) => same_type(x, y),
        _ => false,
    }
}

/// The position of the looked-up value in a left row: of a column with the same
/// type as the indexed one, since keys of other types are spelled otherwise.
pub open spec fn lookup_position(p: LookupModel, left: Seq<ColumnModel>) -> Option<usize> {
    match schema::qualified_index(left, p.left_column.0, p.left_column.1) {
        Some(i) => if p.right_type == Some(left[i as int].data_type) {
            Some(i)
        } else {
            None
        },
        None => None,
    }
}

/// The position of the looked-up value in a left row.
pub fn find_lookup_position(p: &LookupPlan, left: &Schema) -> (r: Option<usize>)
    ensures
        r == lookup_position(p@, left@),
{
    match join_keys::find_column_index(
        left,
        schema::as_str(&p.left_column.0),
        p.left_column.1.as_str(),
    ) {
        Some(i) => {
            assert(left@[i as int] == left.columns@[i as int]@);
            match &p.right_type {
                Some(t) => if same_type(&left.columns[i].data_type, t) {
                    Some(i)
                } else {
                    None
                },
                None => None,
            }
        },
        None => None,
    }
}

/// The rows that one left row gives with the rows that were looked up for it.
pub open spec fn looked_up_rows(
    left: TupleModel,
    position: usize,
    entries: Seq<(ValueModel, u64)>,
    rows: Seq<TupleModel>,
    right_width: nat,
    keep_left: bool,
) -> Seq<TupleModel> {
    let alone = if keep_left {
        seq![join_pair::left_alone(left, right_width)]
    } else {
        Seq::empty()
    };
    if position >= left.values.len() || left.values[position as int] == ValueModel::Null {
        alone
    } else {
        let ids = storage_view::ids_at(entries, left.values[position as int]);
        if ids.len() == 0 {
            alone
        } else {
            let found = storage_view::rows_with_ids(rows, ids);
            Seq::new(found.len(), |i: int| join_pair::combined_row(left, found[i]))
        }
    }
}

/// The rows of the first `n` left rows.
pub open spec fn lookup_join(
    left: Seq<TupleModel>,
    n: nat,
    position: usize,
    entries: Seq<(ValueModel, u64)>,
    rows: Seq<TupleModel>,
    right_width: nat,
    keep_left: bool,
) -> Seq<TupleModel>
    decreases n,
{
    if n == 0 || n > left.len() {
        Seq::empty()
    } else {
        lookup_join(left, (n - 1) as nat, position, entries, rows, right_width, keep_left)
            + looked_up_rows(left[n - 1], position, entries, rows, right_width, keep_left)
    }
}

fn look_up_row(
    left: &Tuple,
    position: usize,
    entries: &Vec<IndexEntry>,
    rows: &Vec<Tuple>,
    right_width: usize,
    keep_left: bool,
) -> (r: Vec<Tuple>)
    ensures
        schema::rows_model(r@) == looked_up_rows(
            left@,
            position,
            storage_view::entries_model(entries@),
            schema::rows_model(rows@),
            right_width as nat,
            keep_left,
        ),
{
    let mut alone: Vec<Tuple> = Vec::new();
    assert(schema::rows_model(alone@) =~= Seq::<TupleModel>::empty());
    if keep_left {
        alone.push(join_pair::join_with_nulls_right(left, right_width));
        assert(schema::rows_model(alone@) =~= seq![
            join_pair::left_alone(left@, right_width as nat),
        ]);
    }
    let key: &Value = match left.get(position) {
        Some(v) => v,
        None => {
            return alone;
        },
    };
    if let Value::Null = key {
        return alone;
    }
    let ids: Vec<u64> = storage_view::index_get_all(entries, key);
    if ids.len() == 0 {
        return alone;
    }
    let found: Vec<Tuple> = storage_view::fetch_rows(rows, &ids);
    let ghost fm = schema::rows_model(found@);
    let mut out: Vec<Tuple> = Vec::new();
    for i in 0..found.len()
        invariant
            fm == schema::rows_model(found@),
            out.len() == i,
            forall|j: int|
                0 <= j < i ==> (#[trigger] out@[j])@ == join_pair::combined_row(left@, fm[j]),
    {
        out.push(join_pair::join_tuples(left, &found[i]));
    }
    assert(schema::rows_model(out@) =~= Seq::new(
        fm.len(),
        |i: int| join_pair::combined_row(left@, fm[i]),
    ));
    out
}

/// Joins left rows with the rows that are looked up for them.
pub fn join_by_lookups(
    left: &Vec<Tuple>,
    position: usize,
    entries: &Vec<IndexEntry>,
    rows: &Vec<Tuple>,
    right_width: usize,
    keep_left: bool,
) -> (r: Vec<Tuple>)
    ensures
        schema::rows_model(r@) == lookup_join(
            schema::rows_model(left@),
            left@.len(),
            position,
            storage_view::entries_model(entries@),
            schema::rows_model(rows@),
            right_width as nat,
            keep_left,
        ),
{
    let ghost lm = schema::rows_model(left@);
    let ghost em = storage_view::entries_model(entries@);
    let ghost rm = schema::rows_model(rows@);
    let mut out: Vec<Tuple> = Vec::new();
    assert(schema::rows_model(out@) =~= Seq::<TupleModel>::empty());
    for i in 0..left.len()
        invariant
            lm == schema::rows_model(left@),
            em == storage_view::entries_model(entries@),
            rm == schema::rows_model(rows@),
            schema::rows_model(out@) == lookup_join(
                lm,
                i as nat,
                position,
                em,
                rm,
                right_width as nat,
                keep_left,
            ),
    {
        let ghost was = schema::rows_model(out@);
        assert(lm[i as int] == left@[i as int]@);
        let mut more: Vec<Tuple> = look_up_row(
            &left[i],
            position,
            entries,
            rows,
            right_width,
            keep_left,
        );
        let ghost mm = schema::rows_model(more@);
        out.append(&mut more);
        assert(schema::rows_model(out@) =~= was + mm);
    }
    out
}

/// The table that a join input reads, and whether its columns are cut down
/// already.
pub open spec fn leaf_info(p: PlanModel) -> Option<(ScanInfoModel, bool)>
    decreases p,
{
    match p {
        PlanModel::Scan { table_name, alias, schema, projection, as_of } => Some(
            (ScanInfoModel { table: table_name, alias, columns: schema }, projection is Some),
        ),
        PlanModel::FilteredScan { table_name, alias, schema, projection, predicate, as_of } => Some(
            (ScanInfoModel { table: table_name, alias, columns: schema }, projection is Some),
        ),
        PlanModel::Filter { input, predicate } => leaf_info(*input),
        _ => None,
    }
}

/// The table that a join input reads, and whether its columns are cut down
/// already.
pub fn join_input_leaf_info(plan: &LogicalPlan) -> (r: Option<(ScanInfo, bool)>)
    ensures
        match r {
            Some(i) => leaf_info(plan@) == Some((i.0@, i.1)),
            None => leaf_info(plan@) is None,
        },
    decreases plan,
{
    match plan {
        LogicalPlan::Scan { table_name, alias, schema, projection, .. } => Some(
            (
                ScanInfo {
                    table: table_name.clone(),
                    alias: alias.clone(),
                    schema: schema.clone(),
                },
                projection.is_some(),
            ),
        ),
        LogicalPlan::FilteredScan { table_name, alias, schema, projection, .. } => Some(
            (
                ScanInfo {
                    table: table_name.clone(),
                    alias: alias.clone(),
                    schema: schema.clone(),
                },
                projection.is_some(),
            ),
        ),
        LogicalPlan::Filter { input, .. } => join_input_leaf_info(input),
        _ => None,
    }
}

/// The position of the first column of some name, upper or lower case.
pub open spec fn position_named(cols: Seq<ColumnModel>, name: Seq<char>, from: int) -> Option<int>
    decreases cols.len() - from,
{
    if from < 0 || from >= cols.len() {
        None
    } else if text::same_ignoring_case(cols[from].name, name) {
        Some(from)
    } else {
        position_named(cols, name, from + 1)
    }
}

fn find_position(schema: &Schema, name: &str) -> (r: Option<usize>)
    ensures
        match r {
            Some(i) => position_named(schema@, name@, 0) == Some(i as int) && i
                < schema.columns.len(),
            None => position_named(schema@, name@, 0) is None,
        },
{
    let mut i: usize = 0;
    while i < schema.columns.len()
        invariant
            i <= schema.columns.len(),
            position_named(schema@, name@, 0) == position_named(schema@, name@, i as int),
        decreases schema.columns.len() - i,
    {
        assert(schema@[i as int] == schema.columns@[i as int]@);
        if text::eq_ignore_ascii_case(schema.columns[i].name.as_str(), name) {
            return Some(i);
        }
        i = i + 1;
    }
    None
}

/// Marks the columns of a table that an expression reads. `None` where it
/// cannot be told whose column a name is, or the table has no such column.
pub open spec fn marked(e: ExprModel, info: ScanInfoModel, marks: Seq<bool>) -> Option<Seq<bool>>
    decreases e, 1int, 0nat,
{
    match e {
        ExprModel::Column { table, name } => match table {
            Some(q) => if qualifies(q, info.table, info.alias) {
                match position_named(info.columns, name, 0) {
                    Some(i) => Some(marks.update(i, true)),
                    None => None,
                }
            } else {
                Some(marks)
            },
            None => None,
        },
        ExprModel::Wildcard => None,
        ExprModel::BoundColumn { index, table, name } => None,
        ExprModel::ScalarSubquery { subquery } => None,
        ExprModel::InSubquery { expr, subquery, negated } => None,
        ExprModel::Exists { subquery, negated } => None,
        ExprModel::NewRow { column } => None,
        ExprModel::OldRow { column } => None,
        _ => marked_parts(e, expr_tree::parts(e).len(), info, marks),
    }
}

/// Marks the columns that the first `n` parts of an expression read.
pub open spec fn marked_parts(
    e: ExprModel,
    n: nat,
    info: ScanInfoModel,
    marks: Seq<bool>,
) -> Option<Seq<bool>>
    decreases e, 0int, n,
{
    if n == 0 || n > expr_tree::parts(e).len() {
        Some(marks)
    } else {
        proof {
            expr_tree::lemma_parts_are_smaller(e);
        }
        match marked_parts(e, (n - 1) as nat, info, marks) {
            Some(m) => marked(expr_tree::parts(e)[n - 1], info, m),
            None => None,
        }
    }
}

proof fn lemma_marked_parts_stop(
    e: ExprModel,
    n: nat,
    m: nat,
    info: ScanInfoModel,
    marks: Seq<bool>,
)
    requires
        marked_parts(e, n, info, marks) is None,
        n <= m <= expr_tree::parts(e).len(),
    ensures
        marked_parts(e, m, info, marks) is None,
    decreases m - n,
{
    if n < m {
        lemma_marked_parts_stop(e, n, (m - 1) as nat, info, marks);
    }
}

/// Marks the columns of a table that an expression reads.
pub fn collect_join_input_expr_columns(info: &ScanInfo, expr: &LogicalExpr, marks: &mut Vec<bool>) -> (r:
    bool)
    requires
        old(marks).len() == info.schema@.len(),
    ensures
        final(marks).len() == old(marks).len(),
        r == (marked(expr@, info@, old(marks)@) is Some),
        r ==> marked(expr@, info@, old(marks)@) == Some(final(marks)@),
    decreases expr,
{
    let ghost before = marks@;
    match expr {
        LogicalExpr::Column { table, name } => {
            match table {
                Some(q) => {
                    if qualifier_matches_join_input(
                        info.table.as_str(),
                        schema::as_str(&info.alias),
                        q.as_str(),
                    ) {
                        match find_position(&info.schema, name.as_str()) {
                            Some(i) => {
                                marks.set(i, true);
                                true
                            },
                            None => false,
                        }
                    } else {
                        true
                    }
                },
                None => false,
            }
        },
        LogicalExpr::Wildcard => false,
        LogicalExpr::BoundColumn { .. } => false,
        LogicalExpr::ScalarSubquery { .. } => false,
        LogicalExpr::InSubquery { .. } => false,
        LogicalExpr::Exists { .. } => false,
        LogicalExpr::NewRow { .. } => false,
        LogicalExpr::OldRow { .. } => false,
        _ => {
            let v: Vec<&LogicalExpr> = expr_tree::expr_parts(expr);
            assert(expr_tree::borrowed_model(v@).len() == expr_tree::parts(expr@).len());
            assert(marked(expr@, info@, before) == marked_parts(
                expr@,
                expr_tree::parts(expr@).len(),
                info@,
                before,
            ));
            let mut i: usize = 0;
            while i < v.len()
                invariant
                    i <= v.len(),
                    v.len() == expr_tree::parts(expr@).len(),
                    expr_tree::borrowed_model(v@) == expr_tree::parts(expr@),
                    forall|j: int| 0 <= j < v.len() ==> decreases_to!(*expr => *#[trigger] v@[j]),
                    marks.len() == info.schema@.len(),
                    before == old(marks)@,
                    before.len() == info.schema@.len(),
                    marked(expr@, info@, before) == marked_parts(
                        expr@,
                        expr_tree::parts(expr@).len(),
                        info@,
                        before,
                    ),
                    marked_parts(expr@, i as nat, info@, before) == Some(marks@),
                decreases v.len() - i,
            {
                assert(decreases_to!(*expr => *v@[i as int]));
                assert(expr_tree::parts(expr@)[i as int] == v@[i as int]@);
                if !collect_join_input_expr_columns(info, v[i], marks) {
                    proof {
                        lemma_marked_parts_stop(
                            expr@,
                            (i + 1) as nat,
                            expr_tree::parts(expr@).len(),
                            info@,
                            before,
                        );
                    }
                    return false;
                }
                i = i + 1;
            }
            true
        },
    }
}

/// Marks the columns that several expressions read, the first `n` of them.
pub open spec fn all_marked(
    s: Seq<ExprModel>,
    n: nat,
    info: ScanInfoModel,
    marks: Seq<bool>,
) -> Option<Seq<bool>>
    decreases n,
{
    if n == 0 || n > s.len() {
        Some(marks)
    } else {
        match all_marked(s, (n - 1) as nat, info, marks) {
            Some(m) => marked(s[n - 1], info, m),
            None => None,
        }
    }
}

/// The predicates of the filters that stand on a join input, outermost first.
/// `None` where the input is anything but filters on a scan.
pub open spec fn local_filters(p: PlanModel) -> Option<Seq<ExprModel>>
    decreases p,
{
    match p {
        PlanModel::Filter { input, predicate } => match local_filters(*input) {
            Some(s) => Some(seq![predicate] + s),
            None => None,
        },
        PlanModel::FilteredScan { table_name, alias, schema, projection, predicate, as_of } => Some(
            Seq::empty(),
        ),
        PlanModel::Scan { table_name, alias, schema, projection, as_of } => Some(Seq::empty()),
        _ => None,
    }
}

/// The predicates of the filters that stand on a join input.
pub fn collect_local_filters(plan: &LogicalPlan) -> (r: Option<Vec<LogicalExpr>>)
    ensures
        match r {
            Some(v) => local_filters(plan@) == Some(logical_plan::exprs_model(v@)),
            None => local_filters(plan@) is None,
        },
    decreases plan,
{
    match plan {
        LogicalPlan::Filter { input, predicate } => {
            let mut rest: Vec<LogicalExpr> = match collect_local_filters(input) {
                Some(v) => v,
                None => {
                    return None;
                },
            };
            let ghost rm = logical_plan::exprs_model(rest@);
            let mut out: Vec<LogicalExpr> = Vec::new();
            out.push(predicate.clone());
            out.append(&mut rest);
            assert(logical_plan::exprs_model(out@) =~= seq![predicate@] + rm);
            Some(out)
        },
        LogicalPlan::FilteredScan { .. } => {
            let out: Vec<LogicalExpr> = Vec::new();
            assert(logical_plan::exprs_model(out@) =~= Seq::<ExprModel>::empty());
            Some(out)
        },
        LogicalPlan::Scan { .. } => {
            let out: Vec<LogicalExpr> = Vec::new();
            assert(logical_plan::exprs_model(out@) =~= Seq::<ExprModel>::empty());
            Some(out)
        },
        _ => None,
    }
}

/// The marked positions, in order.
pub open spec fn marked_positions(marks: Seq<bool>) -> Seq<usize>
    decreases marks.len(),
{
    if marks.len() == 0 {
        Seq::empty()
    } else {
        let before = marked_positions(marks.drop_last());
        if marks.last() {
            before.push((marks.len() - 1) as usize)
        } else {
            before
        }
    }
}

fn list_marked(marks: &Vec<bool>) -> (r: Vec<usize>)
    ensures
        r@ == marked_positions(marks@),
{
    let mut out: Vec<usize> = Vec::new();
    assert(marks@.take(0) =~= Seq::<bool>::empty());
    for i in 0..marks.len()
        invariant
            out@ == marked_positions(marks@.take(i as int)),
    {
        assert(marks@.take(i + 1).drop_last() =~= marks@.take(i as int));
        if marks[i] {
            out.push(i);
        }
    }
    assert(marks@.take(marks.len() as int) =~= marks@);
    out
}

/// A join input whose scan keeps only some of its columns.
pub open spec fn narrowed(p: PlanModel, positions: Seq<usize>) -> PlanModel
    decreases p,
{
    match p {
        PlanModel::Scan { table_name, alias, schema, projection, as_of } => PlanModel::Scan {
            table_name,
            alias,
            schema,
            projection: Some(positions),
            as_of,
        },
        PlanModel::FilteredScan { table_name, alias, schema, projection, predicate, as_of } =>
            PlanModel::FilteredScan {
            table_name,
            alias,
            schema,
            projection: Some(positions),
            predicate,
            as_of,
        },
        PlanModel::Filter { input, predicate } => PlanModel::Filter {
            input: Box::new(narrowed(*input, positions)),
            predicate,
        },
        _ => p,
    }
}

/// A join input cut down to the marked columns, and whether that changed it.
/// `None` where nothing is marked, or it is cut down already.
pub open spec fn cut_down(p: PlanModel, marks: Seq<bool>) -> Option<(PlanModel, bool)> {
    let positions = marked_positions(marks);
    match leaf_info(p) {
        Some(leaf) => if positions.len() == 0 || leaf.1 {
            None
        } else if positions.len() >= leaf.0.columns.len() {
            Some((p, false))
        } else {
            Some((narrowed(p, positions), true))
        },
        None => None,
    }
}

fn narrow(plan: &LogicalPlan, positions: &Vec<usize>) -> (r: LogicalPlan)
    ensures
        r@ == narrowed(plan@, positions@),
    decreases plan,
{
    match plan {
        LogicalPlan::Scan { table_name, alias, schema, projection, as_of } => {
            let kept: Vec<usize> = positions.clone();
            assert(kept@ =~= positions@);
            LogicalPlan::Scan {
                table_name: table_name.clone(),
                alias: alias.clone(),
                schema: schema.clone(),
                projection: Some(kept),
                as_of: logical_plan::clone_as_of(as_of),
            }
        },
        LogicalPlan::FilteredScan {
            table_name,
            alias,
            schema,
            projection,
            predicate,
            as_of,
        } => {
            let kept: Vec<usize> = positions.clone();
            assert(kept@ =~= positions@);
            LogicalPlan::FilteredScan {
                table_name: table_name.clone(),
                alias: alias.clone(),
                schema: schema.clone(),
                projection: Some(kept),
                predicate: match predicate {
                    Some(p) => Some(p.clone()),
                    None => None,
                },
                as_of: logical_plan::clone_as_of(as_of),
            }
        },
        LogicalPlan::Filter { input, predicate } => LogicalPlan::Filter {
            input: Box::new(narrow(input, positions)),
            predicate: predicate.clone(),
        },
        _ => plan.clone(),
    }
}

/// A join input cut down to the marked columns, and whether that changed it.
pub fn apply_join_input_projection(input: &LogicalPlan, marks: &Vec<bool>) -> (r: Option<
    (LogicalPlan, bool),
>)
    ensures
        match r {
            Some(p) => cut_down(input@, marks@) == Some((p.0@, p.1)),
            None => cut_down(input@, marks@) is None,
        },
{
    let positions: Vec<usize> = list_marked(marks);
    let (info, already): (ScanInfo, bool) = match join_input_leaf_info(input) {
        Some(i) => i,
        None => {
            return None;
        },
    };
    if positions.len() == 0 || already {
        return None;
    }
    assert(info.schema@.len() == info.schema.columns.len());
    if positions.len() >= info.schema.columns.len() {
        return Some((input.clone(), false));
    }
    Some((narrow(input, &positions), true))
}

/// What a join reads of one of its inputs: the condition, the predicate behind
/// the join, the projected expressions, and the filters on the input itself.
pub open spec fn needed(
    p: PlanModel,
    condition: ExprModel,
    predicate: Option<ExprModel>,
    exprs: Seq<ExprModel>,
) -> Option<Seq<bool>> {
    match (leaf_info(p), local_filters(p)) {
        (Some(leaf), Some(filters)) => {
            let info = leaf.0;
            let all = seq![condition] + (match predicate {
                Some(e) => seq![e],
                None => Seq::empty(),
            }) + exprs + filters;
            all_marked(all, all.len(), info, Seq::new(info.columns.len(), |i: int| false))
        },
        _ => None,
    }
}

/// The inputs of a projected join cut down to the columns that it reads.
/// `None` where that cannot be told, or nothing is saved by it.
pub open spec fn compacted(
    left: PlanModel,
    right: PlanModel,
    condition: ExprModel,
    predicate: Option<ExprModel>,
    exprs: Seq<ExprModel>,
) -> Option<(PlanModel, PlanModel)> {
    match (needed(left, condition, predicate, exprs), needed(right, condition, predicate, exprs)) {
        (Some(lm), Some(rm)) => match (cut_down(left, lm), cut_down(right, rm)) {
            (Some(l), Some(r)) => if l.1 || r.1 {
                Some((l.0, r.0))
            } else {
                None
            },
            _ => None,
        },
        _ => None,
    }
}

fn collect_needed(
    input: &LogicalPlan,
    condition: &LogicalExpr,
    predicate: Option<&LogicalExpr>,
    exprs: &Vec<LogicalExpr>,
) -> (r: Option<Vec<bool>>)
    ensures
        match r {
            Some(m) => needed(
                input@,
                condition@,
                opt_borrowed(predicate),
                logical_plan::exprs_model(exprs@),
            ) == Some(m@),
            None => needed(
                input@,
                condition@,
                opt_borrowed(predicate),
                logical_plan::exprs_model(exprs@),
            ) is None,
        },
{
    let (info, _already): (ScanInfo, bool) = match join_input_leaf_info(input) {
        Some(i) => i,
        None => {
            return None;
        },
    };
    let filters: Vec<LogicalExpr> = match collect_local_filters(input) {
        Some(v) => v,
        None => {
            return None;
        },
    };
    let mut all: Vec<&LogicalExpr> = Vec::new();
    all.push(condition);
    if let Some(p) = predicate {
        all.push(p);
    }
    let ghost head = expr_tree::borrowed_model(all@);
    assert(head =~= seq![condition@] + (match opt_borrowed(predicate) {
        Some(e) => seq![e],
        None => Seq::empty(),
    }));
    for i in 0..exprs.len()
        invariant
            expr_tree::borrowed_model(all@) == head + logical_plan::exprs_model(exprs@).take(
                i as int,
            ),
            logical_plan::exprs_model(exprs@).len() == exprs.len(),
    {
        let ghost was = expr_tree::borrowed_model(all@);
        all.push(&exprs[i]);
        assert(logical_plan::exprs_model(exprs@)[i as int] == exprs@[i as int]@);
        assert(expr_tree::borrowed_model(all@) =~= was.push(exprs@[i as int]@));
        assert(expr_tree::borrowed_model(all@) =~= head + logical_plan::exprs_model(exprs@).take(
            i + 1,
        ));
    }
    let ghost em = logical_plan::exprs_model(exprs@);
    assert(em.take(exprs.len() as int) =~= em);
    let ghost mid = expr_tree::borrowed_model(all@);
    for i in 0..filters.len()
        invariant
            expr_tree::borrowed_model(all@) == mid + logical_plan::exprs_model(filters@).take(
                i as int,
            ),
            logical_plan::exprs_model(filters@).len() == filters.len(),
    {
        let ghost was = expr_tree::borrowed_model(all@);
        all.push(&filters[i]);
        assert(logical_plan::exprs_model(filters@)[i as int] == filters@[i as int]@);
        assert(expr_tree::borrowed_model(all@) =~= was.push(filters@[i as int]@));
        assert(expr_tree::borrowed_model(all@) =~= mid + logical_plan::exprs_model(filters@).take(
            i + 1,
        ));
    }
    let ghost fm = logical_plan::exprs_model(filters@);
    assert(fm.take(filters.len() as int) =~= fm);
    let ghost wanted = head + em + fm;
    assert(expr_tree::borrowed_model(all@) == wanted);
    let mut marks: Vec<bool> = Vec::new();
    for i in 0..info.schema.columns.len()
        invariant
            marks@ =~= Seq::new(i as nat, |j: int| false),
    {
        marks.push(false);
    }
    let ghost clean = marks@;
    assert(clean =~= Seq::new(info.schema@.len(), |j: int| false));
    let mut i: usize = 0;
    while i < all.len()
        invariant
            i <= all.len(),
            expr_tree::borrowed_model(all@) == wanted,
            marks.len() == info.schema@.len(),
            all_marked(wanted, i as nat, info@, clean) == Some(marks@),
            needed(
                input@,
                condition@,
                opt_borrowed(predicate),
                logical_plan::exprs_model(exprs@),
            ) == all_marked(wanted, wanted.len(), info@, clean),
        decreases all.len() - i,
    {
        assert(wanted[i as int] == all@[i as int]@);
        assert(wanted.len() == all.len());
        if !collect_join_input_expr_columns(&info, all[i], &mut marks) {
            proof {
                lemma_all_marked_stop(wanted, (i + 1) as nat, wanted.len(), info@, clean);
            }
            return None;
        }
        i = i + 1;
    }
    assert(wanted.len() == all.len());
    Some(marks)
}

proof fn lemma_all_marked_stop(
    s: Seq<ExprModel>,
    n: nat,
    m: nat,
    info: ScanInfoModel,
    marks: Seq<bool>,
)
    requires
        all_marked(s, n, info, marks) is None,
        n <= m <= s.len(),
    ensures
        all_marked(s, m, info, marks) is None,
    decreases m - n,
{
    if n < m {
        lemma_all_marked_stop(s, n, (m - 1) as nat, info, marks);
    }
}

pub open spec fn opt_borrowed(e: Option<&LogicalExpr>) -> Option<ExprModel> {
    match e {
        Some(x) => Some(x@),
        None => None,
    }
}

/// The inputs of a projected join cut down to the columns that it reads.
pub fn compact_projected_join_inputs(
    left: &LogicalPlan,
    right: &LogicalPlan,
    join_condition: &LogicalExpr,
    post_join_predicate: Option<&LogicalExpr>,
    project_exprs: &Vec<LogicalExpr>,
) -> (r: Option<(LogicalPlan, LogicalPlan)>)
    ensures
        match r {
            Some(p) => compacted(
                left@,
                right@,
                join_condition@,
                opt_borrowed(post_join_predicate),
                logical_plan::exprs_model(project_exprs@),
            ) == Some((p.0@, p.1@)),
            None => compacted(
                left@,
                right@,
                join_condition@,
                opt_borrowed(post_join_predicate),
                logical_plan::exprs_model(project_exprs@),
            ) is None,
        },
{
    let left_marks: Vec<bool> = match collect_needed(
        left,
        join_condition,
        post_join_predicate,
        project_exprs,
    ) {
        Some(m) => m,
        None => {
            return None;
        },
    };
    let right_marks: Vec<bool> = match collect_needed(
        right,
        join_condition,
        post_join_predicate,
        project_exprs,
    ) {
        Some(m) => m,
        None => {
            return None;
        },
    };
    let (new_left, left_changed): (LogicalPlan, bool) = match apply_join_input_projection(
        left,
        &left_marks,
    ) {
        Some(p) => p,
        None => {
            return None;
        },
    };
    let (new_right, right_changed): (LogicalPlan, bool) = match apply_join_input_projection(
        right,
        &right_marks,
    ) {
        Some(p) => p,
        None => {
            return None;
        },
    };
    if left_changed || right_changed {
        Some((new_left, new_right))
    } else {
        None
    }
}

/// Whether each column that some names spell out of a table is marked.
pub open spec fn names_are_marked(
    refs: Seq<(Option<Seq<char>>, Seq<char>)>,
    info: ScanInfoModel,
    marks: Seq<bool>,
) -> bool {
    forall|i: int| 0 <= i < refs.len() ==> name_is_marked(#[trigger] refs[i], info, marks)
}

pub open spec fn name_is_marked(
    r: (Option<Seq<char>>, Seq<char>),
    info: ScanInfoModel,
    marks: Seq<bool>,
) -> bool {
    r.0 matches Some(q) && qualifies(q, info.table, info.alias) ==> (position_named(
        info.columns,
        r.1,
        0,
    ) matches Some(i) && 0 <= i < marks.len() && marks[i])
}

/// Whether no mark is lost.
spec fn keeps_marks(before: Seq<bool>, after: Seq<bool>) -> bool {
    &&& before.len() == after.len()
    &&& forall|i: int| 0 <= i < before.len() && #[trigger] before[i] ==> after[i]
}

proof fn lemma_marks_kept(
    refs: Seq<(Option<Seq<char>>, Seq<char>)>,
    info: ScanInfoModel,
    before: Seq<bool>,
    after: Seq<bool>,
)
    requires
        names_are_marked(refs, info, before),
        keeps_marks(before, after),
    ensures
        names_are_marked(refs, info, after),
{
    assert forall|i: int| 0 <= i < refs.len() implies name_is_marked(
        #[trigger] refs[i],
        info,
        after,
    ) by {
        assert(name_is_marked(refs[i], info, before));
    }
}

proof fn lemma_position_in_range(cols: Seq<ColumnModel>, name: Seq<char>, from: int)
    requires
        0 <= from,
    ensures
        position_named(cols, name, from) matches Some(i) ==> from <= i < cols.len(),
    decreases cols.len() - from,
{
    if from < cols.len() {
        lemma_position_in_range(cols, name, from + 1);
    }
}

proof fn lemma_marked(e: ExprModel, info: ScanInfoModel, marks: Seq<bool>)
    requires
        marks.len() == info.columns.len(),
        marked(e, info, marks) is Some,
    ensures
        keeps_marks(marks, marked(e, info, marks)->Some_0),
        names_are_marked(expr_tree::column_refs(e), info, marked(e, info, marks)->Some_0),
    decreases e, 1int, 0nat,
{
    match e {
        ExprModel::Column { table, name } => {
            lemma_position_in_range(info.columns, name, 0);
            assert(expr_tree::column_refs(e)[0] == (table, name));
        },
        _ => {
            lemma_marked_parts(e, expr_tree::parts(e).len(), info, marks);
        },
    }
}

proof fn lemma_marked_parts(e: ExprModel, n: nat, info: ScanInfoModel, marks: Seq<bool>)
    requires
        n <= expr_tree::parts(e).len(),
        marks.len() == info.columns.len(),
        marked_parts(e, n, info, marks) is Some,
    ensures
        keeps_marks(marks, marked_parts(e, n, info, marks)->Some_0),
        names_are_marked(
            expr_tree::refs_of_parts(e, n),
            info,
            marked_parts(e, n, info, marks)->Some_0,
        ),
    decreases e, 0int, n,
{
    if n > 0 {
        expr_tree::lemma_parts_are_smaller(e);
        let m = (n - 1) as nat;
        let part = expr_tree::parts(e)[n - 1];
        lemma_marked_parts(e, m, info, marks);
        let before = marked_parts(e, m, info, marks)->Some_0;
        lemma_marked(part, info, before);
        let after = marked(part, info, before)->Some_0;
        lemma_marks_kept(expr_tree::refs_of_parts(e, m), info, before, after);
        let first = expr_tree::refs_of_parts(e, m);
        let last = expr_tree::column_refs(part);
        let all = first + last;
        assert forall|i: int| 0 <= i < all.len() implies name_is_marked(
            #[trigger] all[i],
            info,
            after,
        ) by {
            if i < first.len() {
                assert(all[i] == first[i]);
            } else {
                assert(all[i] == last[i - first.len()]);
            }
        }
    }
}

proof fn lemma_all_marked(s: Seq<ExprModel>, n: nat, info: ScanInfoModel, marks: Seq<bool>, k: int)
    requires
        0 <= k < n <= s.len(),
        marks.len() == info.columns.len(),
        all_marked(s, n, info, marks) is Some,
    ensures
        all_marked(s, n, info, marks)->Some_0.len() == marks.len(),
        names_are_marked(
            expr_tree::column_refs(s[k]),
            info,
            all_marked(s, n, info, marks)->Some_0,
        ),
    decreases n,
{
    let m = (n - 1) as nat;
    let before = all_marked(s, m, info, marks)->Some_0;
    lemma_all_marks_counted(s, m, info, marks);
    lemma_marked(s[n - 1], info, before);
    let after = marked(s[n - 1], info, before)->Some_0;
    if k < m {
        lemma_all_marked(s, m, info, marks, k);
        lemma_marks_kept(expr_tree::column_refs(s[k]), info, before, after);
    }
}

proof fn lemma_all_marks_counted(s: Seq<ExprModel>, n: nat, info: ScanInfoModel, marks: Seq<bool>)
    requires
        n <= s.len(),
        marks.len() == info.columns.len(),
        all_marked(s, n, info, marks) is Some,
    ensures
        all_marked(s, n, info, marks)->Some_0.len() == marks.len(),
    decreases n,
{
    if n > 0 {
        lemma_all_marks_counted(s, (n - 1) as nat, info, marks);
        lemma_marked(s[n - 1], info, all_marked(s, (n - 1) as nat, info, marks)->Some_0);
    }
}

proof fn lemma_marked_positions(marks: Seq<bool>, i: int)
    requires
        0 <= i < marks.len() <= usize::MAX,
        marks[i],
    ensures
        marked_positions(marks).contains(i as usize),
    decreases marks.len(),
{
    let all = marked_positions(marks);
    if i == marks.len() - 1 {
        assert(all[all.len() - 1] == i as usize);
    } else {
        let rest = marks.drop_last();
        lemma_marked_positions(rest, i);
        let before = marked_positions(rest);
        let k = choose|k: int| 0 <= k < before.len() && before[k] == i as usize;
        assert(all[k] == i as usize);
    }
}

/// Cutting an input of a join down to the columns that are needed loses none that is read:
/// every column of the input that the join condition, the predicate above the join, the
/// `SELECT` list or a filter on the input names is among those that are kept.
pub proof fn law_narrowing_keeps_what_is_read(
    p: PlanModel,
    condition: ExprModel,
    predicate: Option<ExprModel>,
    exprs: Seq<ExprModel>,
    e: ExprModel,
    q: Seq<char>,
    name: Seq<char>,
)
    requires
        needed(p, condition, predicate, exprs) is Some,
        leaf_info(p)->Some_0.0.columns.len() <= usize::MAX,
        e == condition || predicate == Some(e) || exprs.contains(e) || local_filters(
            p,
        )->Some_0.contains(e),
        expr_tree::column_refs(e).contains((Some(q), name)),
        qualifies(q, leaf_info(p)->Some_0.0.table, leaf_info(p)->Some_0.0.alias),
    ensures
        ({
            let cols = leaf_info(p)->Some_0.0.columns;
            let kept = marked_positions(needed(p, condition, predicate, exprs)->Some_0);
            let at = position_named(cols, name, 0);
            &&& at is Some
            &&& kept.contains(at->Some_0 as usize)
        }),
{
    let info = leaf_info(p)->Some_0.0;
    let filters = local_filters(p)->Some_0;
    let above = match predicate {
        Some(x) => seq![x],
        None => Seq::empty(),
    };
    let all = seq![condition] + above + exprs + filters;
    let none = Seq::new(info.columns.len(), |i: int| false);
    let marks = needed(p, condition, predicate, exprs)->Some_0;
    let k: int = if e == condition {
        0
    } else if predicate == Some(e) {
        1
    } else if exprs.contains(e) {
        1 + above.len() + choose|i: int| 0 <= i < exprs.len() && exprs[i] == e
    } else {
        1 + above.len() + exprs.len() + choose|i: int| 0 <= i < filters.len() && filters[i] == e
    };
    assert(all[k] == e);
    lemma_all_marked(all, all.len(), info, none, k);
    let refs = expr_tree::column_refs(e);
    let n = choose|n: int| 0 <= n < refs.len() && refs[n] == (Some(q), name);
    assert(name_is_marked(refs[n], info, marks));
    lemma_marked_positions(marks, position_named(info.columns, name, 0)->Some_0);
}

} // verus!
