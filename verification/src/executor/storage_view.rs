//! What a query can see of the storage: tables, views, indexes and the state of
//! the transaction that it runs in.

use crate::executor::ddl::{CatalogModel, CatalogView};
use crate::executor::index_lookup;
use crate::executor::index_lookup::{
    ColumnIndex, IndexModel, IndexRangeSpec, RangeBound, RangeBoundModel, RangeModel,
};
use crate::logical_plan::{AsOfClause, AsOfModel};
use crate::schema;
use crate::schema::{ColumnModel, Schema, Tuple, TupleModel};
use crate::text;
use crate::text::Order;
use crate::value;
use crate::value::{Value, ValueModel};
use vstd::prelude::*;

verus! {

/// A table with its rows.
pub struct StoredTable {
    pub name: String,
    pub schema: Schema,
    pub rows: Vec<Tuple>,
}

#[verifier::ext_equal]
pub struct TableModel {
    pub name: Seq<char>,
    pub columns: Seq<ColumnModel>,
    pub rows: Seq<TupleModel>,
}

impl View for StoredTable {
    type V = TableModel;

    open spec fn view(&self) -> TableModel {
        TableModel {
            name: self.name@,
            columns: self.schema@,
            rows: schema::rows_model(self.rows@),
        }
    }
}

/// A materialized view: its columns, and the table that holds its rows once it
/// has been refreshed.
pub struct MaterializedView {
    pub name: String,
    pub schema: Schema,
    pub data_table: String,
}

#[verifier::ext_equal]
pub struct ViewModel {
    pub name: Seq<char>,
    pub columns: Seq<ColumnModel>,
    pub data_table: Seq<char>,
}

impl View for MaterializedView {
    type V = ViewModel;

    open spec fn view(&self) -> ViewModel {
        ViewModel {
            name: self.name@,
            columns: self.schema@,
            data_table: self.data_table@,
        }
    }
}

/// The rows of a table at some time.
pub struct History {
    pub table: String,
    pub as_of: AsOfClause,
    pub rows: Vec<Tuple>,
}

#[verifier::ext_equal]
pub struct HistoryModel {
    pub table: Seq<char>,
    pub as_of: AsOfModel,
    pub rows: Seq<TupleModel>,
}

impl View for History {
    type V = HistoryModel;

    open spec fn view(&self) -> HistoryModel {
        HistoryModel {
            table: self.table@,
            as_of: self.as_of@,
            rows: schema::rows_model(self.rows@),
        }
    }
}

/// One entry of an index: a value and the row that has it.
pub struct IndexEntry {
    pub key: Value,
    pub row_id: u64,
}

pub open spec fn entry_model(e: IndexEntry) -> (ValueModel, u64) {
    (e.key@, e.row_id)
}

pub open spec fn entries_model(s: Seq<IndexEntry>) -> Seq<(ValueModel, u64)> {
    Seq::new(s.len(), |i: int| entry_model(s[i]))
}

/// The entries of an index, in the order of its keys.
pub struct IndexContents {
    pub index: String,
    pub entries: Vec<IndexEntry>,
}

#[verifier::ext_equal]
pub struct ContentsModel {
    pub index: Seq<char>,
    pub entries: Seq<(ValueModel, u64)>,
}

impl View for IndexContents {
    type V = ContentsModel;

    open spec fn view(&self) -> ContentsModel {
        ContentsModel { index: self.index@, entries: entries_model(self.entries@) }
    }
}

/// What a query can see of the storage.
pub struct StorageView {
    pub tables: Vec<StoredTable>,
    pub materialized_views: Vec<MaterializedView>,
    pub system_views: Vec<StoredTable>,
    pub histories: Vec<History>,
    pub indexes: Vec<ColumnIndex>,
    pub contents: Vec<IndexContents>,
    pub enum_types: Vec<String>,
    pub catalog: CatalogView,
    pub time_travel_enabled: bool,
    pub branch_active: bool,
}

#[verifier::ext_equal]
pub struct StoreModel {
    pub tables: Seq<TableModel>,
    pub materialized_views: Seq<ViewModel>,
    pub system_views: Seq<TableModel>,
    pub histories: Seq<HistoryModel>,
    pub indexes: Seq<IndexModel>,
    pub contents: Seq<ContentsModel>,
    pub enum_types: Seq<Seq<char>>,
    pub catalog: CatalogModel,
    pub time_travel_enabled: bool,
    pub branch_active: bool,
}

pub open spec fn tables_model(s: Seq<StoredTable>) -> Seq<TableModel> {
    Seq::new(s.len(), |i: int| s[i]@)
}

pub open spec fn views_model(s: Seq<MaterializedView>) -> Seq<ViewModel> {
    Seq::new(s.len(), |i: int| s[i]@)
}

pub open spec fn histories_model(s: Seq<History>) -> Seq<HistoryModel> {
    Seq::new(s.len(), |i: int| s[i]@)
}

pub open spec fn contents_model(s: Seq<IndexContents>) -> Seq<ContentsModel> {
    Seq::new(s.len(), |i: int| s[i]@)
}

impl View for StorageView {
    type V = StoreModel;

    open spec fn view(&self) -> StoreModel {
        StoreModel {
            tables: tables_model(self.tables@),
            materialized_views: views_model(self.materialized_views@),
            system_views: tables_model(self.system_views@),
            histories: histories_model(self.histories@),
            indexes: index_lookup::indexes_model(self.indexes@),
            contents: contents_model(self.contents@),
            enum_types: schema::texts(self.enum_types@),
            catalog: self.catalog@,
            time_travel_enabled: self.time_travel_enabled,
            branch_active: self.branch_active,
        }
    }
}

/// A transaction that a query runs in: whether each statement sees what has
/// been committed before it, whether it belongs to a session, the tables that
/// it has written, and the tables as it sees them.
pub struct TransactionView {
    pub read_committed: bool,
    pub in_session: bool,
    pub written: Vec<String>,
    pub tables: Vec<StoredTable>,
}

#[verifier::ext_equal]
pub struct TransactionModel {
    pub read_committed: bool,
    pub in_session: bool,
    pub written: Seq<Seq<char>>,
    pub tables: Seq<TableModel>,
}

impl View for TransactionView {
    type V = TransactionModel;

    open spec fn view(&self) -> TransactionModel {
        TransactionModel {
            read_committed: self.read_committed,
            in_session: self.in_session,
            written: schema::texts(self.written@),
            tables: tables_model(self.tables@),
        }
    }
}

/// The first table of some name from `from` on.
pub open spec fn table_named(s: Seq<TableModel>, name: Seq<char>, from: int) -> Option<TableModel>
    decreases s.len() - from,
{
    if from < 0 || from >= s.len() {
        None
    } else if s[from].name == name {
        Some(s[from])
    } else {
        table_named(s, name, from + 1)
    }
}

pub open spec fn opt_table(t: Option<&StoredTable>) -> Option<TableModel> {
    match t {
        Some(x) => Some(x@),
        None => None,
    }
}

/// Finds a table by its name.
pub fn find_table<'a>(tables: &'a Vec<StoredTable>, name: &str) -> (r: Option<&'a StoredTable>)
    ensures
        opt_table(r) == table_named(tables_model(tables@), name@, 0),
{
    let ghost all = tables_model(tables@);
    let mut i: usize = 0;
    while i < tables.len()
        invariant
            all == tables_model(tables@),
            i <= tables.len(),
            table_named(all, name@, 0) == table_named(all, name@, i as int),
        decreases tables.len() - i,
    {
        assert(all[i as int] == tables@[i as int]@);
        if text::same_text(tables[i].name.as_str(), name) {
            return Some(&tables[i]);
        }
        i = i + 1;
    }
    None
}

/// The first materialized view of some name from `from` on.
pub open spec fn view_named(s: Seq<ViewModel>, name: Seq<char>, from: int) -> Option<ViewModel>
    decreases s.len() - from,
{
    if from < 0 || from >= s.len() {
        None
    } else if s[from].name == name {
        Some(s[from])
    } else {
        view_named(s, name, from + 1)
    }
}

pub open spec fn opt_view(v: Option<&MaterializedView>) -> Option<ViewModel> {
    match v {
        Some(x) => Some(x@),
        None => None,
    }
}

/// The rows of a table at some time; no rows where nothing is known of it.
pub open spec fn rows_then(
    s: Seq<HistoryModel>,
    table: Seq<char>,
    as_of: AsOfModel,
    from: int,
) -> Seq<TupleModel>
    decreases s.len() - from,
{
    if from < 0 || from >= s.len() {
        Seq::empty()
    } else if s[from].table == table && s[from].as_of == as_of {
        s[from].rows
    } else {
        rows_then(s, table, as_of, from + 1)
    }
}

fn same_as_of(a: &AsOfClause, b: &AsOfClause) -> (r: bool)
    ensures
        r == (a@ == b@),
{
    match (a, b) {
        (AsOfClause::Timestamp(x), AsOfClause::Timestamp(y)) => text::same_text(
            x.as_str(),
            y.as_str(),
        ),
        (AsOfClause::Transaction(x), AsOfClause::Transaction(y)) => *x == *y,
        (AsOfClause::Scn(x), AsOfClause::Scn(y)) => *x == *y,
        (
            AsOfClause::VersionsBetween { start: x, end: xe },
            AsOfClause::VersionsBetween { start: y, end: ye },
        ) => text::same_text(x.as_str(), y.as_str()) && text::same_text(xe.as_str(), ye.as_str()),
        _ => false,
    }
}

/// The first row of some identity from `from` on.
pub open spec fn row_with_id(rows: Seq<TupleModel>, id: u64, from: int) -> Option<TupleModel>
    decreases rows.len() - from,
{
    if from < 0 || from >= rows.len() {
        None
    } else if rows[from].row_id == Some(id) {
        Some(rows[from])
    } else {
        row_with_id(rows, id, from + 1)
    }
}

pub open spec fn opt_row(t: Option<&Tuple>) -> Option<TupleModel> {
    match t {
        Some(x) => Some(x@),
        None => None,
    }
}

/// Finds a row by its identity.
pub fn find_row(rows: &Vec<Tuple>, id: u64) -> (r: Option<&Tuple>)
    ensures
        opt_row(r) == row_with_id(schema::rows_model(rows@), id, 0),
{
    let ghost all = schema::rows_model(rows@);
    let mut i: usize = 0;
    while i < rows.len()
        invariant
            all == schema::rows_model(rows@),
            i <= rows.len(),
            row_with_id(all, id, 0) == row_with_id(all, id, i as int),
        decreases rows.len() - i,
    {
        assert(all[i as int] == rows@[i as int]@);
        if let Some(found) = rows[i].row_id {
            if found == id {
                return Some(&rows[i]);
            }
        }
        i = i + 1;
    }
    None
}

/// The rows of some identities, in order; identities without a row are passed
/// over.
pub open spec fn rows_with_ids(rows: Seq<TupleModel>, ids: Seq<u64>) -> Seq<TupleModel>
    decreases ids.len(),
{
    if ids.len() == 0 {
        Seq::empty()
    } else {
        let before = rows_with_ids(rows, ids.drop_last());
        match row_with_id(rows, ids.last(), 0) {
            Some(t) => before.push(t),
            None => before,
        }
    }
}

/// Fetches rows by their identities, in order.
pub fn fetch_rows(rows: &Vec<Tuple>, ids: &Vec<u64>) -> (r: Vec<Tuple>)
    ensures
        schema::rows_model(r@) == rows_with_ids(schema::rows_model(rows@), ids@),
{
    let ghost all = schema::rows_model(rows@);
    let mut out: Vec<Tuple> = Vec::new();
    assert(schema::rows_model(out@) =~= Seq::<TupleModel>::empty());
    assert(ids@.take(0) =~= Seq::<u64>::empty());
    for i in 0..ids.len()
        invariant
            all == schema::rows_model(rows@),
            schema::rows_model(out@) == rows_with_ids(all, ids@.take(i as int)),
    {
        let ghost was = schema::rows_model(out@);
        assert(ids@.take(i + 1).drop_last() =~= ids@.take(i as int));
        if let Some(t) = find_row(rows, ids[i]) {
            out.push(t.clone());
            assert(schema::rows_model(out@) =~= was.push(t@));
        }
    }
    assert(ids@.take(ids.len() as int) =~= ids@);
    out
}

/// The entries of the first index of some name from `from` on.
pub open spec fn entries_of(
    s: Seq<ContentsModel>,
    index: Seq<char>,
    from: int,
) -> Option<Seq<(ValueModel, u64)>>
    decreases s.len() - from,
{
    if from < 0 || from >= s.len() {
        None
    } else if s[from].index == index {
        Some(s[from].entries)
    } else {
        entries_of(s, index, from + 1)
    }
}

pub open spec fn opt_entries(e: Option<&Vec<IndexEntry>>) -> Option<Seq<(ValueModel, u64)>> {
    match e {
        Some(v) => Some(entries_model(v@)),
        None => None,
    }
}

/// The rows that an index has for a key, in its order.
pub open spec fn ids_at(entries: Seq<(ValueModel, u64)>, key: ValueModel) -> Seq<u64>
    decreases entries.len(),
{
    if entries.len() == 0 {
        Seq::empty()
    } else {
        let before = ids_at(entries.drop_last(), key);
        if entries.last().0 == key {
            before.push(entries.last().1)
        } else {
            before
        }
    }
}

/// The rows that an index has for a key.
pub fn index_get_all(entries: &Vec<IndexEntry>, key: &Value) -> (r: Vec<u64>)
    ensures
        r@ == ids_at(entries_model(entries@), key@),
{
    let ghost all = entries_model(entries@);
    let mut out: Vec<u64> = Vec::new();
    assert(all.take(0) =~= Seq::<(ValueModel, u64)>::empty());
    for i in 0..entries.len()
        invariant
            all == entries_model(entries@),
            out@ == ids_at(all.take(i as int), key@),
    {
        assert(all.take(i + 1).drop_last() =~= all.take(i as int));
        assert(all[i as int] == entry_model(entries@[i as int]));
        if value::same_value(&entries[i].key, key) {
            out.push(entries[i].row_id);
        }
    }
    assert(all.take(entries.len() as int) =~= all);
    out
}

/// How NULL stands to a text in an index: as the text of one zero character
/// does.
pub open spec fn null_order(s: Seq<char>) -> Order {
    text::lex_order(seq![0int], text::codes(s))
}

/// Whether an index key lies behind the lower end of a range. NULL lies before
/// all numbers.
pub open spec fn behind_lower(key: ValueModel, lower: Option<RangeBoundModel>) -> bool {
    match lower {
        None => true,
        Some(RangeBoundModel::Lowest(_)) => key != ValueModel::Null,
        Some(RangeBoundModel::At(v, inclusive)) => if key == ValueModel::Null {
            match v {
                ValueModel::String(s) => match null_order(s) {
                    Order::Less => false,
                    Order::Equal => inclusive,
                    Order::Greater => true,
                },
                _ => false,
            }
        } else {
            index_lookup::within(key, (v, inclusive), true)
        },
    }
}

/// Whether an index key lies before the upper end of a range.
pub open spec fn before_upper(key: ValueModel, upper: Option<RangeBoundModel>) -> bool {
    match upper {
        None => true,
        Some(RangeBoundModel::Lowest(_)) => key == ValueModel::Null,
        Some(RangeBoundModel::At(v, inclusive)) => if key == ValueModel::Null {
            match v {
                ValueModel::String(s) => match null_order(s) {
                    Order::Less => true,
                    Order::Equal => inclusive,
                    Order::Greater => false,
                },
                _ => true,
            }
        } else {
            index_lookup::within(key, (v, inclusive), false)
        },
    }
}

/// The rows that an index has in a range, in its order.
pub open spec fn ids_within(
    entries: Seq<(ValueModel, u64)>,
    lower: Option<RangeBoundModel>,
    upper: Option<RangeBoundModel>,
) -> Seq<u64>
    decreases entries.len(),
{
    if entries.len() == 0 {
        Seq::empty()
    } else {
        let before = ids_within(entries.drop_last(), lower, upper);
        let e = entries.last();
        if behind_lower(e.0, lower) && before_upper(e.0, upper) {
            before.push(e.1)
        } else {
            before
        }
    }
}

fn compare_null(s: &str) -> (r: Order)
    ensures
        r == null_order(s@),
{
    let chars: Vec<char> = text::chars_of(s);
    let ghost one = seq![0int];
    let ghost codes = text::codes(s@);
    proof {
        reveal_with_fuel(text::lex_order, 2);
        assert(one.drop_first().len() == 0);
    }
    if chars.len() == 0 {
        return Order::Greater;
    }
    assert(codes[0] == s@[0] as int);
    assert(codes.drop_first().len() == s@.len() - 1);
    let zero: char = '\0';
    let first: char = chars[0];
    if zero < first {
        return Order::Less;
    }
    if first < zero {
        return Order::Greater;
    }
    if chars.len() == 1 {
        Order::Equal
    } else {
        Order::Less
    }
}

fn is_behind_lower(key: &Value, lower: &Option<RangeBound>) -> (r: bool)
    ensures
        r == behind_lower(key@, index_lookup::opt_range_bound(*lower)),
{
    match lower {
        None => true,
        Some(RangeBound::Lowest(_)) => match key {
            Value::Null => false,
            _ => true,
        },
        Some(RangeBound::At(v, inclusive)) => match key {
            Value::Null => match v {
                Value::String(s) => match compare_null(s.as_str()) {
                    Order::Less => false,
                    Order::Equal => *inclusive,
                    Order::Greater => true,
                },
                _ => false,
            },
            _ => match index_lookup::compare_keys(key, v) {
                Order::Less => false,
                Order::Equal => *inclusive,
                Order::Greater => true,
            },
        },
    }
}

fn is_before_upper(key: &Value, upper: &Option<RangeBound>) -> (r: bool)
    ensures
        r == before_upper(key@, index_lookup::opt_range_bound(*upper)),
{
    match upper {
        None => true,
        Some(RangeBound::Lowest(_)) => match key {
            Value::Null => true,
            _ => false,
        },
        Some(RangeBound::At(v, inclusive)) => match key {
            Value::Null => match v {
                Value::String(s) => match compare_null(s.as_str()) {
                    Order::Less => true,
                    Order::Equal => *inclusive,
                    Order::Greater => false,
                },
                _ => true,
            },
            _ => match index_lookup::compare_keys(key, v) {
                Order::Less => true,
                Order::Equal => *inclusive,
                Order::Greater => false,
            },
        },
    }
}

/// The entries of an index in a range, in index order.
pub open spec fn entries_within(
    entries: Seq<(ValueModel, u64)>,
    lower: Option<RangeBoundModel>,
    upper: Option<RangeBoundModel>,
) -> Seq<(ValueModel, u64)>
    decreases entries.len(),
{
    if entries.len() == 0 {
        Seq::empty()
    } else {
        let before = entries_within(entries.drop_last(), lower, upper);
        let e = entries.last();
        if behind_lower(e.0, lower) && before_upper(e.0, upper) {
            before.push(e)
        } else {
            before
        }
    }
}

/// The entries of an index in a range, in index order.
pub fn index_range_entries(
    entries: &Vec<IndexEntry>,
    lower: &Option<RangeBound>,
    upper: &Option<RangeBound>,
) -> (r: Vec<IndexEntry>)
    ensures
        entries_model(r@) == entries_within(
            entries_model(entries@),
            index_lookup::opt_range_bound(*lower),
            index_lookup::opt_range_bound(*upper),
        ),
        r.len() <= entries.len(),
{
    let ghost all = entries_model(entries@);
    let ghost lo = index_lookup::opt_range_bound(*lower);
    let ghost hi = index_lookup::opt_range_bound(*upper);
    let mut out: Vec<IndexEntry> = Vec::new();
    assert(all.take(0) =~= Seq::<(ValueModel, u64)>::empty());
    assert(entries_model(out@) =~= Seq::<(ValueModel, u64)>::empty());
    for i in 0..entries.len()
        invariant
            all == entries_model(entries@),
            lo == index_lookup::opt_range_bound(*lower),
            hi == index_lookup::opt_range_bound(*upper),
            out.len() <= i,
            entries_model(out@) == entries_within(all.take(i as int), lo, hi),
    {
        assert(all.take(i + 1).drop_last() =~= all.take(i as int));
        assert(all[i as int] == entry_model(entries@[i as int]));
        if is_behind_lower(&entries[i].key, lower) && is_before_upper(&entries[i].key, upper) {
            let ghost was = entries_model(out@);
            let e: IndexEntry = IndexEntry {
                key: entries[i].key.clone(),
                row_id: entries[i].row_id,
            };
            out.push(e);
            assert(entries_model(out@) =~= was.push(all[i as int]));
        }
    }
    assert(all.take(entries.len() as int) =~= all);
    out
}

/// Whether a key of an index lies behind that of NULL.
pub open spec fn past_null(key: ValueModel) -> bool {
    match key {
        ValueModel::Null => false,
        ValueModel::String(s) => null_order(s) == Order::Less,
        _ => true,
    }
}

/// Whether a key of an index lies behind that of NULL.
pub fn is_past_null(key: &Value) -> (r: bool)
    ensures
        r == past_null(key@),
{
    match key {
        Value::Null => false,
        Value::String(s) => matches!(compare_null(s.as_str()), Order::Less),
        _ => true,
    }
}

/// The rows that an index has in a range.
pub fn index_range_scan(
    entries: &Vec<IndexEntry>,
    lower: &Option<RangeBound>,
    upper: &Option<RangeBound>,
) -> (r: Vec<u64>)
    ensures
        r@ == ids_within(
            entries_model(entries@),
            index_lookup::opt_range_bound(*lower),
            index_lookup::opt_range_bound(*upper),
        ),
{
    let ghost all = entries_model(entries@);
    let ghost lo = index_lookup::opt_range_bound(*lower);
    let ghost hi = index_lookup::opt_range_bound(*upper);
    let mut out: Vec<u64> = Vec::new();
    assert(all.take(0) =~= Seq::<(ValueModel, u64)>::empty());
    for i in 0..entries.len()
        invariant
            all == entries_model(entries@),
            lo == index_lookup::opt_range_bound(*lower),
            hi == index_lookup::opt_range_bound(*upper),
            out@ == ids_within(all.take(i as int), lo, hi),
    {
        assert(all.take(i + 1).drop_last() =~= all.take(i as int));
        assert(all[i as int] == entry_model(entries@[i as int]));
        if is_behind_lower(&entries[i].key, lower) && is_before_upper(&entries[i].key, upper) {
            out.push(entries[i].row_id);
        }
    }
    assert(all.take(entries.len() as int) =~= all);
    out
}

/// The rows that a range of an index leads to, where it is worth the lookups:
/// where the range holds no more than a quarter of the entries.
pub open spec fn guarded_ids(entries: Seq<(ValueModel, u64)>, range: RangeModel) -> Option<Seq<u64>> {
    let ids = ids_within(entries, range.lower, range.upper);
    if entries.len() > 0 && ids.len() * 4 > entries.len() {
        None
    } else {
        Some(ids)
    }
}

/// The rows that a range of an index leads to, where it is worth the lookups.
pub fn guarded_range_ids(entries: &Vec<IndexEntry>, spec: &IndexRangeSpec) -> (r: Option<Vec<u64>>)
    ensures
        match r {
            Some(ids) => guarded_ids(entries_model(entries@), spec@) == Some(ids@),
            None => guarded_ids(entries_model(entries@), spec@) is None,
        },
{
    let ids: Vec<u64> = index_range_scan(entries, &spec.lower, &spec.upper);
    let total: u64 = entries.len() as u64;
    if index_lookup::range_pays(total, ids.len()) {
        Some(ids)
    } else {
        None
    }
}

/// A number put where it belongs among ascending numbers.
pub open spec fn inserted(s: Seq<u64>, x: u64) -> Seq<u64>
    decreases s.len(),
{
    if s.len() == 0 || s.last() <= x {
        s.push(x)
    } else {
        inserted(s.drop_last(), x).push(s.last())
    }
}

/// Numbers in ascending order.
pub open spec fn ascending(s: Seq<u64>) -> Seq<u64>
    decreases s.len(),
{
    if s.len() == 0 {
        Seq::empty()
    } else {
        inserted(ascending(s.drop_last()), s.last())
    }
}

proof fn lemma_inserted(s: Seq<u64>, x: u64)
    requires
        forall|i: int, j: int| 0 <= i <= j < s.len() ==> s[i] <= s[j],
    ensures
        inserted(s, x).to_multiset() == s.to_multiset().insert(x),
        inserted(s, x).len() == s.len() + 1,
        forall|i: int, j: int|
            0 <= i <= j < inserted(s, x).len() ==> inserted(s, x)[i] <= inserted(s, x)[j],
        s.len() > 0 ==> inserted(s, x).last() >= s.last(),
        inserted(s, x).last() >= x,
    decreases s.len(),
{
    broadcast use vstd::seq_lib::group_to_multiset_ensures;

    if s.len() != 0 && s.last() > x {
        let shorter = s.drop_last();
        assert forall|i: int, j: int| 0 <= i <= j < shorter.len() implies shorter[i] <= shorter[j] by {
            assert(s[i] <= s[j]);
        }
        lemma_inserted(shorter, x);
        let r = inserted(shorter, x);
        assert(s =~= shorter.push(s.last()));
        assert(inserted(s, x) =~= r.push(s.last()));
        assert(r.last() <= s.last()) by {
            lemma_inserted_bounded(shorter, x, s.last());
        }
        assert(r.push(s.last()).to_multiset() =~= s.to_multiset().insert(x));
    } else {
        assert(s.push(x).to_multiset() =~= s.to_multiset().insert(x));
    }
}

proof fn lemma_inserted_bounded(s: Seq<u64>, x: u64, top: u64)
    requires
        x <= top,
        forall|i: int| 0 <= i < s.len() ==> s[i] <= top,
    ensures
        inserted(s, x).len() == s.len() + 1,
        forall|i: int| 0 <= i < inserted(s, x).len() ==> inserted(s, x)[i] <= top,
    decreases s.len(),
{
    if s.len() != 0 && s.last() > x {
        lemma_inserted_bounded(s.drop_last(), x, top);
    }
}

/// Putting numbers in ascending order keeps each of them as often as it was.
pub proof fn law_ascending_is_a_sort(s: Seq<u64>)
    ensures
        ascending(s).to_multiset() == s.to_multiset(),
        forall|i: int, j: int|
            0 <= i <= j < ascending(s).len() ==> ascending(s)[i] <= ascending(s)[j],
    decreases s.len(),
{
    broadcast use vstd::seq_lib::group_to_multiset_ensures;

    if s.len() > 0 {
        law_ascending_is_a_sort(s.drop_last());
        lemma_inserted(ascending(s.drop_last()), s.last());
        assert(s =~= s.drop_last().push(s.last()));
        assert(s.to_multiset() =~= s.drop_last().to_multiset().insert(s.last()));
    } else {
        assert(s =~= Seq::<u64>::empty());
    }
}

proof fn lemma_inserted_at(s: Seq<u64>, x: u64, k: int)
    requires
        0 <= k <= s.len(),
        forall|i: int| k <= i < s.len() ==> #[trigger] s[i] > x,
        k > 0 ==> s[k - 1] <= x,
    ensures
        inserted(s, x) == s.insert(k, x),
    decreases s.len(),
{
    if k == s.len() {
        assert(s.insert(k, x) =~= s.push(x));
    } else {
        assert(s[s.len() - 1] > x);
        lemma_inserted_at(s.drop_last(), x, k);
        assert(s.insert(k, x) =~= s.drop_last().insert(k, x).push(s.last()));
    }
}

fn insert_ascending(v: &mut Vec<u64>, x: u64)
    ensures
        final(v)@ == inserted(old(v)@, x),
{
    let ghost before = v@;
    let mut k: usize = v.len();
    while k > 0
        invariant_except_break
            k <= v.len(),
            before == v@,
            forall|i: int| k <= i < v.len() ==> #[trigger] before[i] > x,
        ensures
            k <= v.len(),
            forall|i: int| k <= i < v.len() ==> #[trigger] before[i] > x,
            k > 0 ==> before[k - 1] <= x,
        decreases k,
    {
        if v[k - 1] <= x {
            break;
        }
        k = k - 1;
    }
    proof {
        lemma_inserted_at(before, x, k as int);
    }
    v.insert(k, x);
}

/// Puts numbers in ascending order.
pub fn sort_ids(ids: &Vec<u64>) -> (r: Vec<u64>)
    ensures
        r@ == ascending(ids@),
{
    let mut out: Vec<u64> = Vec::new();
    assert(ids@.take(0) =~= Seq::<u64>::empty());
    for i in 0..ids.len()
        invariant
            out@ == ascending(ids@.take(i as int)),
    {
        assert(ids@.take(i + 1).drop_last() =~= ids@.take(i as int));
        insert_ascending(&mut out, ids[i]);
    }
    assert(ids@.take(ids.len() as int) =~= ids@);
    out
}

/// Whether a name is among several from `from` on.
pub open spec fn is_listed(s: Seq<Seq<char>>, name: Seq<char>) -> bool {
    exists|i: int| 0 <= i < s.len() && #[trigger] s[i] == name
}

/// Whether a name is among several.
pub fn lists(names: &Vec<String>, name: &str) -> (r: bool)
    ensures
        r == is_listed(schema::texts(names@), name@),
{
    let ghost all = schema::texts(names@);
    for i in 0..names.len()
        invariant
            all == schema::texts(names@),
            forall|j: int| 0 <= j < i ==> #[trigger] all[j] != name@,
    {
        assert(all[i as int] == names@[i as int]@);
        if text::same_text(names[i].as_str(), name) {
            return true;
        }
    }
    assert(all.len() == names.len());
    false
}

impl StorageView {
    /// Finds a materialized view by its name.
    pub fn find_view(&self, name: &str) -> (r: Option<&MaterializedView>)
        ensures
            opt_view(r) == view_named(self@.materialized_views, name@, 0),
    {
        let ghost all = self@.materialized_views;
        let mut i: usize = 0;
        while i < self.materialized_views.len()
            invariant
                all == views_model(self.materialized_views@),
                i <= self.materialized_views.len(),
                view_named(all, name@, 0) == view_named(all, name@, i as int),
            decreases self.materialized_views.len() - i,
        {
            assert(all[i as int] == self.materialized_views@[i as int]@);
            if text::same_text(self.materialized_views[i].name.as_str(), name) {
                return Some(&self.materialized_views[i]);
            }
            i = i + 1;
        }
        None
    }

    /// The rows of a table at some time.
    pub fn rows_as_of(&self, table: &str, as_of: &AsOfClause) -> (r: Vec<Tuple>)
        ensures
            schema::rows_model(r@) == rows_then(self@.histories, table@, as_of@, 0),
    {
        let ghost all = self@.histories;
        let mut i: usize = 0;
        while i < self.histories.len()
            invariant
                all == histories_model(self.histories@),
                i <= self.histories.len(),
                rows_then(all, table@, as_of@, 0) == rows_then(all, table@, as_of@, i as int),
            decreases self.histories.len() - i,
        {
            assert(all[i as int] == self.histories@[i as int]@);
            if text::same_text(self.histories[i].table.as_str(), table) && same_as_of(
                &self.histories[i].as_of,
                as_of,
            ) {
                return schema::clone_tuples(&self.histories[i].rows);
            }
            i = i + 1;
        }
        let none: Vec<Tuple> = Vec::new();
        assert(schema::rows_model(none@) =~= Seq::<TupleModel>::empty());
        none
    }

    /// The entries of an index.
    pub fn index_entries(&self, index: &str) -> (r: Option<&Vec<IndexEntry>>)
        ensures
            opt_entries(r) == entries_of(self@.contents, index@, 0),
    {
        let ghost all = self@.contents;
        let mut i: usize = 0;
        while i < self.contents.len()
            invariant
                all == contents_model(self.contents@),
                i <= self.contents.len(),
                entries_of(all, index@, 0) == entries_of(all, index@, i as int),
            decreases self.contents.len() - i,
        {
            assert(all[i as int] == self.contents@[i as int]@);
            if text::same_text(self.contents[i].index.as_str(), index) {
                return Some(&self.contents[i].entries);
            }
            i = i + 1;
        }
        None
    }
}

/// Whether each statement of a transaction sees what was committed before it.
pub open spec fn statement_fresh(t: TransactionModel) -> bool {
    t.read_committed && t.in_session
}

/// Whether a transaction rules out reading the current state of any table.
pub open spec fn reads_slowly(txn: Option<TransactionModel>) -> bool {
    match txn {
        Some(t) => !statement_fresh(t),
        None => false,
    }
}

/// Whether a transaction rules out reading the current state of a table.
pub open spec fn reads_table_slowly(txn: Option<TransactionModel>, table: Seq<char>) -> bool {
    match txn {
        Some(t) => !statement_fresh(t) || is_listed(t.written, table),
        None => false,
    }
}

pub open spec fn opt_txn(t: Option<&TransactionView>) -> Option<TransactionModel> {
    match t {
        Some(x) => Some(x@),
        None => None,
    }
}

pub open spec fn opt_store(s: Option<&StorageView>) -> Option<StoreModel> {
    match s {
        Some(x) => Some(x@),
        None => None,
    }
}

/// Whether each statement of a transaction sees what was committed before it.
pub fn txn_snapshot_is_statement_fresh(txn: &TransactionView) -> (r: bool)
    ensures
        r == statement_fresh(txn@),
{
    txn.read_committed && txn.in_session
}

/// Whether a transaction rules out reading the current state of any table.
pub fn txn_forces_slow_reads(txn: Option<&TransactionView>) -> (r: bool)
    ensures
        r == reads_slowly(opt_txn(txn)),
{
    match txn {
        Some(t) => !txn_snapshot_is_statement_fresh(t),
        None => false,
    }
}

/// Whether a transaction rules out reading the current state of a table.
pub fn txn_forces_slow_reads_for_table(txn: Option<&TransactionView>, table: &str) -> (r: bool)
    ensures
        r == reads_table_slowly(opt_txn(txn), table@),
{
    match txn {
        Some(t) => !txn_snapshot_is_statement_fresh(t) || lists(&t.written, table),
        None => false,
    }
}

/// A table that the transaction has written is never read past it.
pub proof fn law_own_writes_are_seen(t: TransactionModel, table: Seq<char>)
    requires
        is_listed(t.written, table),
    ensures
        reads_table_slowly(Some(t), table),
{
}

} // verus!
