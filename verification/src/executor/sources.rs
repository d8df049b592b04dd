//! Where the rows of a scan come from: common table expressions, system views,
//! materialized views, tables and their indexes.

use crate::debug_text;
use crate::executor::cluster::{ClusterModel, ClusterView};
use crate::executor::filter;
use crate::executor::filter::FilterOperator;
use crate::executor::handle_count;
use crate::executor::index_lookup;
use crate::executor::index_lookup::IndexRangeSpec;
use crate::executor::join_pair;
use crate::executor::operator;
use crate::executor::project;
use crate::executor::scan;
use crate::executor::scan::MaterializedOperator;
use crate::executor::semantics;
use crate::executor::sort;
use crate::executor::storage_view;
use crate::executor::storage_view::{
    IndexEntry, StorageView, StoreModel, StoredTable, TransactionModel, TransactionView,
};
use crate::executor::table_function;
use crate::logical_plan;
use crate::logical_plan::{
    AsOfClause, AsOfModel, ExprModel, LogicalExpr, LogicalPlan, PlanModel,
};
use crate::schema;
use crate::schema::{Column, ColumnModel, Error, ErrorModel, Schema, Tuple, TupleModel};
use crate::text;
use crate::value;
use crate::value::{Value, ValueModel};
use std::sync::Arc;
use vstd::prelude::*;
use vstd::string::*;

verus! {

/// What the operator of a server can switch: the memory that a join may take,
/// and which shortcuts are off.
#[derive(Clone, Copy)]
pub struct Settings {
    pub join_memory_limit: usize,
    pub index_range_off: bool,
    pub lookup_join_off: bool,
    pub build_right_only: bool,
}

impl Settings {
    /// The built-in settings: all shortcuts on, the built-in memory cap.
    pub fn standard() -> (r: Settings)
        ensures
            r == standard_settings(),
    {
        Settings {
            join_memory_limit: join_pair::default_memory_limit(),
            index_range_off: false,
            lookup_join_off: false,
            build_right_only: false,
        }
    }
}

pub open spec fn standard_settings() -> Settings {
    Settings {
        join_memory_limit: join_pair::default_limit(),
        index_range_off: false,
        lookup_join_off: false,
        build_right_only: false,
    }
}

/// What a query runs on: the storage, the transaction, its bind parameters and
/// the settings.
pub struct Context<'a> {
    pub storage: Option<&'a StorageView>,
    pub transaction: Option<&'a TransactionView>,
    pub parameters: Vec<Value>,
    pub settings: Settings,
    /// The names of the system views, which are known without a storage.
    pub system_view_names: Vec<String>,
    /// The cluster that the node is in, where it can be in one.
    pub cluster: Option<&'a ClusterView>,
}

/// What a `Context` stands for.
#[verifier::ext_equal]
pub struct Env {
    pub storage: Option<StoreModel>,
    pub transaction: Option<TransactionModel>,
    pub params: Seq<ValueModel>,
    pub settings: Settings,
    pub system_view_names: Seq<Seq<char>>,
    pub cluster: Option<ClusterModel>,
}

impl<'a> View for Context<'a> {
    type V = Env;

    open spec fn view(&self) -> Env {
        Env {
            storage: storage_view::opt_store(self.storage),
            transaction: storage_view::opt_txn(self.transaction),
            params: value::values_model(self.parameters@),
            settings: self.settings,
            system_view_names: schema::texts(self.system_view_names@),
            cluster: match self.cluster {
                Some(c) => Some(c@),
                None => None,
            },
        }
    }
}

/// A materialized common table expression.
pub struct CteData {
    pub name: String,
    pub tuples: Arc<Vec<Tuple>>,
    pub schema: Arc<Schema>,
}

#[verifier::ext_equal]
pub struct CteModel {
    pub name: Seq<char>,
    pub rows: Seq<TupleModel>,
    pub columns: Seq<ColumnModel>,
}

impl View for CteData {
    type V = CteModel;

    open spec fn view(&self) -> CteModel {
        CteModel {
            name: self.name@,
            rows: schema::rows_model(self.tuples@),
            columns: self.schema@,
        }
    }
}

impl Clone for CteData {
    fn clone(&self) -> (r: CteData)
        ensures
            r@ == self@,
    {
        CteData {
            name: self.name.clone(),
            tuples: self.tuples.clone(),
            schema: self.schema.clone(),
        }
    }
}

pub open spec fn opt_cte(c: Option<&CteData>) -> Option<CteModel> {
    match c {
        Some(x) => Some(x@),
        None => None,
    }
}

/// The name under which a scanned table is seen.
pub open spec fn source_name(alias: Option<Seq<char>>, table: Seq<char>) -> Seq<char> {
    match alias {
        Some(a) => a,
        None => table,
    }
}

/// A column that is told which table it comes from.
pub open spec fn sourced_column(c: ColumnModel, source: Seq<char>, table: Seq<char>) -> ColumnModel {
    ColumnModel { source_table: Some(source), source_table_name: Some(table), ..c }
}

/// Columns that are told which table they come from.
pub open spec fn sourced(
    cols: Seq<ColumnModel>,
    source: Seq<char>,
    table: Seq<char>,
) -> Seq<ColumnModel> {
    Seq::new(cols.len(), |i: int| sourced_column(cols[i], source, table))
}

/// Tells the columns of a schema which table they come from.
pub fn schema_with_source(schema: &Schema, source: &str, table: &str) -> (r: Schema)
    ensures
        r@ == sourced(schema@, source@, table@),
{
    let mut columns: Vec<Column> = Vec::new();
    for i in 0..schema.columns.len()
        invariant
            columns.len() == i,
            forall|j: int|
                0 <= j < i ==> (#[trigger] columns@[j])@ == sourced_column(
                    schema.columns@[j]@,
                    source@,
                    table@,
                ),
    {
        let mut c: Column = schema.columns[i].clone();
        c.source_table = Some(source.to_owned());
        c.source_table_name = Some(table.to_owned());
        columns.push(c);
    }
    let r = Schema { columns };
    assert(r@ =~= sourced(schema@, source@, table@));
    r
}

pub(crate) fn pick_source<'a>(alias: &'a Option<String>, table: &'a str) -> (r: &'a str)
    ensures
        r@ == source_name(schema::opt_text(*alias), table@),
{
    match alias {
        Some(a) => a.as_str(),
        None => table,
    }
}

/// The error for a materialized view that holds no rows yet.
pub open spec fn never_refreshed(name: Seq<char>) -> ErrorModel {
    ErrorModel::QueryExecution(
        "Materialized view '"@ + name
            + "' exists but has never been refreshed. Run: REFRESH MATERIALIZED VIEW "@ + name,
    )
}

/// The error for a table that is not there.
pub open spec fn no_such_table(name: Seq<char>) -> ErrorModel {
    ErrorModel::Storage("Table '"@ + name + "' does not exist"@)
}

/// The error for a look at the past where no past is kept.
pub open spec fn no_time_travel() -> ErrorModel {
    ErrorModel::QueryExecution(
        "AS OF / time-travel queries require time_travel_enabled = true"@,
    )
}

/// The columns of a stored table or materialized view, and the table that holds
/// its rows.
pub open spec fn stored_source(s: StoreModel, name: Seq<char>) -> Result<
    (Seq<ColumnModel>, Seq<char>),
    ErrorModel,
> {
    match storage_view::view_named(s.materialized_views, name, 0) {
        Some(v) => if storage_view::table_named(s.tables, v.data_table, 0) is None {
            Err(never_refreshed(name))
        } else {
            Ok((v.columns, v.data_table))
        },
        None => match storage_view::table_named(s.tables, name, 0) {
            Some(t) => Ok((t.columns, name)),
            None => Err(no_such_table(name)),
        },
    }
}

/// The rows of the table of some name; none where there is no such table.
pub open spec fn rows_of_table(tables: Seq<storage_view::TableModel>, name: Seq<char>) -> Seq<
    TupleModel,
> {
    match storage_view::table_named(tables, name, 0) {
        Some(t) => t.rows,
        None => Seq::empty(),
    }
}

/// The rows that a scan of a stored table reads: as its transaction sees them,
/// as they were at some time, or as they are.
pub open spec fn rows_read(
    s: StoreModel,
    txn: Option<TransactionModel>,
    table: Seq<char>,
    as_of: Option<AsOfModel>,
) -> Result<Seq<TupleModel>, ErrorModel> {
    match txn {
        Some(t) => Ok(rows_of_table(t.tables, table)),
        None => match as_of {
            Some(a) => if s.time_travel_enabled {
                Ok(storage_view::rows_then(s.histories, table, a, 0))
            } else {
                Err(no_time_travel())
            },
            None => Ok(rows_of_table(s.tables, table)),
        },
    }
}

/// A system view is made of what is in a storage.
pub open spec fn needs_storage() -> ErrorModel {
    ErrorModel::QueryExecution("system view requires storage context"@)
}

/// The columns and the rows that a scan starts from: a common table expression
/// hides a system view, which hides a materialized view, which hides a table.
/// Without a storage there is nothing to read, and a system view cannot be made.
pub open spec fn scan_source(
    table: Seq<char>,
    alias: Option<Seq<char>>,
    plan_cols: Seq<ColumnModel>,
    as_of: Option<AsOfModel>,
    env: Env,
    cte: Option<CteModel>,
) -> Result<(Seq<ColumnModel>, Seq<TupleModel>), ErrorModel> {
    let source = source_name(alias, table);
    match cte {
        Some(c) => Ok((sourced(c.columns, source, table), c.rows)),
        None => match env.storage {
            None => if schema::named_in(env.system_view_names, table) {
                Err(needs_storage())
            } else {
                Ok((plan_cols, Seq::empty()))
            },
            Some(s) => match storage_view::table_named(s.system_views, table, 0) {
                Some(v) => Ok((sourced(v.columns, source, table), v.rows)),
                None => match stored_source(s, table) {
                    Err(e) => Err(e),
                    Ok(found) => match rows_read(s, env.transaction, found.1, as_of) {
                        Err(e) => Err(e),
                        Ok(rows) => Ok((sourced(found.0, source, table), rows)),
                    },
                },
            },
        },
    }
}

/// What a scan starts from.
pub struct ScanSource {
    pub schema: Arc<Schema>,
    pub rows: Arc<Vec<Tuple>>,
}

pub open spec fn source_result(r: Result<ScanSource, Error>) -> Result<
    (Seq<ColumnModel>, Seq<TupleModel>),
    ErrorModel,
> {
    match r {
        Ok(s) => Ok((s.schema@, schema::rows_model(s.rows@))),
        Err(e) => Err(e@),
    }
}

fn find_stored_source<'a>(store: &'a StorageView, name: &'a str) -> (r: Result<
    (&'a Schema, &'a str),
    Error,
>)
    ensures
        match r {
            Ok(f) => stored_source(store@, name@) == Ok::<(Seq<ColumnModel>, Seq<char>), ErrorModel>(
                (f.0@, f.1@),
            ),
            Err(e) => stored_source(store@, name@) == Err::<
                (Seq<ColumnModel>, Seq<char>),
                ErrorModel,
            >(e@),
        },
{
    if let Some(v) = store.find_view(name) {
        if storage_view::find_table(&store.tables, v.data_table.as_str()).is_none() {
            return Err(never_refreshed_error(name));
        }
        return Ok((&v.schema, v.data_table.as_str()));
    }
    match storage_view::find_table(&store.tables, name) {
        Some(t) => Ok((&t.schema, name)),
        None => Err(
            Error::storage(text::concat3("Table '", name, "' does not exist")),
        ),
    }
}

fn never_refreshed_error(name: &str) -> (r: Error)
    ensures
        r@ == never_refreshed(name@),
{
    let mut m: String = text::concat3(
        "Materialized view '",
        name,
        "' exists but has never been refreshed. Run: REFRESH MATERIALIZED VIEW ",
    );
    m.append(name);
    Error::query_execution(m)
}

fn clone_rows_of_table(tables: &Vec<StoredTable>, name: &str) -> (r: Vec<Tuple>)
    ensures
        schema::rows_model(r@) == rows_of_table(storage_view::tables_model(tables@), name@),
{
    match storage_view::find_table(tables, name) {
        Some(t) => schema::clone_tuples(&t.rows),
        None => {
            let none: Vec<Tuple> = Vec::new();
            assert(schema::rows_model(none@) =~= Seq::<TupleModel>::empty());
            none
        },
    }
}

fn read_rows(
    store: &StorageView,
    txn: Option<&TransactionView>,
    table: &str,
    as_of: &Option<AsOfClause>,
) -> (r: Result<Vec<Tuple>, Error>)
    ensures
        sort::rows_result(r) == rows_read(
            store@,
            storage_view::opt_txn(txn),
            table@,
            logical_plan::opt_as_of(*as_of),
        ),
{
    match txn {
        Some(t) => Ok(clone_rows_of_table(&t.tables, table)),
        None => match as_of {
            Some(a) => if store.time_travel_enabled {
                Ok(store.rows_as_of(table, a))
            } else {
                Err(
                    Error::query_execution(
                        "AS OF / time-travel queries require time_travel_enabled = true".to_owned(),
                    ),
                )
            },
            None => Ok(clone_rows_of_table(&store.tables, table)),
        },
    }
}

/// Finds what a scan starts from.
pub fn find_scan_source(
    table: &str,
    alias: &Option<String>,
    plan_schema: &Arc<Schema>,
    as_of: &Option<AsOfClause>,
    ctx: &Context<'_>,
    cte: Option<&CteData>,
) -> (r: Result<ScanSource, Error>)
    ensures
        source_result(r) == scan_source(
            table@,
            schema::opt_text(*alias),
            plan_schema@,
            logical_plan::opt_as_of(*as_of),
            ctx@,
            opt_cte(cte),
        ),
{
    let source: &str = pick_source(alias, table);
    if let Some(c) = cte {
        return Ok(
            ScanSource {
                schema: Arc::new(schema_with_source(&c.schema, source, table)),
                rows: c.tuples.clone(),
            },
        );
    }
    let store: &StorageView = match ctx.storage {
        Some(s) => s,
        None => {
            if schema::is_named_in(&ctx.system_view_names, table) {
                return Err(
                    Error::query_execution("system view requires storage context".to_owned()),
                );
            }
            let none: Vec<Tuple> = Vec::new();
            assert(schema::rows_model(none@) =~= Seq::<TupleModel>::empty());
            return Ok(ScanSource { schema: plan_schema.clone(), rows: Arc::new(none) });
        },
    };
    if let Some(v) = storage_view::find_table(&store.system_views, table) {
        return Ok(
            ScanSource {
                schema: Arc::new(schema_with_source(&v.schema, source, table)),
                rows: Arc::new(schema::clone_tuples(&v.rows)),
            },
        );
    }
    let (found, actual): (&Schema, &str) = match find_stored_source(store, table) {
        Ok(f) => f,
        Err(e) => {
            return Err(e);
        },
    };
    match read_rows(store, ctx.transaction, actual, as_of) {
        Ok(rows) => Ok(
            ScanSource {
                schema: Arc::new(schema_with_source(found, source, table)),
                rows: Arc::new(rows),
            },
        ),
        Err(e) => Err(e),
    }
}

/// The table that holds the rows behind a name, for counting them.
pub open spec fn counted_table(store: Option<StoreModel>, name: Seq<char>) -> Result<
    Seq<char>,
    ErrorModel,
> {
    match store {
        None => Ok(name),
        Some(s) => match storage_view::view_named(s.materialized_views, name, 0) {
            None => Ok(name),
            Some(v) => if storage_view::table_named(s.tables, v.data_table, 0) is None {
                Err(never_refreshed(name))
            } else {
                Ok(v.data_table)
            },
        },
    }
}

pub open spec fn text_result(r: Result<String, Error>) -> Result<Seq<char>, ErrorModel> {
    match r {
        Ok(s) => Ok(s@),
        Err(e) => Err(e@),
    }
}

/// The table that holds the rows behind a name.
pub fn fast_path_storage_table_name(storage: Option<&StorageView>, name: &str) -> (r: Result<
    String,
    Error,
>)
    ensures
        text_result(r) == counted_table(storage_view::opt_store(storage), name@),
{
    match storage {
        None => Ok(name.to_owned()),
        Some(s) => match s.find_view(name) {
            None => Ok(name.to_owned()),
            Some(v) => if storage_view::find_table(&s.tables, v.data_table.as_str()).is_none() {
                Err(never_refreshed_error(name))
            } else {
                Ok(v.data_table.clone())
            },
        },
    }
}

/// The rows that a predicate keeps; the first error ends it.
pub open spec fn kept_rows(
    rows: Seq<TupleModel>,
    predicate: ExprModel,
    cols: Seq<ColumnModel>,
    params: Seq<ValueModel>,
) -> Result<Seq<TupleModel>, ErrorModel> {
    let s = filter::filtered(operator::just_rows(rows), predicate, cols, params);
    match s.end {
        Some(e) => Err(e),
        None => Ok(s.rows),
    }
}

/// Keeps the rows that satisfy a predicate.
pub fn filter_tuples_with_evaluator(
    tuples: Vec<Tuple>,
    schema: Arc<Schema>,
    predicate: &LogicalExpr,
    parameters: &Vec<Value>,
) -> (r: Result<Vec<Tuple>, Error>)
    ensures
        sort::rows_result(r) == kept_rows(
            schema::rows_model(tuples@),
            predicate@,
            schema@,
            value::values_model(parameters@),
        ),
{
    let source: MaterializedOperator = MaterializedOperator::new(tuples, schema);
    let mut op: FilterOperator<MaterializedOperator> = FilterOperator::new(
        Box::new(source),
        predicate.clone(),
        value::clone_values(parameters),
    );
    match operator::drain(&mut op) {
        Ok(rows) => Ok(rows),
        Err(e) => Err(e),
    }
}

/// Whether the current rows of a stored table can be looked up in its indexes.
pub open spec fn can_look_up(
    env: Env,
    cte: Option<CteModel>,
    table: Seq<char>,
    as_of: Option<AsOfModel>,
) -> bool {
    match env.storage {
        None => false,
        Some(s) => {
            &&& !s.branch_active
            &&& !storage_view::reads_table_slowly(env.transaction, table)
            &&& as_of is None
            &&& cte is None
            &&& storage_view::view_named(s.materialized_views, table, 0) is None
            &&& storage_view::table_named(s.tables, table, 0) is Some
        },
    }
}

/// Whether the current rows of a stored table can be looked up in its indexes.
pub fn table_can_be_looked_up(
    ctx: &Context<'_>,
    cte: Option<&CteData>,
    table: &str,
    as_of: &Option<AsOfClause>,
) -> (r: bool)
    ensures
        r == can_look_up(ctx@, opt_cte(cte), table@, logical_plan::opt_as_of(*as_of)),
{
    match ctx.storage {
        None => false,
        Some(s) => !s.branch_active && !storage_view::txn_forces_slow_reads_for_table(
            ctx.transaction,
            table,
        ) && as_of.is_none() && cte.is_none() && s.find_view(table).is_none()
            && storage_view::find_table(&s.tables, table).is_some(),
    }
}

/// The entries of an index; none where it is not known.
pub open spec fn known_entries(s: StoreModel, index: Seq<char>) -> Seq<(ValueModel, u64)> {
    match storage_view::entries_of(s.contents, index, 0) {
        Some(e) => e,
        None => Seq::empty(),
    }
}

/// The rows that a predicate keeps of those that an index has for the value it
/// asks for. `None` where it asks for no such value.
pub open spec fn point_rows(
    s: StoreModel,
    params: Seq<ValueModel>,
    table: Seq<char>,
    alias: Option<Seq<char>>,
    cols: Seq<ColumnModel>,
    predicate: ExprModel,
) -> Result<Option<Seq<TupleModel>>, ErrorModel> {
    match index_lookup::index_point(predicate, cols, params, s.indexes, table) {
        None => Ok(None),
        Some(p) => match kept_rows(
            storage_view::rows_with_ids(
                rows_of_table(s.tables, table),
                storage_view::ids_at(known_entries(s, p.0), p.1),
            ),
            predicate,
            sourced(cols, source_name(alias, table), table),
            params,
        ) {
            Ok(rows) => Ok(Some(rows)),
            Err(e) => Err(e),
        },
    }
}

/// The rows that a predicate keeps of those that an index has in a range.
/// `None` where the range is not worth the lookups.
pub open spec fn range_rows(
    s: StoreModel,
    params: Seq<ValueModel>,
    table: Seq<char>,
    alias: Option<Seq<char>>,
    cols: Seq<ColumnModel>,
    range: index_lookup::RangeModel,
    predicate: ExprModel,
) -> Result<Option<Seq<TupleModel>>, ErrorModel> {
    match storage_view::entries_of(s.contents, range.index_name, 0) {
        None => Ok(None),
        Some(entries) => match storage_view::guarded_ids(entries, range) {
            None => Ok(None),
            Some(ids) => match kept_rows(
                storage_view::rows_with_ids(
                    rows_of_table(s.tables, table),
                    storage_view::ascending(ids),
                ),
                predicate,
                sourced(cols, source_name(alias, table), table),
                params,
            ) {
                Ok(rows) => Ok(Some(rows)),
                Err(e) => Err(e),
            },
        },
    }
}

pub open spec fn opt_rows_result(r: Result<Option<Vec<Tuple>>, Error>) -> Result<
    Option<Seq<TupleModel>>,
    ErrorModel,
> {
    match r {
        Ok(Some(v)) => Ok(Some(schema::rows_model(v@))),
        Ok(None) => Ok(None),
        Err(e) => Err(e@),
    }
}

fn fetch_and_filter(
    store: &StorageView,
    parameters: &Vec<Value>,
    table: &str,
    alias: &Option<String>,
    schema: &Schema,
    ids: &Vec<u64>,
    predicate: &LogicalExpr,
) -> (r: Result<Vec<Tuple>, Error>)
    ensures
        sort::rows_result(r) == kept_rows(
            storage_view::rows_with_ids(rows_of_table(store@.tables, table@), ids@),
            predicate@,
            sourced(schema@, source_name(schema::opt_text(*alias), table@), table@),
            value::values_model(parameters@),
        ),
{
    let none: Vec<Tuple> = Vec::new();
    assert(schema::rows_model(none@) =~= Seq::<TupleModel>::empty());
    let rows: Vec<Tuple> = match storage_view::find_table(&store.tables, table) {
        Some(t) => storage_view::fetch_rows(&t.rows, ids),
        None => storage_view::fetch_rows(&none, ids),
    };
    let shown: Arc<Schema> = Arc::new(schema_with_source(schema, pick_source(alias, table), table));
    filter_tuples_with_evaluator(rows, shown, predicate, parameters)
}

/// Looks up the rows of the value that a predicate asks for.
pub fn look_up_point(
    store: &StorageView,
    parameters: &Vec<Value>,
    table: &str,
    alias: &Option<String>,
    schema: &Schema,
    predicate: &LogicalExpr,
) -> (r: Result<Option<Vec<Tuple>>, Error>)
    ensures
        opt_rows_result(r) == point_rows(
            store@,
            value::values_model(parameters@),
            table@,
            schema::opt_text(*alias),
            schema@,
            predicate@,
        ),
{
    let (index_name, key): (String, Value) = match index_lookup::indexed_equality_lookup(
        &store.indexes,
        table,
        schema,
        predicate,
        parameters,
    ) {
        Some(p) => p,
        None => {
            return Ok(None);
        },
    };
    let none: Vec<IndexEntry> = Vec::new();
    assert(storage_view::entries_model(none@) =~= Seq::<(ValueModel, u64)>::empty());
    let ids: Vec<u64> = match store.index_entries(index_name.as_str()) {
        Some(e) => storage_view::index_get_all(e, &key),
        None => storage_view::index_get_all(&none, &key),
    };
    match fetch_and_filter(store, parameters, table, alias, schema, &ids, predicate) {
        Ok(rows) => Ok(Some(rows)),
        Err(e) => Err(e),
    }
}

/// Looks up the rows of a range.
pub fn look_up_range(
    store: &StorageView,
    parameters: &Vec<Value>,
    table: &str,
    alias: &Option<String>,
    schema: &Schema,
    range: &IndexRangeSpec,
    predicate: &LogicalExpr,
) -> (r: Result<Option<Vec<Tuple>>, Error>)
    ensures
        opt_rows_result(r) == range_rows(
            store@,
            value::values_model(parameters@),
            table@,
            schema::opt_text(*alias),
            schema@,
            range@,
            predicate@,
        ),
{
    let entries: &Vec<IndexEntry> = match store.index_entries(range.index_name.as_str()) {
        Some(e) => e,
        None => {
            return Ok(None);
        },
    };
    let ids: Vec<u64> = match storage_view::guarded_range_ids(entries, range) {
        Some(ids) => storage_view::sort_ids(&ids),
        None => {
            return Ok(None);
        },
    };
    match fetch_and_filter(store, parameters, table, alias, schema, &ids, predicate) {
        Ok(rows) => Ok(Some(rows)),
        Err(e) => Err(e),
    }
}

/// Every row that an index lookup gives is a row of the table on which the
/// predicate holds.
pub proof fn law_lookups_give_rows_that_satisfy(
    s: StoreModel,
    params: Seq<ValueModel>,
    table: Seq<char>,
    alias: Option<Seq<char>>,
    cols: Seq<ColumnModel>,
    predicate: ExprModel,
    i: int,
)
    requires
        point_rows(s, params, table, alias, cols, predicate) matches Ok(Some(rows)) && 0 <= i
            < rows.len(),
    ensures
        ({
            let row = point_rows(s, params, table, alias, cols, predicate)->Ok_0->Some_0[i];
            &&& rows_of_table(s.tables, table).contains(row)
            &&& filter::keeps(
                crate::evaluator::eval(
                    predicate,
                    sourced(cols, source_name(alias, table), table),
                    params,
                    row.values,
                ),
            ) == Ok::<bool, ErrorModel>(true)
        }),
{
    let p = index_lookup::index_point(predicate, cols, params, s.indexes, table)->Some_0;
    let all = rows_of_table(s.tables, table);
    let ids = storage_view::ids_at(known_entries(s, p.0), p.1);
    let fetched = storage_view::rows_with_ids(all, ids);
    let shown = sourced(cols, source_name(alias, table), table);
    lemma_fetched_are_rows(all, ids);
    lemma_kept_satisfy(operator::just_rows(fetched), predicate, shown, params);
    let row = point_rows(s, params, table, alias, cols, predicate)->Ok_0->Some_0[i];
    assert(fetched.contains(row));
    let k = choose|k: int| 0 <= k < fetched.len() && fetched[k] == row;
    assert(all.contains(fetched[k]));
}

/// Every row that reading a range of an index gives is a row of the table on which
/// the predicate holds.
pub proof fn law_range_scans_give_rows_that_satisfy(
    s: StoreModel,
    params: Seq<ValueModel>,
    table: Seq<char>,
    alias: Option<Seq<char>>,
    cols: Seq<ColumnModel>,
    range: index_lookup::RangeModel,
    predicate: ExprModel,
    i: int,
)
    requires
        range_rows(s, params, table, alias, cols, range, predicate) matches Ok(Some(rows)) && 0 <= i
            < rows.len(),
    ensures
        ({
            let row = range_rows(s, params, table, alias, cols, range, predicate)->Ok_0->Some_0[i];
            &&& rows_of_table(s.tables, table).contains(row)
            &&& filter::keeps(
                crate::evaluator::eval(
                    predicate,
                    sourced(cols, source_name(alias, table), table),
                    params,
                    row.values,
                ),
            ) == Ok::<bool, ErrorModel>(true)
        }),
{
    let all = rows_of_table(s.tables, table);
    let entries = storage_view::entries_of(s.contents, range.index_name, 0)->Some_0;
    let ids = storage_view::ascending(storage_view::guarded_ids(entries, range)->Some_0);
    let fetched = storage_view::rows_with_ids(all, ids);
    let shown = sourced(cols, source_name(alias, table), table);
    lemma_fetched_are_rows(all, ids);
    lemma_kept_satisfy(operator::just_rows(fetched), predicate, shown, params);
    let row = range_rows(s, params, table, alias, cols, range, predicate)->Ok_0->Some_0[i];
    assert(fetched.contains(row));
    let k = choose|k: int| 0 <= k < fetched.len() && fetched[k] == row;
    assert(all.contains(fetched[k]));
}

proof fn lemma_found_is_a_row(rows: Seq<TupleModel>, id: u64, from: int)
    ensures
        storage_view::row_with_id(rows, id, from) matches Some(t) ==> rows.contains(t),
    decreases rows.len() - from,
{
    if 0 <= from < rows.len() && rows[from].row_id != Some(id) {
        lemma_found_is_a_row(rows, id, from + 1);
    }
}

proof fn lemma_fetched_are_rows(rows: Seq<TupleModel>, ids: Seq<u64>)
    ensures
        forall|k: int|
            0 <= k < storage_view::rows_with_ids(rows, ids).len() ==> rows.contains(
                #[trigger] storage_view::rows_with_ids(rows, ids)[k],
            ),
    decreases ids.len(),
{
    if ids.len() > 0 {
        lemma_fetched_are_rows(rows, ids.drop_last());
        lemma_found_is_a_row(rows, ids.last(), 0);
        let before = storage_view::rows_with_ids(rows, ids.drop_last());
        let r = storage_view::rows_with_ids(rows, ids);
        assert forall|k: int| 0 <= k < r.len() implies rows.contains(#[trigger] r[k]) by {
            if k < before.len() {
                assert(r[k] == before[k]);
            }
        }
    }
}

proof fn lemma_kept_satisfy(
    s: operator::RowStream,
    predicate: ExprModel,
    cols: Seq<ColumnModel>,
    params: Seq<ValueModel>,
)
    ensures
        forall|k: int|
            0 <= k < filter::filtered(s, predicate, cols, params).rows.len() ==> s.rows.contains(
                #[trigger] filter::filtered(s, predicate, cols, params).rows[k],
            ) && filter::keeps(
                crate::evaluator::eval(
                    predicate,
                    cols,
                    params,
                    filter::filtered(s, predicate, cols, params).rows[k].values,
                ),
            ) == Ok::<bool, ErrorModel>(true),
    decreases s.rows.len(),
{
    if s.rows.len() > 0 {
        let rest = filter::filtered(s.rest(), predicate, cols, params);
        lemma_kept_satisfy(s.rest(), predicate, cols, params);
        let here = filter::keeps(crate::evaluator::eval(predicate, cols, params, s.rows[0].values));
        let r = filter::filtered(s, predicate, cols, params);
        assert forall|k: int| 0 <= k < r.rows.len() implies s.rows.contains(#[trigger] r.rows[k])
            && filter::keeps(
            crate::evaluator::eval(predicate, cols, params, r.rows[k].values),
        ) == Ok::<bool, ErrorModel>(true) by {
            if here == Ok::<bool, ErrorModel>(true) {
                if k == 0 {
                    assert(s.rows[0] == r.rows[0]);
                } else {
                    assert(r.rows[k] == rest.rows[k - 1]);
                    let j = choose|j: int|
                        0 <= j < s.rest().rows.len() && s.rest().rows[j] == rest.rows[k - 1];
                    assert(s.rows[j + 1] == r.rows[k]);
                }
            } else {
                assert(r.rows[k] == rest.rows[k]);
                let j = choose|j: int|
                    0 <= j < s.rest().rows.len() && s.rest().rows[j] == rest.rows[k];
                assert(s.rows[j + 1] == r.rows[k]);
            }
        }
    }
}

/// A `LIMIT` or `OFFSET` that names a parameter which was not given.
pub open spec fn bound_missing(index: usize, given: nat) -> ErrorModel {
    ErrorModel::QueryExecution(
        "LIMIT/OFFSET parameter $"@ + text::decimal(index as nat) + " not provided (have "@
            + text::decimal(given) + " parameters)"@,
    )
}

/// A `LIMIT` or `OFFSET` parameter whose text spells no number.
pub open spec fn bound_misspelled(index: usize, s: Seq<char>) -> ErrorModel {
    ErrorModel::QueryExecution(
        "LIMIT/OFFSET parameter $"@ + text::decimal(index as nat) + " is not an integer: "@
            + debug_text::str_debug_text(s),
    )
}

/// A `LIMIT` or `OFFSET` parameter that is no number at all.
pub open spec fn bound_of_other_kind(index: usize, v: ValueModel) -> ErrorModel {
    ErrorModel::QueryExecution(
        "LIMIT/OFFSET parameter $"@ + text::decimal(index as nat)
            + " must be integer or integer-string, got "@ + debug_text::value_text(v),
    )
}

/// A number of rows, none where it is negative.
pub open spec fn row_count(n: i64) -> usize {
    if n < 0 {
        0
    } else {
        n as usize
    }
}

/// A `LIMIT` or `OFFSET`: the number that stands in the query, or that of a
/// parameter. NULL leaves the number that stands there.
pub open spec fn bound_value(
    standing: usize,
    param: Option<usize>,
    params: Seq<ValueModel>,
) -> Result<usize, ErrorModel> {
    match param {
        None => Ok(standing),
        Some(index) => {
            let at = if index == 0 {
                0
            } else {
                index - 1
            };
            if at >= params.len() {
                Err(bound_missing(index, params.len()))
            } else {
                match params[at] {
                    ValueModel::Int2(n) => Ok(row_count(n as i64)),
                    ValueModel::Int4(n) => Ok(row_count(n as i64)),
                    ValueModel::Int8(n) => Ok(row_count(n)),
                    ValueModel::String(s) => match text::spelled_usize(s) {
                        Some(n) => Ok(n),
                        None => Err(bound_misspelled(index, s)),
                    },
                    ValueModel::Null => Ok(standing),
                    v => Err(bound_of_other_kind(index, v)),
                }
            }
        },
    }
}

fn to_row_count(n: i64) -> (r: usize)
    ensures
        r == row_count(n),
{
    if n < 0 {
        0
    } else {
        n as usize
    }
}

pub open spec fn bound_result(r: Result<usize, Error>) -> Result<usize, ErrorModel> {
    match r {
        Ok(n) => Ok(n),
        Err(e) => Err(e@),
    }
}

/// Resolves a `LIMIT` or `OFFSET`.
pub fn resolve_bound(standing: usize, param: Option<usize>, params: &Vec<Value>) -> (r: Result<
    usize,
    Error,
>)
    ensures
        bound_result(r) == bound_value(standing, param, value::values_model(params@)),
{
    proof {
        value::lemma_values_model(params@);
    }
    let index: usize = match param {
        Some(i) => i,
        None => {
            return Ok(standing);
        },
    };
    let at: usize = if index == 0 {
        0
    } else {
        index - 1
    };
    if at >= params.len() {
        let mut m: String = text::concat_number(
            "LIMIT/OFFSET parameter $",
            index as u128,
            " not provided (have ",
        );
        text::append_decimal(&mut m, params.len() as u128);
        m.append(" parameters)");
        return Err(Error::query_execution(m));
    }
    match &params[at] {
        Value::Int2(n) => Ok(to_row_count(*n as i64)),
        Value::Int4(n) => Ok(to_row_count(*n as i64)),
        Value::Int8(n) => Ok(to_row_count(*n)),
        Value::String(s) => match text::parse_usize(s.as_str()) {
            Some(n) => Ok(n),
            None => {
                let mut m: String = text::concat_number(
                    "LIMIT/OFFSET parameter $",
                    index as u128,
                    " is not an integer: ",
                );
                m.append(debug_text::debug_str(s.as_str()).as_str());
                Err(Error::query_execution(m))
            },
        },
        Value::Null => Ok(standing),
        v => {
            let mut m: String = text::concat_number(
                "LIMIT/OFFSET parameter $",
                index as u128,
                " must be integer or integer-string, got ",
            );
            m.append(debug_text::show_value(v).as_str());
            Err(Error::query_execution(m))
        },
    }
}

/// The columns that a plan will give, as far as the plan alone tells.
pub open spec fn plan_columns(p: PlanModel) -> Seq<ColumnModel>
    decreases p,
{
    match p {
        PlanModel::Scan { table_name, alias, schema, projection, as_of } => scan::scanned_columns(
            projection,
            schema,
        ),
        PlanModel::FilteredScan { table_name, alias, schema, projection, predicate, as_of } =>
            scan::scanned_columns(projection, schema),
        PlanModel::TableFunction { function_name, args, alias } => seq![
            table_function::function_column(function_name, alias),
        ],
        PlanModel::Filter { input, predicate } => plan_columns(*input),
        PlanModel::Limit { input, limit, offset, limit_param, offset_param } => plan_columns(
            *input,
        ),
        PlanModel::Sort { input, exprs, asc } => plan_columns(*input),
        PlanModel::Project { input, exprs, aliases, distinct, distinct_on, source_alias } =>
            project::output_columns(aliases, exprs, plan_columns(*input)),
        PlanModel::Join { left, right, join_type, on, lateral } => plan_columns(*left)
            + plan_columns(*right),
        PlanModel::Union { left, right, all } => plan_columns(*left),
        PlanModel::Intersect { left, right, all } => plan_columns(*left),
        PlanModel::Except { left, right, all } => plan_columns(*left),
        PlanModel::With { ctes, query, recursive } => plan_columns(*query),
        PlanModel::Rows { schema, rows } => schema,
        PlanModel::Aggregate { input, group_by, aggr_exprs, having } => if semantics::is_count_star(
            group_by,
            aggr_exprs,
            having,
        ) {
            seq![semantics::count_column()]
        } else {
            Seq::empty()
        },
        _ => Seq::empty(),
    }
}

/// The columns that a plan will give, as far as the plan alone tells.
pub fn plan_schema(plan: &LogicalPlan) -> (r: Arc<Schema>)
    ensures
        r@ == plan_columns(plan@),
    decreases plan,
{
    match plan {
        LogicalPlan::Scan { schema, projection, .. } => projected_schema(schema, projection),
        LogicalPlan::FilteredScan { schema, projection, .. } => projected_schema(
            schema,
            projection,
        ),
        LogicalPlan::TableFunction { function_name, alias, .. } =>
            table_function::build_table_function_schema(function_name.as_str(), alias),
        LogicalPlan::Filter { input, .. } => plan_schema(input),
        LogicalPlan::Limit { input, .. } => plan_schema(input),
        LogicalPlan::Sort { input, .. } => plan_schema(input),
        LogicalPlan::Project { input, exprs, aliases, .. } => {
            let inner: Arc<Schema> = plan_schema(input);
            Arc::new(project::projection_schema(aliases, exprs, &inner))
        },
        LogicalPlan::Join { left, right, .. } => {
            let l: Arc<Schema> = plan_schema(left);
            let r: Arc<Schema> = plan_schema(right);
            Arc::new(join_pair::combined_schema(&l, &r))
        },
        LogicalPlan::Union { left, .. } => plan_schema(left),
        LogicalPlan::Intersect { left, .. } => plan_schema(left),
        LogicalPlan::Except { left, .. } => plan_schema(left),
        LogicalPlan::With { query, .. } => plan_schema(query),
        LogicalPlan::Rows { schema, .. } => schema.clone(),
        LogicalPlan::Aggregate { group_by, aggr_exprs, having, .. } => {
            if handle_count::is_count_star(group_by, aggr_exprs, having) {
                handle_count::count_star_schema()
            } else {
                no_columns()
            }
        },
        _ => no_columns(),
    }
}

fn no_columns() -> (r: Arc<Schema>)
    ensures
        r@ == Seq::<ColumnModel>::empty(),
{
    let columns: Vec<Column> = Vec::new();
    let r = Arc::new(Schema { columns });
    assert(r@ =~= Seq::<ColumnModel>::empty());
    r
}

fn projected_schema(schema: &Arc<Schema>, projection: &Option<Vec<usize>>) -> (r: Arc<Schema>)
    ensures
        r@ == scan::scanned_columns(logical_plan::opt_positions(*projection), schema@),
{
    match projection {
        None => schema.clone(),
        Some(p) => {
            let columns: Vec<Column> = scan::keep_columns(p, schema);
            Arc::new(Schema { columns })
        },
    }
}

/// The columns of a common table expression: those of its plan, under the given
/// names where there is one for each.
pub open spec fn cte_columns(p: PlanModel, names: Option<Seq<Seq<char>>>) -> Seq<ColumnModel> {
    let cols = plan_columns(p);
    match names {
        Some(n) => if n.len() == cols.len() {
            Seq::new(cols.len(), |i: int| ColumnModel { name: n[i], ..cols[i] })
        } else {
            cols
        },
        None => cols,
    }
}

/// The schema of a common table expression.
pub fn cte_schema(plan: &LogicalPlan, names: &Option<Vec<String>>) -> (r: Arc<Schema>)
    ensures
        r@ == cte_columns(plan@, logical_plan::opt_names(*names)),
{
    let base: Arc<Schema> = plan_schema(plan);
    assert(base@.len() == base.columns.len());
    let given: &Vec<String> = match names {
        Some(n) => n,
        None => {
            return base;
        },
    };
    assert(schema::texts(given@).len() == given.len());
    if given.len() != base.columns.len() {
        return base;
    }
    let ghost cols = base@;
    let mut columns: Vec<Column> = Vec::new();
    for i in 0..given.len()
        invariant
            cols == base@,
            given.len() == base.columns.len(),
            columns.len() == i,
            forall|j: int|
                0 <= j < i ==> (#[trigger] columns@[j])@ == (ColumnModel {
                    name: given@[j]@,
                    ..cols[j]
                }),
    {
        let mut c: Column = base.columns[i].clone();
        assert(cols[i as int] == base.columns@[i as int]@);
        c.name = given[i].clone();
        columns.push(c);
    }
    let r = Arc::new(Schema { columns });
    assert(r@ =~= cte_columns(plan@, logical_plan::opt_names(*names)));
    r
}

} // verus!
