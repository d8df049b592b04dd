//! Columns, schemas, rows and errors.

use crate::text;
use crate::value;
use crate::value::{DataType, Value, ValueModel};
use vstd::prelude::*;
use vstd::string::*;

verus! {

/// Where a column's values are stored.
#[derive(Clone, Copy, Debug, PartialEq, Eq, Structural)]
pub enum ColumnStorageMode {
    Default,
    Dictionary,
    ContentAddressed,
    Columnar,
}

/// A column of a schema.
///
/// `source_table` is the name (alias first) under which the column's table is
/// visible in the query, `source_table_name` the table's own name.
#[derive(Debug)]
pub struct Column {
    pub name: String,
    pub data_type: DataType,
    pub nullable: bool,
    pub primary_key: bool,
    pub source_table: Option<String>,
    pub source_table_name: Option<String>,
    pub default_expr: Option<String>,
    pub unique: bool,
    pub storage_mode: ColumnStorageMode,
}

/// What a `Column` stands for.
#[verifier::ext_equal]
pub struct ColumnModel {
    pub name: Seq<char>,
    pub data_type: DataType,
    pub nullable: bool,
    pub primary_key: bool,
    pub source_table: Option<Seq<char>>,
    pub source_table_name: Option<Seq<char>>,
    pub default_expr: Option<Seq<char>>,
    pub unique: bool,
    pub storage_mode: ColumnStorageMode,
}

/// What an optional text stands for.
pub open spec fn opt_text(s: Option<String>) -> Option<Seq<char>> {
    match s {
        Some(t) => Some(t@),
        None => None,
    }
}

/// What an optional borrowed text stands for.
pub open spec fn opt_str(s: Option<&str>) -> Option<Seq<char>> {
    match s {
        Some(t) => Some(t@),
        None => None,
    }
}

/// What a list of texts stands for.
pub open spec fn texts(s: Seq<String>) -> Seq<Seq<char>> {
    s.map_values(|t: String| t@)
}

/// Whether a name is in a list.
pub open spec fn named_in(s: Seq<Seq<char>>, name: Seq<char>) -> bool {
    exists|i: int| 0 <= i < s.len() && #[trigger] s[i] == name
}

/// Whether a name is among some.
pub(crate) fn is_named_in(v: &Vec<String>, name: &str) -> (r: bool)
    ensures
        r == named_in(texts(v@), name@),
{
    let ghost model = texts(v@);
    let mut i: usize = 0;
    while i < v.len()
        invariant
            model == texts(v@),
            i <= v@.len(),
            forall|j: int| 0 <= j < i ==> #[trigger] model[j] != name@,
        decreases v.len() - i,
    {
        assert(model[i as int] == v@[i as int]@);
        if text::same_text(v[i].as_str(), name) {
            assert(model[i as int] == name@);
            return true;
        }
        i += 1;
    }
    false
}

impl View for Column {
    type V = ColumnModel;

    open spec fn view(&self) -> ColumnModel {
        ColumnModel {
            name: self.name@,
            data_type: self.data_type,
            nullable: self.nullable,
            primary_key: self.primary_key,
            source_table: opt_text(self.source_table),
            source_table_name: opt_text(self.source_table_name),
            default_expr: opt_text(self.default_expr),
            unique: self.unique,
            storage_mode: self.storage_mode,
        }
    }
}

impl Clone for Column {
    fn clone(&self) -> (r: Column)
        ensures
            r@ == self@,
    {
        Column {
            name: self.name.clone(),
            data_type: self.data_type.clone(),
            nullable: self.nullable,
            primary_key: self.primary_key,
            source_table: self.source_table.clone(),
            source_table_name: self.source_table_name.clone(),
            default_expr: self.default_expr.clone(),
            unique: self.unique,
            storage_mode: self.storage_mode,
        }
    }
}

/// A nullable column of the given name and type that belongs to no table.
pub open spec fn plain_column(name: Seq<char>, data_type: DataType) -> ColumnModel {
    ColumnModel {
        name,
        data_type,
        nullable: true,
        primary_key: false,
        source_table: None,
        source_table_name: None,
        default_expr: None,
        unique: false,
        storage_mode: ColumnStorageMode::Default,
    }
}

impl Column {
    /// A nullable column of the given name and type that belongs to no table.
    pub fn new(name: &str, data_type: DataType) -> (r: Column)
        ensures
            r@ == plain_column(name@, data_type),
    {
        Column {
            name: name.to_owned(),
            data_type,
            nullable: true,
            primary_key: false,
            source_table: None,
            source_table_name: None,
            default_expr: None,
            unique: false,
            storage_mode: ColumnStorageMode::Default,
        }
    }
}

/// An ordered list of columns.
#[derive(Debug)]
pub struct Schema {
    pub columns: Vec<Column>,
}

pub open spec fn columns_model(s: Seq<Column>) -> Seq<ColumnModel> {
    s.map_values(|c: Column| c@)
}

impl View for Schema {
    type V = Seq<ColumnModel>;

    open spec fn view(&self) -> Seq<ColumnModel> {
        columns_model(self.columns@)
    }
}

/// Clones a list of columns.
pub fn clone_columns(cols: &Vec<Column>) -> (r: Vec<Column>)
    ensures
        columns_model(r@) == columns_model(cols@),
        r.len() == cols.len(),
{
    let mut out: Vec<Column> = Vec::new();
    for i in 0..cols.len()
        invariant
            out.len() == i,
            forall|j: int| 0 <= j < i ==> (#[trigger] out@[j])@ == cols@[j]@,
    {
        out.push(cols[i].clone());
    }
    assert(columns_model(out@) =~= columns_model(cols@));
    out
}

impl Clone for Schema {
    fn clone(&self) -> (r: Schema)
        ensures
            r@ == self@,
    {
        Schema { columns: clone_columns(&self.columns) }
    }
}

/// The first position at or behind `from` whose column is called `name`.
pub open spec fn find_named(s: Seq<ColumnModel>, name: Seq<char>, from: int) -> Option<usize>
    decreases s.len() - from,
{
    if from < 0 || from >= s.len() {
        None
    } else if s[from].name == name {
        Some(from as usize)
    } else {
        find_named(s, name, from + 1)
    }
}

/// The first position at or behind `from` whose column is called `name` and
/// whose table is visible as `table`.
pub open spec fn find_aliased(
    s: Seq<ColumnModel>,
    table: Seq<char>,
    name: Seq<char>,
    from: int,
) -> Option<usize>
    decreases s.len() - from,
{
    if from < 0 || from >= s.len() {
        None
    } else if s[from].name == name && s[from].source_table == Some(table) {
        Some(from as usize)
    } else {
        find_aliased(s, table, name, from + 1)
    }
}

/// The first position at or behind `from` whose column is called `name` and
/// whose table's own name is `table`.
pub open spec fn find_tabled(
    s: Seq<ColumnModel>,
    table: Seq<char>,
    name: Seq<char>,
    from: int,
) -> Option<usize>
    decreases s.len() - from,
{
    if from < 0 || from >= s.len() {
        None
    } else if s[from].name == name && s[from].source_table_name == Some(table) {
        Some(from as usize)
    } else {
        find_tabled(s, table, name, from + 1)
    }
}

/// The position of a column by name.
pub open spec fn column_index(s: Seq<ColumnModel>, name: Seq<char>) -> Option<usize> {
    find_named(s, name, 0)
}

/// The position of a column by optional qualifier and name: a qualifier names
/// the table as the query sees it, or else the table itself.
pub open spec fn qualified_index(
    s: Seq<ColumnModel>,
    table: Option<Seq<char>>,
    name: Seq<char>,
) -> Option<usize> {
    match table {
        None => column_index(s, name),
        Some(t) => match find_aliased(s, t, name, 0) {
            Some(i) => Some(i),
            None => find_tabled(s, t, name, 0),
        },
    }
}

/// The position of a column by qualifier and name, or by name alone.
pub open spec fn qualified_or_bare_index(
    s: Seq<ColumnModel>,
    table: Option<Seq<char>>,
    name: Seq<char>,
) -> Option<usize> {
    match qualified_index(s, table, name) {
        Some(i) => Some(i),
        None => column_index(s, name),
    }
}

pub proof fn lemma_find_named(s: Seq<ColumnModel>, name: Seq<char>, from: int)
    requires
        0 <= from,
        s.len() <= usize::MAX,
    ensures
        match find_named(s, name, from) {
            Some(i) => from <= i < s.len() && s[i as int].name == name && forall|j: int|
                from <= j < i ==> (#[trigger] s[j]).name != name,
            None => forall|j: int| from <= j < s.len() ==> (#[trigger] s[j]).name != name,
        },
    decreases s.len() - from,
{
    if from < s.len() && s[from].name != name {
        lemma_find_named(s, name, from + 1);
    }
}

pub proof fn lemma_find_aliased(s: Seq<ColumnModel>, table: Seq<char>, name: Seq<char>, from: int)
    requires
        0 <= from,
        s.len() <= usize::MAX,
    ensures
        find_aliased(s, table, name, from) matches Some(i) ==> from <= i < s.len() && s[i as int].name
            == name && s[i as int].source_table == Some(table),
    decreases s.len() - from,
{
    if from < s.len() && !(s[from].name == name && s[from].source_table == Some(table)) {
        lemma_find_aliased(s, table, name, from + 1);
    }
}

pub proof fn lemma_find_tabled(s: Seq<ColumnModel>, table: Seq<char>, name: Seq<char>, from: int)
    requires
        0 <= from,
        s.len() <= usize::MAX,
    ensures
        find_tabled(s, table, name, from) matches Some(i) ==> from <= i < s.len() && s[i as int].name
            == name && s[i as int].source_table_name == Some(table),
    decreases s.len() - from,
{
    if from < s.len() && !(s[from].name == name && s[from].source_table_name == Some(table)) {
        lemma_find_tabled(s, table, name, from + 1);
    }
}

/// A position that a lookup gives is a position of the schema.
pub proof fn lemma_qualified_index_in_range(
    s: Seq<ColumnModel>,
    table: Option<Seq<char>>,
    name: Seq<char>,
)
    requires
        s.len() <= usize::MAX,
    ensures
        qualified_index(s, table, name) matches Some(i) ==> i < s.len() && s[i as int].name == name,
        qualified_or_bare_index(s, table, name) matches Some(i) ==> i < s.len()
            && s[i as int].name == name,
{
    lemma_find_named(s, name, 0);
    if table is Some {
        lemma_find_aliased(s, table->Some_0, name, 0);
        lemma_find_tabled(s, table->Some_0, name, 0);
    }
}

fn is_text(o: &Option<String>, t: &str) -> (r: bool)
    ensures
        r == (opt_text(*o) == Some(t@)),
{
    match o {
        Some(s) => text::same_text(s.as_str(), t),
        None => false,
    }
}

impl Schema {
    pub fn new(columns: Vec<Column>) -> (r: Schema)
        ensures
            r@ == columns_model(columns@),
    {
        Schema { columns }
    }

    /// The position of the first column called `name`.
    pub fn get_column_index(&self, name: &str) -> (r: Option<usize>)
        ensures
            r == column_index(self@, name@),
            r matches Some(i) ==> i < self.columns.len(),
    {
        let mut i: usize = 0;
        while i < self.columns.len()
            invariant
                i <= self.columns.len(),
                find_named(self@, name@, i as int) == column_index(self@, name@),
            decreases self.columns.len() - i,
        {
            assert(self@[i as int] == self.columns@[i as int]@);
            if text::same_text(self.columns[i].name.as_str(), name) {
                return Some(i);
            }
            i = i + 1;
        }
        None
    }

    /// The position of a column by optional qualifier and name.
    pub fn get_qualified_column_index(&self, table: Option<&str>, name: &str) -> (r: Option<usize>)
        ensures
            r == qualified_index(self@, opt_str(table), name@),
            r matches Some(i) ==> i < self.columns.len(),
    {
        match table {
            None => self.get_column_index(name),
            Some(t) => {
                let mut i: usize = 0;
                while i < self.columns.len()
                    invariant
                        table == Some(t),
                        i <= self.columns.len(),
                        find_aliased(self@, t@, name@, i as int) == find_aliased(
                            self@,
                            t@,
                            name@,
                            0,
                        ),
                    decreases self.columns.len() - i,
                {
                    assert(self@[i as int] == self.columns@[i as int]@);
                    if text::same_text(self.columns[i].name.as_str(), name) && is_text(
                        &self.columns[i].source_table,
                        t,
                    ) {
                        return Some(i);
                    }
                    i = i + 1;
                }
                let mut k: usize = 0;
                while k < self.columns.len()
                    invariant
                        table == Some(t),
                        k <= self.columns.len(),
                        find_aliased(self@, t@, name@, 0) is None,
                        find_tabled(self@, t@, name@, k as int) == find_tabled(self@, t@, name@, 0),
                    decreases self.columns.len() - k,
                {
                    assert(self@[k as int] == self.columns@[k as int]@);
                    if text::same_text(self.columns[k].name.as_str(), name) && is_text(
                        &self.columns[k].source_table_name,
                        t,
                    ) {
                        return Some(k);
                    }
                    k = k + 1;
                }
                None
            },
        }
    }

    /// The position of a column by qualifier and name, or by name alone.
    pub fn find_column(&self, table: &Option<String>, name: &str) -> (r: Option<usize>)
        ensures
            r == qualified_or_bare_index(self@, opt_text(*table), name@),
            r matches Some(i) ==> i < self.columns.len(),
    {
        match self.get_qualified_column_index(as_str(table), name) {
            Some(i) => Some(i),
            None => self.get_column_index(name),
        }
    }
}

/// Borrows an optional text.
pub fn as_str(s: &Option<String>) -> (r: Option<&str>)
    ensures
        opt_str(r) == opt_text(*s),
{
    match s {
        Some(t) => Some(t.as_str()),
        None => None,
    }
}

/// Clones a list of texts.
pub fn clone_texts(v: &Vec<String>) -> (r: Vec<String>)
    ensures
        texts(r@) == texts(v@),
        r@ =~= v@,
{
    let mut out: Vec<String> = Vec::new();
    for i in 0..v.len()
        invariant
            out.len() == i,
            forall|j: int| 0 <= j < i ==> #[trigger] out@[j] == v@[j],
    {
        out.push(v[i].clone());
    }
    assert(out@ =~= v@);
    out
}

/// A row: its values, and where it is stored.
#[derive(Debug)]
pub struct Tuple {
    pub values: Vec<Value>,
    pub row_id: Option<u64>,
    pub branch_id: Option<u64>,
}

/// What a `Tuple` stands for.
#[verifier::ext_equal]
pub struct TupleModel {
    pub values: Seq<ValueModel>,
    pub row_id: Option<u64>,
    pub branch_id: Option<u64>,
}

impl View for Tuple {
    type V = TupleModel;

    open spec fn view(&self) -> TupleModel {
        TupleModel {
            values: value::values_model(self.values@),
            row_id: self.row_id,
            branch_id: self.branch_id,
        }
    }
}

/// A row that is stored nowhere.
pub open spec fn loose_row(values: Seq<ValueModel>) -> TupleModel {
    TupleModel { values, row_id: None, branch_id: None }
}

/// What a list of rows stands for.
pub open spec fn rows_model(s: Seq<Tuple>) -> Seq<TupleModel> {
    s.map_values(|t: Tuple| t@)
}

impl Clone for Tuple {
    fn clone(&self) -> (r: Tuple)
        ensures
            r@ == self@,
    {
        Tuple {
            values: value::clone_values(&self.values),
            row_id: self.row_id,
            branch_id: self.branch_id,
        }
    }
}

/// Clones a list of rows.
pub fn clone_tuples(v: &Vec<Tuple>) -> (r: Vec<Tuple>)
    ensures
        rows_model(r@) == rows_model(v@),
        r.len() == v.len(),
{
    let mut out: Vec<Tuple> = Vec::new();
    for i in 0..v.len()
        invariant
            out.len() == i,
            forall|j: int| 0 <= j < i ==> (#[trigger] out@[j])@ == v@[j]@,
    {
        out.push(v[i].clone());
    }
    assert(rows_model(out@) =~= rows_model(v@));
    out
}

impl Tuple {
    pub fn new(values: Vec<Value>) -> (r: Tuple)
        ensures
            r@ == loose_row(value::values_model(values@)),
            r.values == values,
    {
        Tuple { values, row_id: None, branch_id: None }
    }

    /// The value at a position.
    pub fn get(&self, index: usize) -> (r: Option<&Value>)
        ensures
            match r {
                Some(v) => index < self@.values.len() && v@ == self@.values[index as int],
                None => index >= self@.values.len(),
            },
    {
        if index < self.values.len() {
            Some(&self.values[index])
        } else {
            None
        }
    }

    /// Whether two rows are the same in values and storage place.
    pub fn same(&self, other: &Tuple) -> (r: bool)
        ensures
            r == (self@ == other@),
    {
        same_opt_u64(self.row_id, other.row_id) && same_opt_u64(self.branch_id, other.branch_id)
            && value::same_values(&self.values, &other.values)
    }
}

fn same_opt_u64(a: Option<u64>, b: Option<u64>) -> (r: bool)
    ensures
        r == (a == b),
{
    match (a, b) {
        (Some(x), Some(y)) => x == y,
        (None, None) => true,
        _ => false,
    }
}

/// What went wrong, with the message for the user.
#[derive(Debug)]
pub enum Error {
    QueryExecution(String),
    QueryTimeout(String),
    Storage(String),
    /// What is left to the database around the executor.
    Unsupported(String),
}

/// What an `Error` stands for.
pub enum ErrorModel {
    QueryExecution(Seq<char>),
    QueryTimeout(Seq<char>),
    Storage(Seq<char>),
    Unsupported(Seq<char>),
}

impl View for Error {
    type V = ErrorModel;

    open spec fn view(&self) -> ErrorModel {
        match self {
            Error::QueryExecution(m) => ErrorModel::QueryExecution(m@),
            Error::QueryTimeout(m) => ErrorModel::QueryTimeout(m@),
            Error::Storage(m) => ErrorModel::Storage(m@),
            Error::Unsupported(m) => ErrorModel::Unsupported(m@),
        }
    }
}

/// The message of an error.
pub open spec fn error_text(e: ErrorModel) -> Seq<char> {
    match e {
        ErrorModel::QueryExecution(m) => m,
        ErrorModel::QueryTimeout(m) => m,
        ErrorModel::Storage(m) => m,
        ErrorModel::Unsupported(m) => m,
    }
}

impl Error {
    pub fn query_execution(message: String) -> (r: Error)
        ensures
            r@ == ErrorModel::QueryExecution(message@),
    {
        Error::QueryExecution(message)
    }

    pub fn query_timeout(message: String) -> (r: Error)
        ensures
            r@ == ErrorModel::QueryTimeout(message@),
    {
        Error::QueryTimeout(message)
    }

    pub fn storage(message: String) -> (r: Error)
        ensures
            r@ == ErrorModel::Storage(message@),
    {
        Error::Storage(message)
    }

    pub fn unsupported(message: String) -> (r: Error)
        ensures
            r@ == ErrorModel::Unsupported(message@),
    {
        Error::Unsupported(message)
    }

    /// Whether the error says that something is left to the database around the
    /// executor, rather than that the query is at fault.
    pub fn is_refusal(&self) -> (r: bool)
        ensures
            r == (self@ is Unsupported),
    {
        matches!(self, Error::Unsupported(_))
    }

    /// The message for the user.
    pub fn to_string(&self) -> (r: String)
        ensures
            r@ == error_text(self@),
    {
        match self {
            Error::QueryExecution(m) => m.clone(),
            Error::QueryTimeout(m) => m.clone(),
            Error::Storage(m) => m.clone(),
            Error::Unsupported(m) => m.clone(),
        }
    }
}

impl Clone for Error {
    fn clone(&self) -> (r: Error)
        ensures
            r@ == self@,
    {
        match self {
            Error::QueryExecution(m) => Error::QueryExecution(m.clone()),
            Error::QueryTimeout(m) => Error::QueryTimeout(m.clone()),
            Error::Storage(m) => Error::Storage(m.clone()),
            Error::Unsupported(m) => Error::Unsupported(m.clone()),
        }
    }
}

/// A column is found by its name, and by its qualifier where one is given: one that is seen
/// under the qualifier comes before one whose table merely has that name, and of several
/// the first is taken. None is found only where none is there.
pub proof fn law_a_column_is_found_by_its_names(
    s: Seq<ColumnModel>,
    table: Option<Seq<char>>,
    name: Seq<char>,
)
    requires
        s.len() <= usize::MAX,
    ensures
        match (table, qualified_index(s, table, name)) {
            (None, Some(i)) => i < s.len() && s[i as int].name == name && forall|j: int|
                0 <= j < i ==> (#[trigger] s[j]).name != name,
            (None, None) => forall|j: int| 0 <= j < s.len() ==> (#[trigger] s[j]).name != name,
            (Some(t), Some(i)) => {
                let seen = s[i as int].source_table == Some(t);
                &&& i < s.len()
                &&& s[i as int].name == name
                &&& seen || s[i as int].source_table_name == Some(t)
                &&& forall|j: int|
                    0 <= j < s.len() && (#[trigger] s[j]).name == name && s[j].source_table == Some(
                        t,
                    ) ==> seen && i <= j
                &&& !seen ==> forall|j: int|
                    0 <= j < i ==> !((#[trigger] s[j]).name == name && s[j].source_table_name
                        == Some(t))
            },
            (Some(t), None) => forall|j: int|
                0 <= j < s.len() && (#[trigger] s[j]).name == name ==> s[j].source_table != Some(t)
                    && s[j].source_table_name != Some(t),
        },
{
    match table {
        None => {
            lemma_find_named(s, name, 0);
        },
        Some(t) => {
            lemma_first_aliased(s, t, name, 0);
            lemma_first_tabled(s, t, name, 0);
        },
    }
}

proof fn lemma_first_aliased(s: Seq<ColumnModel>, t: Seq<char>, name: Seq<char>, from: int)
    requires
        0 <= from,
        s.len() <= usize::MAX,
    ensures
        match find_aliased(s, t, name, from) {
            Some(i) => from <= i < s.len() && s[i as int].name == name && s[i as int].source_table
                == Some(t) && forall|j: int|
                from <= j < i ==> !((#[trigger] s[j]).name == name && s[j].source_table == Some(t)),
            None => forall|j: int|
                from <= j < s.len() ==> !((#[trigger] s[j]).name == name && s[j].source_table
                    == Some(t)),
        },
    decreases s.len() - from,
{
    if from < s.len() && !(s[from].name == name && s[from].source_table == Some(t)) {
        lemma_first_aliased(s, t, name, from + 1);
    }
}

proof fn lemma_first_tabled(s: Seq<ColumnModel>, t: Seq<char>, name: Seq<char>, from: int)
    requires
        0 <= from,
        s.len() <= usize::MAX,
    ensures
        match find_tabled(s, t, name, from) {
            Some(i) => from <= i < s.len() && s[i as int].name == name && s[i as int].source_table_name
                == Some(t) && forall|j: int|
                from <= j < i ==> !((#[trigger] s[j]).name == name && s[j].source_table_name == Some(
                    t,
                )),
            None => forall|j: int|
                from <= j < s.len() ==> !((#[trigger] s[j]).name == name && s[j].source_table_name
                    == Some(t)),
        },
    decreases s.len() - from,
{
    if from < s.len() && !(s[from].name == name && s[from].source_table_name == Some(t)) {
        lemma_first_tabled(s, t, name, from + 1);
    }
}

} // verus!
