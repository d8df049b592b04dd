//! Statements that change the catalog: what they come to, and what the storage
//! has to do for them.

use crate::debug_text;
use crate::executor::knn::VectorMetric;
use crate::executor::sources;
use crate::executor::storage_view;
use crate::executor::storage_view::{StorageView, StoredTable, StoreModel, TableModel};
use crate::logical_plan;
use crate::logical_plan::{
    IndexOption, IndexOptionModel, LogicalPlan, PlanModel, QuantizationType,
};
use crate::schema;
use crate::schema::{Error, ErrorModel, Tuple, TupleModel};
use crate::text;
use crate::value::{DataType, Value, ValueModel};
use vstd::prelude::*;

verus! {

/// The kinds of index: ordered trees, vector graphs, and those that only have a
/// definition.
#[derive(Clone, Copy, PartialEq, Eq, Structural, Debug)]
pub enum IndexFamily {
    Art,
    Vector,
    DdlOnly,
}

/// The kind of index that a name of an index type stands for; without one it is
/// a tree.
pub open spec fn family_of(tag: Option<Seq<char>>) -> Option<IndexFamily> {
    match tag {
        None => Some(IndexFamily::Art),
        Some(t) => if t == "art"@ || t == "btree"@ || t == "hash"@ {
            Some(IndexFamily::Art)
        } else if t == "hnsw"@ || t == "hnsw_pq"@ || t == "persistent_hnsw"@ {
            Some(IndexFamily::Vector)
        } else if t == "gin"@ || t == "gist"@ {
            Some(IndexFamily::DdlOnly)
        } else {
            None
        },
    }
}

/// The kind of index that a name of an index type stands for.
pub fn index_family(tag: Option<&str>) -> (r: Option<IndexFamily>)
    ensures
        r == family_of(schema::opt_str(tag)),
{
    let t: &str = match tag {
        Some(t) => t,
        None => {
            return Some(IndexFamily::Art);
        },
    };
    if text::same_text(t, "art") || text::same_text(t, "btree") || text::same_text(t, "hash") {
        Some(IndexFamily::Art)
    } else if text::same_text(t, "hnsw") || text::same_text(t, "hnsw_pq") || text::same_text(
        t,
        "persistent_hnsw",
    ) {
        Some(IndexFamily::Vector)
    } else if text::same_text(t, "gin") || text::same_text(t, "gist") {
        Some(IndexFamily::DdlOnly)
    } else {
        None
    }
}

/// What an index backs.
#[derive(Clone, Copy, PartialEq, Eq, Structural, Debug)]
pub enum IndexKind {
    PrimaryKey,
    Unique,
    ForeignKey,
    Manual,
}

/// The constraint that an index backs.
pub open spec fn constraint_noun(kind: IndexKind) -> Option<Seq<char>> {
    match kind {
        IndexKind::PrimaryKey => Some("PRIMARY KEY"@),
        IndexKind::Unique => Some("UNIQUE"@),
        IndexKind::ForeignKey => Some("FOREIGN KEY"@),
        IndexKind::Manual => None,
    }
}

/// The constraint that an index backs.
pub fn constraint_index_kind(kind: IndexKind) -> (r: Option<&'static str>)
    ensures
        schema::opt_str(r) == constraint_noun(kind),
{
    match kind {
        IndexKind::PrimaryKey => Some("PRIMARY KEY"),
        IndexKind::Unique => Some("UNIQUE"),
        IndexKind::ForeignKey => Some("FOREIGN KEY"),
        IndexKind::Manual => None,
    }
}

/// An index that the storage has registered.
#[derive(Debug)]
pub struct RegisteredIndex {
    pub name: String,
    pub kind: IndexKind,
    pub table: String,
}

/// An index definition in the catalog; without one that can be read where
/// `decodable` is false.
#[derive(Debug)]
pub struct IndexDefinition {
    pub name: String,
    pub index_type: Option<String>,
    pub decodable: bool,
}

/// The tables that are partitions of another one.
#[derive(Debug)]
pub struct PartitionLink {
    pub parent: String,
    pub children: Vec<String>,
}

/// What the catalog knows beside tables.
#[derive(Debug)]
pub struct CatalogView {
    pub registered: Vec<RegisteredIndex>,
    pub vector_indexes: Vec<String>,
    pub definitions: Vec<IndexDefinition>,
    pub partitions: Vec<PartitionLink>,
    pub hnsw_m: usize,
    pub hnsw_ef_construction: usize,
}

#[verifier::ext_equal]
pub struct RegisteredModel {
    pub name: Seq<char>,
    pub kind: IndexKind,
    pub table: Seq<char>,
}

#[verifier::ext_equal]
pub struct DefinitionModel {
    pub name: Seq<char>,
    pub index_type: Option<Seq<char>>,
    pub decodable: bool,
}

#[verifier::ext_equal]
pub struct LinkModel {
    pub parent: Seq<char>,
    pub children: Seq<Seq<char>>,
}

#[verifier::ext_equal]
pub struct CatalogModel {
    pub registered: Seq<RegisteredModel>,
    pub vector_indexes: Seq<Seq<char>>,
    pub definitions: Seq<DefinitionModel>,
    pub partitions: Seq<LinkModel>,
    pub hnsw_m: usize,
    pub hnsw_ef_construction: usize,
}

pub open spec fn registered_model(s: Seq<RegisteredIndex>) -> Seq<RegisteredModel> {
    Seq::new(
        s.len(),
        |i: int| RegisteredModel { name: s[i].name@, kind: s[i].kind, table: s[i].table@ },
    )
}

pub open spec fn definitions_model(s: Seq<IndexDefinition>) -> Seq<DefinitionModel> {
    Seq::new(
        s.len(),
        |i: int|
            DefinitionModel {
                name: s[i].name@,
                index_type: schema::opt_text(s[i].index_type),
                decodable: s[i].decodable,
            },
    )
}

pub open spec fn links_model(s: Seq<PartitionLink>) -> Seq<LinkModel> {
    Seq::new(
        s.len(),
        |i: int| LinkModel { parent: s[i].parent@, children: schema::texts(s[i].children@) },
    )
}

impl View for CatalogView {
    type V = CatalogModel;

    open spec fn view(&self) -> CatalogModel {
        CatalogModel {
            registered: registered_model(self.registered@),
            vector_indexes: schema::texts(self.vector_indexes@),
            definitions: definitions_model(self.definitions@),
            partitions: links_model(self.partitions@),
            hnsw_m: self.hnsw_m,
            hnsw_ef_construction: self.hnsw_ef_construction,
        }
    }
}

impl CatalogView {
    /// A catalog with nothing in it, and the usual parameters of vector graphs.
    pub fn empty() -> (r: CatalogView)
        ensures
            r@ == (CatalogModel {
                registered: Seq::empty(),
                vector_indexes: Seq::empty(),
                definitions: Seq::empty(),
                partitions: Seq::empty(),
                hnsw_m: 16,
                hnsw_ef_construction: 200,
            }),
    {
        let r: CatalogView = CatalogView {
            registered: Vec::new(),
            vector_indexes: Vec::new(),
            definitions: Vec::new(),
            partitions: Vec::new(),
            hnsw_m: 16,
            hnsw_ef_construction: 200,
        };
        assert(r@.registered =~= Seq::<RegisteredModel>::empty());
        assert(r@.vector_indexes =~= Seq::<Seq<char>>::empty());
        assert(r@.definitions =~= Seq::<DefinitionModel>::empty());
        assert(r@.partitions =~= Seq::<LinkModel>::empty());
        r
    }
}

/// The registered index of a name, from a position on.
pub open spec fn registered_as(s: Seq<RegisteredModel>, name: Seq<char>, from: nat) -> Option<
    RegisteredModel,
>
    decreases s.len() - from,
{
    if from >= s.len() {
        None
    } else if s[from as int].name == name {
        Some(s[from as int])
    } else {
        registered_as(s, name, from + 1)
    }
}

/// The definition of a name, from a position on.
pub open spec fn defined_as(s: Seq<DefinitionModel>, name: Seq<char>, from: nat) -> Option<
    DefinitionModel,
>
    decreases s.len() - from,
{
    if from >= s.len() {
        None
    } else if s[from as int].name == name {
        Some(s[from as int])
    } else {
        defined_as(s, name, from + 1)
    }
}

fn find_registered<'a>(v: &'a Vec<RegisteredIndex>, name: &str) -> (r: Option<&'a RegisteredIndex>)
    ensures
        match r {
            Some(x) => registered_as(registered_model(v@), name@, 0) == Some(
                (RegisteredModel { name: x.name@, kind: x.kind, table: x.table@ }),
            ),
            None => registered_as(registered_model(v@), name@, 0) is None,
        },
{
    let ghost model = registered_model(v@);
    let mut i: usize = 0;
    while i < v.len()
        invariant
            model == registered_model(v@),
            i <= v@.len(),
            registered_as(model, name@, 0) == registered_as(model, name@, i as nat),
        decreases v.len() - i,
    {
        if text::same_text(v[i].name.as_str(), name) {
            return Some(&v[i]);
        }
        i += 1;
    }
    None
}

fn find_definition<'a>(v: &'a Vec<IndexDefinition>, name: &str) -> (r: Option<&'a IndexDefinition>)
    ensures
        match r {
            Some(x) => defined_as(definitions_model(v@), name@, 0) == Some(
                (DefinitionModel {
                    name: x.name@,
                    index_type: schema::opt_text(x.index_type),
                    decodable: x.decodable,
                }),
            ),
            None => defined_as(definitions_model(v@), name@, 0) is None,
        },
{
    let ghost model = definitions_model(v@);
    let mut i: usize = 0;
    while i < v.len()
        invariant
            model == definitions_model(v@),
            i <= v@.len(),
            defined_as(model, name@, 0) == defined_as(model, name@, i as nat),
        decreases v.len() - i,
    {
        if text::same_text(v[i].name.as_str(), name) {
            return Some(&v[i]);
        }
        i += 1;
    }
    None
}

pub open spec fn failure(message: Seq<char>) -> ErrorModel {
    ErrorModel::QueryExecution(message)
}

/// The metric that an option names.
pub open spec fn metric_named(name: Seq<char>) -> Option<VectorMetric> {
    if name == "l2"@ || name == "euclidean"@ {
        Some(VectorMetric::L2)
    } else if name == "cosine"@ {
        Some(VectorMetric::Cosine)
    } else if name == "ip"@ || name == "inner_product"@ {
        Some(VectorMetric::InnerProduct)
    } else {
        None
    }
}

/// The metric that the first `n` options ask for; the last one counts.
pub open spec fn metric_of_options(options: Seq<IndexOptionModel>, n: nat) -> Result<
    VectorMetric,
    ErrorModel,
>
    decreases n,
{
    if n == 0 || n > options.len() {
        Ok(VectorMetric::L2)
    } else {
        match metric_of_options(options, (n - 1) as nat) {
            Err(e) => Err(e),
            Ok(m) => match options[n - 1] {
                IndexOptionModel::DistanceMetric(name) => match metric_named(name) {
                    Some(x) => Ok(x),
                    None => Err(
                        failure("Unsupported vector index metric '"@ + name + "'"@),
                    ),
                },
                _ => Ok(m),
            },
        }
    }
}

proof fn lemma_metric_stops(options: Seq<IndexOptionModel>, k: nat, n: nat)
    requires
        k <= n <= options.len(),
        metric_of_options(options, k) is Err,
    ensures
        metric_of_options(options, n) == metric_of_options(options, k),
    decreases n,
{
    if k < n {
        lemma_metric_stops(options, k, (n - 1) as nat);
    }
}

fn find_metric(name: &str) -> (r: Option<VectorMetric>)
    ensures
        r == metric_named(name@),
{
    if text::same_text(name, "l2") || text::same_text(name, "euclidean") {
        Some(VectorMetric::L2)
    } else if text::same_text(name, "cosine") {
        Some(VectorMetric::Cosine)
    } else if text::same_text(name, "ip") || text::same_text(name, "inner_product") {
        Some(VectorMetric::InnerProduct)
    } else {
        None
    }
}

/// The metric that options ask for.
pub fn vector_distance_metric(options: &Vec<IndexOption>) -> (r: Result<VectorMetric, Error>)
    ensures
        match r {
            Ok(m) => metric_of_options(logical_plan::options_model(options@), options@.len())
                == Ok::<VectorMetric, ErrorModel>(m),
            Err(e) => metric_of_options(logical_plan::options_model(options@), options@.len())
                == Err::<VectorMetric, ErrorModel>(e@),
        },
{
    let ghost model = logical_plan::options_model(options@);
    let mut metric: VectorMetric = VectorMetric::L2;
    let mut i: usize = 0;
    while i < options.len()
        invariant
            model == logical_plan::options_model(options@),
            i <= options@.len(),
            metric_of_options(model, i as nat) == Ok::<VectorMetric, ErrorModel>(metric),
        decreases options.len() - i,
    {
        assert(model[i as int] == options@[i as int]@);
        if let IndexOption::DistanceMetric(name) = &options[i] {
            match find_metric(name.as_str()) {
                Some(m) => {
                    metric = m;
                },
                None => {
                    proof {
                        lemma_metric_stops(model, (i + 1) as nat, model.len());
                    }
                    return Err(
                        Error::query_execution(
                            text::concat3("Unsupported vector index metric '", name.as_str(), "'"),
                        ),
                    );
                },
            }
        }
        i += 1;
    }
    Ok(metric)
}

/// How the vectors are kept that results are ranked by once more.
#[derive(Clone, Copy, PartialEq, Eq, Structural, Debug)]
pub enum VectorPrecision {
    Single,
    Half,
    Byte,
}

/// How a vector graph is built.
#[derive(Clone, Copy, PartialEq, Eq, Structural, Debug)]
pub struct VectorBuild {
    pub quantization: QuantizationType,
    pub pq_subquantizers: Option<usize>,
    pub pq_centroids: Option<usize>,
    pub hnsw_m: usize,
    pub hnsw_ef_construction: usize,
    pub persistent: bool,
    pub rerank_precision: Option<VectorPrecision>,
}

/// The precision that an option names.
pub open spec fn precision_named(name: Seq<char>) -> Option<VectorPrecision> {
    if name == "f32"@ {
        Some(VectorPrecision::Single)
    } else if name == "f16"@ {
        Some(VectorPrecision::Half)
    } else if name == "i8"@ {
        Some(VectorPrecision::Byte)
    } else {
        None
    }
}

fn find_precision(name: &str) -> (r: Option<VectorPrecision>)
    ensures
        r == precision_named(name@),
{
    if text::same_text(name, "f32") {
        Some(VectorPrecision::Single)
    } else if text::same_text(name, "f16") {
        Some(VectorPrecision::Half)
    } else if text::same_text(name, "i8") {
        Some(VectorPrecision::Byte)
    } else {
        None
    }
}

/// How a vector graph is built after one more option.
pub open spec fn build_after(b: VectorBuild, option: IndexOptionModel) -> Result<
    VectorBuild,
    ErrorModel,
> {
    match option {
        IndexOptionModel::Quantization(q) => Ok(VectorBuild { quantization: q, ..b }),
        IndexOptionModel::PqSubquantizers(k) => Ok(
            VectorBuild { pq_subquantizers: Some(k), ..b },
        ),
        IndexOptionModel::PqCentroids(k) => Ok(VectorBuild { pq_centroids: Some(k), ..b }),
        IndexOptionModel::HnswM(k) => Ok(VectorBuild { hnsw_m: k, ..b }),
        IndexOptionModel::EfConstruction(k) => Ok(VectorBuild { hnsw_ef_construction: k, ..b }),
        IndexOptionModel::Persistent(on) => Ok(VectorBuild { persistent: on, ..b }),
        IndexOptionModel::RerankPrecision(name) => match precision_named(name) {
            Some(p) => Ok(VectorBuild { rerank_precision: Some(p), ..b }),
            None => Err(failure("Unsupported rerank_precision '"@ + name + "'"@)),
        },
        _ => Ok(b),
    }
}

/// How the first `n` options have a vector graph built; later ones count, and the
/// first that is not known ends it.
pub open spec fn build_of_options(options: Seq<IndexOptionModel>, n: nat, b: VectorBuild) -> Result<
    VectorBuild,
    ErrorModel,
>
    decreases n,
{
    if n == 0 || n > options.len() {
        Ok(b)
    } else {
        match build_of_options(options, (n - 1) as nat, b) {
            Err(e) => Err(e),
            Ok(before) => build_after(before, options[n - 1]),
        }
    }
}

proof fn lemma_build_stops(options: Seq<IndexOptionModel>, k: nat, n: nat, b: VectorBuild)
    requires
        k <= n <= options.len(),
        build_of_options(options, k, b) is Err,
    ensures
        build_of_options(options, n, b) == build_of_options(options, k, b),
    decreases n,
{
    if k < n {
        lemma_build_stops(options, k, (n - 1) as nat, b);
    }
}

pub open spec fn build_result(r: Result<VectorBuild, Error>) -> Result<VectorBuild, ErrorModel> {
    match r {
        Ok(b) => Ok(b),
        Err(e) => Err(e@),
    }
}

/// How options have a vector graph built.
pub fn read_build_options(options: &Vec<IndexOption>, b: VectorBuild) -> (r: Result<
    VectorBuild,
    Error,
>)
    ensures
        build_result(r) == build_of_options(
            logical_plan::options_model(options@),
            options@.len(),
            b,
        ),
{
    let ghost model = logical_plan::options_model(options@);
    let mut out: VectorBuild = b;
    let mut i: usize = 0;
    while i < options.len()
        invariant
            model == logical_plan::options_model(options@),
            i <= options@.len(),
            build_of_options(model, i as nat, b) == Ok::<VectorBuild, ErrorModel>(out),
        decreases options.len() - i,
    {
        assert(model[i as int] == options@[i as int]@);
        match &options[i] {
            IndexOption::Quantization(q) => {
                out.quantization = *q;
            },
            IndexOption::PqSubquantizers(k) => {
                out.pq_subquantizers = Some(*k);
            },
            IndexOption::PqCentroids(k) => {
                out.pq_centroids = Some(*k);
            },
            IndexOption::HnswM(k) => {
                out.hnsw_m = *k;
            },
            IndexOption::EfConstruction(k) => {
                out.hnsw_ef_construction = *k;
            },
            IndexOption::Persistent(on) => {
                out.persistent = *on;
            },
            IndexOption::RerankPrecision(name) => match find_precision(name.as_str()) {
                Some(p) => {
                    out.rerank_precision = Some(p);
                },
                None => {
                    proof {
                        lemma_build_stops(model, (i + 1) as nat, model.len(), b);
                    }
                    return Err(
                        Error::query_execution(
                            text::concat3("Unsupported rerank_precision '", name.as_str(), "'"),
                        ),
                    );
                },
            },
            _ => {},
        }
        i += 1;
    }
    Ok(out)
}

/// How a vector graph is built that nothing is said of.
pub open spec fn default_build(catalog: CatalogModel) -> VectorBuild {
    VectorBuild {
        quantization: QuantizationType::Unquantized,
        pq_subquantizers: None,
        pq_centroids: None,
        hnsw_m: catalog.hnsw_m,
        hnsw_ef_construction: catalog.hnsw_ef_construction,
        persistent: false,
        rerank_precision: None,
    }
}

/// The type that a vector graph is recorded under: what was built, whatever the
/// statement called it.
pub open spec fn built_tag(b: VectorBuild) -> Seq<char> {
    if b.persistent {
        "persistent_hnsw"@
    } else if b.quantization == QuantizationType::Product {
        "hnsw_pq"@
    } else {
        "hnsw"@
    }
}

/// What the storage has to do for `CREATE INDEX`.
#[verifier::ext_equal]
pub enum CreateStepModel {
    /// Nothing: the index is there, or this kind of index is not built.
    Nothing,
    /// Build a tree and record it.
    BuildArt { tag: Seq<char> },
    /// Record the definition only.
    Record { tag: Seq<char> },
    /// Build a vector graph and record it.
    BuildVector {
        dimension: usize,
        metric: VectorMetric,
        build: VectorBuild,
        recorded_as: Seq<char>,
        vectors: Seq<(u64, Seq<u32>)>,
    },
}

/// What the storage has to do for `CREATE INDEX`.
#[derive(Debug)]
pub enum CreateIndexStep {
    Nothing,
    BuildArt { tag: String },
    Record { tag: String },
    BuildVector {
        dimension: usize,
        metric: VectorMetric,
        build: VectorBuild,
        recorded_as: String,
        vectors: Vec<(u64, Vec<u32>)>,
    },
}

impl View for CreateIndexStep {
    type V = CreateStepModel;

    open spec fn view(&self) -> CreateStepModel {
        match *self {
            CreateIndexStep::Nothing => CreateStepModel::Nothing,
            CreateIndexStep::BuildArt { tag } => CreateStepModel::BuildArt { tag: tag@ },
            CreateIndexStep::Record { tag } => CreateStepModel::Record { tag: tag@ },
            CreateIndexStep::BuildVector { dimension, metric, build, recorded_as, vectors } =>
                CreateStepModel::BuildVector {
                dimension,
                metric,
                build,
                recorded_as: recorded_as@,
                vectors: vectors_model(vectors@),
            },
        }
    }
}

/// What a statement on indexes is about: its names, and what the catalog has for
/// them.
#[verifier::ext_equal]
pub struct CreateModel {
    pub name: Seq<char>,
    pub table: Seq<char>,
    pub column: Seq<char>,
    pub index_type: Option<Seq<char>>,
    pub if_not_exists: bool,
    pub options: Seq<IndexOptionModel>,
}

pub open spec fn no_such_column(column: Seq<char>, table: Seq<char>) -> ErrorModel {
    failure("Column '"@ + column + "' not found in table '"@ + table + "'"@)
}

/// Building a tree.
pub open spec fn create_art(
    c: CreateModel,
    catalog: CatalogModel,
    table: Option<TableModel>,
    branch_active: bool,
) -> Result<CreateStepModel, ErrorModel> {
    if branch_active {
        Err(
            failure(
                "CREATE INDEX for ART secondary indexes must run on the main branch"@,
            ),
        )
    } else if registered_as(catalog.registered, c.name, 0) is Some {
        if c.if_not_exists {
            Ok(CreateStepModel::Nothing)
        } else {
            Err(failure("ART index '"@ + c.name + "' already exists"@))
        }
    } else {
        match table {
            None => Err(sources::no_such_table(c.table)),
            Some(t) => if schema::column_index(t.columns, c.column) is None {
                Err(no_such_column(c.column, c.table))
            } else {
                Ok(CreateStepModel::BuildArt { tag: "art"@ })
            },
        }
    }
}

/// Building a vector graph.
pub open spec fn create_vector(
    c: CreateModel,
    catalog: CatalogModel,
    table: Option<TableModel>,
) -> Result<CreateStepModel, ErrorModel> {
    if schema::named_in(catalog.vector_indexes, c.name) {
        if c.if_not_exists {
            Ok(CreateStepModel::Nothing)
        } else {
            Err(failure("Index '"@ + c.name + "' already exists"@))
        }
    } else {
        match table {
            None => Err(sources::no_such_table(c.table)),
            Some(t) => match schema::column_index(t.columns, c.column) {
                None => Err(no_such_column(c.column, c.table)),
                Some(i) => match t.columns[i as int].data_type {
                    DataType::Vector(dimension) => match metric_of_options(
                        c.options,
                        c.options.len(),
                    ) {
                        Err(e) => Err(e),
                        Ok(metric) => match existing_vectors(
                            t.rows,
                            t.rows.len(),
                            i as usize,
                            dimension,
                            c.table,
                            c.column,
                        ) {
                            Err(e) => Err(e),
                            Ok(vectors) => match build_of_options(
                                c.options,
                                c.options.len(),
                                default_build(catalog),
                            ) {
                                Err(e) => Err(e),
                                Ok(build) => Ok(
                                    CreateStepModel::BuildVector {
                                        dimension,
                                        metric,
                                        build,
                                        recorded_as: built_tag(build),
                                        vectors,
                                    },
                                ),
                            },
                        },
                    },
                    _ => Err(
                        failure(
                            "Column '"@ + c.column
                                + "' is not a vector type, cannot create HNSW index"@,
                        ),
                    ),
                },
            },
        }
    }
}

/// What `CREATE INDEX` comes to.
pub open spec fn created_index(
    c: CreateModel,
    catalog: CatalogModel,
    table: Option<TableModel>,
    branch_active: bool,
) -> Result<CreateStepModel, ErrorModel> {
    match family_of(c.index_type) {
        Some(IndexFamily::Art) => create_art(c, catalog, table, branch_active),
        Some(IndexFamily::DdlOnly) => Ok(
            CreateStepModel::Record { tag: c.index_type->Some_0 },
        ),
        Some(IndexFamily::Vector) => create_vector(c, catalog, table),
        None => Ok(CreateStepModel::Nothing),
    }
}

/// `CREATE INDEX`.
pub struct CreateIndexParts<'p> {
    pub name: &'p String,
    pub table: &'p String,
    pub column: &'p String,
    pub index_type: &'p Option<String>,
    pub if_not_exists: bool,
    pub options: &'p Vec<IndexOption>,
}

impl<'p> View for CreateIndexParts<'p> {
    type V = CreateModel;

    open spec fn view(&self) -> CreateModel {
        CreateModel {
            name: self.name@,
            table: self.table@,
            column: self.column@,
            index_type: schema::opt_text(*self.index_type),
            if_not_exists: self.if_not_exists,
            options: logical_plan::options_model(self.options@),
        }
    }
}

pub open spec fn step_result(r: Result<CreateIndexStep, Error>) -> Result<
    CreateStepModel,
    ErrorModel,
> {
    match r {
        Ok(s) => Ok(s@),
        Err(e) => Err(e@),
    }
}

fn missing_table_error(table: &str) -> (r: Error)
    ensures
        r@ == sources::no_such_table(table@),
{
    Error::storage(text::concat3("Table '", table, "' does not exist"))
}

fn missing_column_error(column: &str, table: &str) -> (r: Error)
    ensures
        r@ == no_such_column(column@, table@),
{
    let mut m: String = text::concat3("Column '", column, "' not found in table '");
    m.append(table);
    m.append("'");
    Error::query_execution(m)
}

fn create_art_secondary_index(
    c: &CreateIndexParts<'_>,
    catalog: &CatalogView,
    table: Option<&StoredTable>,
    branch_active: bool,
) -> (r: Result<CreateIndexStep, Error>)
    ensures
        step_result(r) == create_art(c@, catalog@, storage_view::opt_table(table), branch_active),
{
    if branch_active {
        return Err(
            Error::query_execution(
                "CREATE INDEX for ART secondary indexes must run on the main branch".to_owned(),
            ),
        );
    }
    if find_registered(&catalog.registered, c.name.as_str()).is_some() {
        if c.if_not_exists {
            return Ok(CreateIndexStep::Nothing);
        }
        return Err(
            Error::query_execution(
                text::concat3("ART index '", c.name.as_str(), "' already exists"),
            ),
        );
    }
    match table {
        None => Err(missing_table_error(c.table.as_str())),
        Some(t) => {
            if t.schema.get_column_index(c.column.as_str()).is_none() {
                Err(missing_column_error(c.column.as_str(), c.table.as_str()))
            } else {
                Ok(CreateIndexStep::BuildArt { tag: "art".to_owned() })
            }
        },
    }
}

fn choose_built_tag(b: &VectorBuild) -> (r: String)
    ensures
        r@ == built_tag(*b),
{
    if b.persistent {
        "persistent_hnsw".to_owned()
    } else if b.quantization == QuantizationType::Product {
        "hnsw_pq".to_owned()
    } else {
        "hnsw".to_owned()
    }
}

fn plan_vector_index(c: &CreateIndexParts<'_>, catalog: &CatalogView, table: Option<&StoredTable>) -> (r:
    Result<CreateIndexStep, Error>)
    ensures
        step_result(r) == create_vector(c@, catalog@, storage_view::opt_table(table)),
{
    if schema::is_named_in(&catalog.vector_indexes, c.name.as_str()) {
        if c.if_not_exists {
            return Ok(CreateIndexStep::Nothing);
        }
        return Err(
            Error::query_execution(
                text::concat3("Index '", c.name.as_str(), "' already exists"),
            ),
        );
    }
    let t: &StoredTable = match table {
        Some(t) => t,
        None => {
            return Err(missing_table_error(c.table.as_str()));
        },
    };
    let at: usize = match t.schema.get_column_index(c.column.as_str()) {
        Some(at) => at,
        None => {
            return Err(missing_column_error(c.column.as_str(), c.table.as_str()));
        },
    };
    assert(t.schema@[at as int] == t.schema.columns@[at as int]@);
    let dimension: usize = match &t.schema.columns[at].data_type {
        DataType::Vector(n) => *n,
        _ => {
            return Err(
                Error::query_execution(
                    text::concat3(
                        "Column '",
                        c.column.as_str(),
                        "' is not a vector type, cannot create HNSW index",
                    ),
                ),
            );
        },
    };
    let metric: VectorMetric = match vector_distance_metric(c.options) {
        Ok(m) => m,
        Err(e) => {
            return Err(e);
        },
    };
    let vectors: Vec<(u64, Vec<u32>)> = match collect_existing_vectors(
        &t.rows,
        at,
        dimension,
        c.table.as_str(),
        c.column.as_str(),
    ) {
        Ok(v) => v,
        Err(e) => {
            return Err(e);
        },
    };
    let build: VectorBuild = match read_build_options(
        c.options,
        VectorBuild {
            quantization: QuantizationType::Unquantized,
            pq_subquantizers: None,
            pq_centroids: None,
            hnsw_m: catalog.hnsw_m,
            hnsw_ef_construction: catalog.hnsw_ef_construction,
            persistent: false,
            rerank_precision: None,
        },
    ) {
        Ok(b) => b,
        Err(e) => {
            return Err(e);
        },
    };
    let recorded_as: String = choose_built_tag(&build);
    Ok(CreateIndexStep::BuildVector { dimension, metric, build, recorded_as, vectors })
}

/// What `CREATE INDEX` comes to.
pub fn handle_create_index(
    c: &CreateIndexParts<'_>,
    catalog: &CatalogView,
    table: Option<&StoredTable>,
    branch_active: bool,
) -> (r: Result<CreateIndexStep, Error>)
    ensures
        step_result(r) == created_index(c@, catalog@, storage_view::opt_table(table), branch_active),
{
    match index_family(schema::as_str(c.index_type)) {
        Some(IndexFamily::Art) => create_art_secondary_index(c, catalog, table, branch_active),
        Some(IndexFamily::DdlOnly) => match c.index_type {
            Some(t) => Ok(CreateIndexStep::Record { tag: t.clone() }),
            None => Ok(CreateIndexStep::Nothing),
        },
        Some(IndexFamily::Vector) => plan_vector_index(c, catalog, table),
        None => Ok(CreateIndexStep::Nothing),
    }
}

/// An index that was recorded can be dropped: what `CREATE INDEX` records is of a
/// kind that `DROP INDEX` knows.
pub proof fn law_what_is_recorded_can_be_dropped(
    c: CreateModel,
    catalog: CatalogModel,
    table: Option<TableModel>,
    branch_active: bool,
)
    ensures
        created_index(c, catalog, table, branch_active) matches Ok(s) ==> match s {
            CreateStepModel::Nothing => true,
            CreateStepModel::BuildArt { tag } => family_of(Some(tag)) == Some(IndexFamily::Art),
            CreateStepModel::Record { tag } => family_of(Some(tag)) == Some(
                IndexFamily::DdlOnly,
            ),
            CreateStepModel::BuildVector { dimension, metric, build, recorded_as, vectors } => family_of(
                Some(recorded_as),
            ) == Some(IndexFamily::Vector),
        },
{
    reveal_strlit("art");
    reveal_strlit("btree");
    reveal_strlit("hash");
    reveal_strlit("hnsw");
    reveal_strlit("hnsw_pq");
    reveal_strlit("persistent_hnsw");
    let h = "hnsw"@;
    let p = "hnsw_pq"@;
    let q = "persistent_hnsw"@;
    assert(h[1] == 'n');
    assert("art"@[1] == 'r');
    assert("btree"@[1] == 't');
    assert("hash"@[1] == 'a');
    assert(p[1] == 'n');
    assert(q[1] == 'e');
}

/// The vector that a row has in a column, with its row number; NULL is none.
pub open spec fn row_vector(
    row: TupleModel,
    at: usize,
    dimension: usize,
    table: Seq<char>,
    column: Seq<char>,
) -> Result<Option<(u64, Seq<u32>)>, ErrorModel> {
    if at >= row.values.len() {
        Ok(None)
    } else {
        match row.values[at as int] {
            ValueModel::Null => Ok(None),
            ValueModel::Vector(v) => if v.len() != dimension {
                Err(
                    failure(
                        "Vector dimension mismatch while backfilling '"@ + table + "."@ + column
                            + "': expected "@ + text::decimal(dimension as nat) + ", got "@
                            + text::decimal(v.len()),
                    ),
                )
            } else {
                match row.row_id {
                    Some(id) => Ok(Some((id, v))),
                    None => Err(
                        failure(
                            "Cannot backfill vector index on '"@ + table + "."@ + column
                                + "' from tuple without row_id"@,
                        ),
                    ),
                }
            },
            v => Err(
                failure(
                    "Cannot backfill vector index on '"@ + table + "."@ + column
                        + "' from non-vector value "@ + debug_text::value_text(v),
                ),
            ),
        }
    }
}

/// The vectors that the first `n` rows have in a column.
pub open spec fn existing_vectors(
    rows: Seq<TupleModel>,
    n: nat,
    at: usize,
    dimension: usize,
    table: Seq<char>,
    column: Seq<char>,
) -> Result<Seq<(u64, Seq<u32>)>, ErrorModel>
    decreases n,
{
    if n == 0 || n > rows.len() {
        Ok(Seq::empty())
    } else {
        match existing_vectors(rows, (n - 1) as nat, at, dimension, table, column) {
            Err(e) => Err(e),
            Ok(s) => match row_vector(rows[n - 1], at, dimension, table, column) {
                Err(e) => Err(e),
                Ok(None) => Ok(s),
                Ok(Some(v)) => Ok(s.push(v)),
            },
        }
    }
}

proof fn lemma_vectors_stop(
    rows: Seq<TupleModel>,
    k: nat,
    n: nat,
    at: usize,
    dimension: usize,
    table: Seq<char>,
    column: Seq<char>,
)
    requires
        k <= n <= rows.len(),
        existing_vectors(rows, k, at, dimension, table, column) is Err,
    ensures
        existing_vectors(rows, n, at, dimension, table, column) == existing_vectors(
            rows,
            k,
            at,
            dimension,
            table,
            column,
        ),
    decreases n,
{
    if k < n {
        lemma_vectors_stop(rows, k, (n - 1) as nat, at, dimension, table, column);
    }
}

pub open spec fn vectors_model(s: Seq<(u64, Vec<u32>)>) -> Seq<(u64, Seq<u32>)> {
    Seq::new(s.len(), |i: int| (s[i].0, s[i].1@))
}

fn clone_components(v: &Vec<u32>) -> (r: Vec<u32>)
    ensures
        r@ == v@,
{
    let mut out: Vec<u32> = Vec::new();
    let mut i: usize = 0;
    while i < v.len()
        invariant
            i <= v@.len(),
            out@ == v@.take(i as int),
        decreases v.len() - i,
    {
        out.push(v[i]);
        i += 1;
        assert(out@ =~= v@.take(i as int));
    }
    assert(v@.take(i as int) =~= v@);
    out
}

fn place_text(head: &str, table: &str, column: &str, tail: &str) -> (r: String)
    ensures
        r@ == head@ + table@ + "."@ + column@ + tail@,
{
    let mut m: String = text::concat3(head, table, ".");
    m.append(column);
    m.append(tail);
    m
}

/// The vector of one row, where it has one.
fn vector_of_row(row: &Tuple, at: usize, dimension: usize, table: &str, column: &str) -> (r: Result<
    Option<(u64, Vec<u32>)>,
    Error,
>)
    ensures
        ({
            let expected = row_vector(row@, at, dimension, table@, column@);
            match r {
                Ok(Some(v)) => expected == Ok::<Option<(u64, Seq<u32>)>, ErrorModel>(
                    Some((v.0, v.1@)),
                ),
                Ok(None) => expected == Ok::<Option<(u64, Seq<u32>)>, ErrorModel>(None),
                Err(e) => expected == Err::<Option<(u64, Seq<u32>)>, ErrorModel>(e@),
            }
        }),
{
    if at >= row.values.len() {
        return Ok(None);
    }
    assert(row@.values[at as int] == row.values@[at as int]@);
    match &row.values[at] {
        Value::Null => Ok(None),
        Value::Vector(v) => {
            if v.len() != dimension {
                let mut m: String = place_text(
                    "Vector dimension mismatch while backfilling '",
                    table,
                    column,
                    "': expected ",
                );
                text::append_decimal(&mut m, dimension as u128);
                m.append(", got ");
                text::append_decimal(&mut m, v.len() as u128);
                return Err(Error::query_execution(m));
            }
            match row.row_id {
                Some(id) => {
                    let c: Vec<u32> = clone_components(v);
                    Ok(Some((id, c)))
                },
                None => Err(
                    Error::query_execution(
                        place_text(
                            "Cannot backfill vector index on '",
                            table,
                            column,
                            "' from tuple without row_id",
                        ),
                    ),
                ),
            }
        },
        v => {
            let mut m: String = place_text(
                "Cannot backfill vector index on '",
                table,
                column,
                "' from non-vector value ",
            );
            m.append(debug_text::show_value(v).as_str());
            Err(Error::query_execution(m))
        },
    }
}

/// The vectors that rows have in a column, with their row numbers.
pub fn collect_existing_vectors(
    rows: &Vec<Tuple>,
    at: usize,
    dimension: usize,
    table: &str,
    column: &str,
) -> (r: Result<Vec<(u64, Vec<u32>)>, Error>)
    ensures
        ({
            let expected = existing_vectors(
                schema::rows_model(rows@),
                rows@.len(),
                at,
                dimension,
                table@,
                column@,
            );
            match r {
                Ok(v) => expected == Ok::<Seq<(u64, Seq<u32>)>, ErrorModel>(vectors_model(v@)),
                Err(e) => expected == Err::<Seq<(u64, Seq<u32>)>, ErrorModel>(e@),
            }
        }),
{
    let ghost model = schema::rows_model(rows@);
    let mut out: Vec<(u64, Vec<u32>)> = Vec::new();
    assert(vectors_model(out@) =~= Seq::<(u64, Seq<u32>)>::empty());
    let mut i: usize = 0;
    while i < rows.len()
        invariant
            model == schema::rows_model(rows@),
            i <= rows@.len(),
            existing_vectors(model, i as nat, at, dimension, table@, column@) == Ok::<
                Seq<(u64, Seq<u32>)>,
                ErrorModel,
            >(vectors_model(out@)),
        decreases rows.len() - i,
    {
        assert(model[i as int] == rows@[i as int]@);
        match vector_of_row(&rows[i], at, dimension, table, column) {
            Ok(Some(v)) => {
                let ghost was = vectors_model(out@);
                let ghost m = (v.0, v.1@);
                out.push(v);
                assert(vectors_model(out@) =~= was.push(m));
            },
            Ok(None) => {},
            Err(e) => {
                proof {
                    lemma_vectors_stop(
                        model,
                        (i + 1) as nat,
                        model.len(),
                        at,
                        dimension,
                        table@,
                        column@,
                    );
                }
                return Err(e);
            },
        }
        i += 1;
    }
    Ok(out)
}

/// What the storage has to do for `DROP INDEX`.
#[derive(Clone, Copy, PartialEq, Eq, Structural, Debug)]
pub enum DropIndexStep {
    /// Nothing: there is no such index.
    Nothing,
    /// Remove the tree, then the definition.
    DropArt,
    /// Remove the vector graph and its snapshot, then the definition.
    DropVector,
    /// Remove the definition.
    DropRecord,
}

pub open spec fn constraint_needs_it(name: Seq<char>, noun: Seq<char>, owner: Seq<char>) -> ErrorModel {
    failure(
        "cannot drop index \""@ + name + "\" because constraint "@ + noun + " on \""@ + owner
            + "\" requires it; drop the constraint instead"@,
    )
}

pub open spec fn unknown_index_type(name: Seq<char>, tag: Seq<char>) -> ErrorModel {
    failure(
        "Cannot drop index \""@ + name + "\": unsupported persisted index type '"@ + tag
            + "'. This build knows art, btree, hash, gin, gist, hnsw, hnsw_pq and persistent_hnsw."@,
    )
}

/// The constraint that a registered index backs.
pub open spec fn backed_constraint(catalog: CatalogModel, name: Seq<char>) -> Option<
    (Seq<char>, Seq<char>),
> {
    match registered_as(catalog.registered, name, 0) {
        Some(r) => match constraint_noun(r.kind) {
            Some(noun) => Some((noun, r.table)),
            None => None,
        },
        None => None,
    }
}

/// What `DROP INDEX` comes to. An index that backs a constraint is never dropped.
pub open spec fn dropped_index(
    name: Seq<char>,
    if_exists: bool,
    catalog: CatalogModel,
    branch_active: bool,
) -> Result<DropIndexStep, ErrorModel> {
    if branch_active {
        Err(failure("DROP INDEX must run on the main branch"@))
    } else {
        match backed_constraint(catalog, name) {
            Some(c) => Err(constraint_needs_it(name, c.0, c.1)),
            None => match defined_as(catalog.definitions, name, 0) {
                None => if if_exists {
                    Ok(DropIndexStep::Nothing)
                } else {
                    Err(failure("index \""@ + name + "\" does not exist"@))
                },
                Some(d) => {
                    let tag = if d.decodable {
                        d.index_type
                    } else {
                        None
                    };
                    match family_of(tag) {
                        Some(IndexFamily::Art) => Ok(DropIndexStep::DropArt),
                        Some(IndexFamily::Vector) => Ok(DropIndexStep::DropVector),
                        Some(IndexFamily::DdlOnly) => Ok(DropIndexStep::DropRecord),
                        None => Err(unknown_index_type(name, tag->Some_0)),
                    }
                },
            },
        }
    }
}

pub open spec fn drop_result(r: Result<DropIndexStep, Error>) -> Result<DropIndexStep, ErrorModel> {
    match r {
        Ok(s) => Ok(s),
        Err(e) => Err(e@),
    }
}

/// What `DROP INDEX` comes to.
pub fn handle_drop_index(name: &str, if_exists: bool, catalog: &CatalogView, branch_active: bool) -> (r:
    Result<DropIndexStep, Error>)
    ensures
        drop_result(r) == dropped_index(name@, if_exists, catalog@, branch_active),
{
    if branch_active {
        return Err(
            Error::query_execution("DROP INDEX must run on the main branch".to_owned()),
        );
    }
    if let Some(x) = find_registered(&catalog.registered, name) {
        if let Some(noun) = constraint_index_kind(x.kind) {
            let mut m: String = text::concat3(
                "cannot drop index \"",
                name,
                "\" because constraint ",
            );
            m.append(noun);
            m.append(" on \"");
            m.append(x.table.as_str());
            m.append("\" requires it; drop the constraint instead");
            return Err(Error::query_execution(m));
        }
    }
    let d: &IndexDefinition = match find_definition(&catalog.definitions, name) {
        Some(d) => d,
        None => {
            return if if_exists {
                Ok(DropIndexStep::Nothing)
            } else {
                Err(
                    Error::query_execution(
                        text::concat3("index \"", name, "\" does not exist"),
                    ),
                )
            };
        },
    };
    let tag: Option<&str> = if d.decodable {
        schema::as_str(&d.index_type)
    } else {
        None
    };
    match index_family(tag) {
        Some(IndexFamily::Art) => Ok(DropIndexStep::DropArt),
        Some(IndexFamily::Vector) => Ok(DropIndexStep::DropVector),
        Some(IndexFamily::DdlOnly) => Ok(DropIndexStep::DropRecord),
        None => {
            let other: &str = match tag {
                Some(t) => t,
                None => "<none>",
            };
            let mut m: String = text::concat3(
                "Cannot drop index \"",
                name,
                "\": unsupported persisted index type '",
            );
            m.append(other);
            m.append(
                "'. This build knows art, btree, hash, gin, gist, hnsw, hnsw_pq and persistent_hnsw.",
            );
            Err(Error::query_execution(m))
        },
    }
}

/// An index that backs a constraint is never dropped.
pub proof fn law_constraints_keep_their_indexes(
    name: Seq<char>,
    if_exists: bool,
    catalog: CatalogModel,
    branch_active: bool,
)
    requires
        backed_constraint(catalog, name) is Some,
    ensures
        dropped_index(name, if_exists, catalog, branch_active) is Err,
{
}

/// The keys of a store that begin with a prefix, among the first `n`, up to a
/// key whose first byte lies behind that of the prefix.
pub open spec fn keys_with_prefix(keys: Seq<Seq<u8>>, n: nat, prefix: Seq<u8>) -> Seq<Seq<u8>>
    decreases n,
{
    if n == 0 || n > keys.len() {
        Seq::empty()
    } else {
        let before = keys_with_prefix(keys, (n - 1) as nat, prefix);
        if passed(keys, (n - 1) as nat, prefix) || !begins_with(keys[n - 1], prefix) {
            before
        } else {
            before.push(keys[n - 1])
        }
    }
}

pub open spec fn begins_with(key: Seq<u8>, prefix: Seq<u8>) -> bool {
    prefix.len() <= key.len() && key.take(prefix.len() as int) == prefix
}

/// Whether the first byte of a key lies behind that of a prefix.
pub open spec fn is_behind(key: Seq<u8>, prefix: Seq<u8>) -> bool {
    key.len() > 0 && prefix.len() > 0 && key[0] > prefix[0]
}

/// Whether one of the first `n` keys lies behind a prefix.
pub open spec fn passed(keys: Seq<Seq<u8>>, n: nat, prefix: Seq<u8>) -> bool
    decreases n,
{
    n != 0 && n <= keys.len() && (passed(keys, (n - 1) as nat, prefix) || is_behind(
        keys[n - 1],
        prefix,
    ))
}

/// Whether the first bytes of keys never go down.
pub open spec fn first_bytes_rise(keys: Seq<Seq<u8>>) -> bool {
    forall|i: int, j: int|
        0 <= i <= j < keys.len() && (#[trigger] keys[i]).len() > 0 ==> (#[trigger] keys[j]).len()
            > 0 && keys[i][0] <= keys[j][0]
}

/// In a store whose keys are in order every key with the prefix is found.
pub proof fn law_truncation_finds_every_key(keys: Seq<Seq<u8>>, n: nat, prefix: Seq<u8>, i: int)
    requires
        first_bytes_rise(keys),
        prefix.len() > 0,
        0 <= i < n <= keys.len(),
        begins_with(keys[i], prefix),
    ensures
        keys_with_prefix(keys, n, prefix).contains(keys[i]),
    decreases n,
{
    let before = keys_with_prefix(keys, (n - 1) as nat, prefix);
    let now = keys_with_prefix(keys, n, prefix);
    if i == n - 1 {
        lemma_not_passed(keys, (n - 1) as nat, prefix, i);
        assert(now[now.len() - 1] == keys[i]);
    } else {
        law_truncation_finds_every_key(keys, (n - 1) as nat, prefix, i);
        let k = choose|k: int| 0 <= k < before.len() && before[k] == keys[i];
        assert(now[k] == keys[i]);
    }
}

proof fn lemma_not_passed(keys: Seq<Seq<u8>>, n: nat, prefix: Seq<u8>, i: int)
    requires
        first_bytes_rise(keys),
        prefix.len() > 0,
        n <= i < keys.len(),
        begins_with(keys[i], prefix),
    ensures
        !passed(keys, n, prefix),
    decreases n,
{
    if n > 0 {
        lemma_not_passed(keys, (n - 1) as nat, prefix, i);
        assert(keys[i].take(prefix.len() as int)[0] == prefix[0]);
        assert(keys[i][0] == prefix[0]);
        let first = keys[n - 1];
        assert(first.len() > 0 ==> first[0] <= keys[i][0]);
    }
}

pub open spec fn keys_model(s: Seq<Vec<u8>>) -> Seq<Seq<u8>> {
    Seq::new(s.len(), |i: int| s[i]@)
}

fn key_begins_with(key: &Vec<u8>, prefix: &Vec<u8>) -> (r: bool)
    ensures
        r == begins_with(key@, prefix@),
{
    if prefix.len() > key.len() {
        return false;
    }
    let mut i: usize = 0;
    while i < prefix.len()
        invariant
            prefix@.len() <= key@.len(),
            i <= prefix@.len(),
            forall|j: int| 0 <= j < i ==> key@[j] == prefix@[j],
        decreases prefix.len() - i,
    {
        if key[i] != prefix[i] {
            assert(key@.take(prefix@.len() as int)[i as int] != prefix@[i as int]);
            return false;
        }
        i += 1;
    }
    assert(key@.take(prefix@.len() as int) =~= prefix@);
    true
}

fn clone_bytes(v: &Vec<u8>) -> (r: Vec<u8>)
    ensures
        r@ == v@,
{
    let mut out: Vec<u8> = Vec::new();
    let mut i: usize = 0;
    while i < v.len()
        invariant
            i <= v@.len(),
            out@ == v@.take(i as int),
        decreases v.len() - i,
    {
        out.push(v[i]);
        i += 1;
        assert(out@ =~= v@.take(i as int));
    }
    assert(v@.take(i as int) =~= v@);
    out
}

/// The keys that truncating a table deletes: those that begin with its prefix.
pub fn collect_keys_to_delete(keys: &Vec<Vec<u8>>, prefix: &Vec<u8>) -> (r: Vec<Vec<u8>>)
    ensures
        keys_model(r@) == keys_with_prefix(keys_model(keys@), keys@.len(), prefix@),
{
    let ghost model = keys_model(keys@);
    let mut out: Vec<Vec<u8>> = Vec::new();
    assert(keys_model(out@) =~= Seq::<Seq<u8>>::empty());
    let mut i: usize = 0;
    while i < keys.len()
        invariant
            model == keys_model(keys@),
            i <= keys@.len(),
            !passed(model, i as nat, prefix@),
            keys_model(out@) == keys_with_prefix(model, i as nat, prefix@),
        decreases keys.len() - i,
    {
        assert(model[i as int] == keys@[i as int]@);
        if key_begins_with(&keys[i], prefix) {
            let ghost was = keys_model(out@);
            let k: Vec<u8> = clone_bytes(&keys[i]);
            out.push(k);
            assert(keys_model(out@) =~= was.push(k@));
            proof {
                if prefix@.len() > 0 {
                    assert(model[i as int].take(prefix@.len() as int)[0] == prefix@[0]);
                }
            }
        } else if keys[i].len() > 0 && prefix.len() > 0 && keys[i][0] > prefix[0] {
            proof {
                lemma_nothing_behind(model, (i + 1) as nat, model.len(), prefix@);
            }
            return out;
        }
        i += 1;
    }
    out
}

proof fn lemma_nothing_behind(keys: Seq<Seq<u8>>, k: nat, n: nat, prefix: Seq<u8>)
    requires
        k <= n <= keys.len(),
        passed(keys, k, prefix),
    ensures
        keys_with_prefix(keys, n, prefix) == keys_with_prefix(keys, k, prefix),
        passed(keys, n, prefix),
    decreases n,
{
    if k < n {
        lemma_nothing_behind(keys, k, (n - 1) as nat, prefix);
    }
}

/// Whether every branch is the main one.
pub open spec fn only_main(branches: Seq<Seq<char>>) -> bool {
    forall|i: int| 0 <= i < branches.len() ==> #[trigger] branches[i] == "main"@
}

fn is_only_main(v: &Vec<String>) -> (r: bool)
    ensures
        r == only_main(schema::texts(v@)),
{
    let ghost model = schema::texts(v@);
    let mut i: usize = 0;
    while i < v.len()
        invariant
            model == schema::texts(v@),
            i <= v@.len(),
            forall|j: int| 0 <= j < i ==> #[trigger] model[j] == "main"@,
        decreases v.len() - i,
    {
        assert(model[i as int] == v@[i as int]@);
        if !text::same_text(v[i].as_str(), "main") {
            assert(model[i as int] != "main"@);
            return false;
        }
        i += 1;
    }
    true
}

/// Whether truncating a table clears its indexes: not while there are branches
/// beside the main one, which may still need the values.
pub open spec fn clears_indexes(branches: Option<Seq<Seq<char>>>) -> bool {
    match branches {
        None => true,
        Some(s) => only_main(s),
    }
}

/// Whether truncating a table clears its indexes.
pub fn truncation_clears_indexes(branches: &Option<Vec<String>>) -> (r: bool)
    ensures
        r == clears_indexes(logical_plan::opt_names(*branches)),
{
    match branches {
        None => true,
        Some(v) => is_only_main(v),
    }
}

/// The names without one of them.
pub open spec fn without(names: Seq<Seq<char>>, name: Seq<char>) -> Seq<Seq<char>>
    decreases names.len(),
{
    if names.len() == 0 {
        names
    } else {
        let before = without(names.drop_last(), name);
        if names.last() == name {
            before
        } else {
            before.push(names.last())
        }
    }
}

/// Taking a name out leaves the others, and is shorter where the name was there.
pub proof fn lemma_without(names: Seq<Seq<char>>, name: Seq<char>)
    ensures
        without(names, name).len() <= names.len(),
        schema::named_in(names, name) ==> without(names, name).len() < names.len(),
        forall|x: Seq<char>|
            schema::named_in(without(names, name), x) <==> x != name && #[trigger] schema::named_in(names, x),
    decreases names.len(),
{
    if names.len() > 0 {
        let short = names.drop_last();
        lemma_without(short, name);
        let before = without(short, name);
        let now = without(names, name);
        let last = names.last();
        assert(names[names.len() - 1] == last);
        assert forall|x: Seq<char>| schema::named_in(now, x) <==> x != name && #[trigger] schema::named_in(
            names,
            x,
        ) by {
            if schema::named_in(short, x) {
                let i = choose|i: int| 0 <= i < short.len() && #[trigger] short[i] == x;
                assert(names[i] == x);
            }
            if schema::named_in(names, x) && x != last {
                let i = choose|i: int| 0 <= i < names.len() && #[trigger] names[i] == x;
                assert(short[i] == x);
            }
            if schema::named_in(before, x) {
                let i = choose|i: int| 0 <= i < before.len() && #[trigger] before[i] == x;
                assert(now[i] == x);
            }
            if schema::named_in(now, x) {
                let i = choose|i: int| 0 <= i < now.len() && #[trigger] now[i] == x;
                if i < before.len() {
                    assert(before[i] == x);
                }
            }
            if last != name {
                assert(now[before.len() as int] == last);
            }
        }
        if schema::named_in(names, name) && name != last {
            let i = choose|i: int| 0 <= i < names.len() && #[trigger] names[i] == name;
            assert(short[i] == name);
        }
    }
}

/// The partitions of a table, from a position of the links on.
pub open spec fn partitions_of(links: Seq<LinkModel>, parent: Seq<char>, from: nat) -> Seq<
    Seq<char>,
>
    decreases links.len() - from,
{
    if from >= links.len() {
        Seq::empty()
    } else if links[from as int].parent == parent {
        links[from as int].children
    } else {
        partitions_of(links, parent, from + 1)
    }
}

/// The tables that dropping some of them takes away, in order: each one is
/// followed by its partitions. What is no table any more is passed over.
pub open spec fn cascade(
    tables: Seq<Seq<char>>,
    links: Seq<LinkModel>,
    pending: Seq<Seq<char>>,
) -> Seq<Seq<char>>
    decreases tables.len(), pending.len(),
{
    if pending.len() == 0 {
        Seq::empty()
    } else {
        let name = pending[0];
        let rest = pending.skip(1);
        if !schema::named_in(tables, name) {
            cascade(tables, links, rest)
        } else {
            proof {
                lemma_without(tables, name);
            }
            seq![name] + cascade(
                without(tables, name),
                links,
                partitions_of(links, name, 0) + rest,
            )
        }
    }
}

/// Dropping tables drops what was asked for and all partitions of what is
/// dropped; it drops nothing but tables, and none of them twice.
pub proof fn law_cascade_is_closed(
    tables: Seq<Seq<char>>,
    links: Seq<LinkModel>,
    pending: Seq<Seq<char>>,
)
    ensures
        ({
            let dropped = cascade(tables, links, pending);
            &&& forall|x: Seq<char>|
                schema::named_in(pending, x) && schema::named_in(tables, x) ==> #[trigger] schema::named_in(dropped, x)
            &&& forall|t: Seq<char>, x: Seq<char>|
                #[trigger] schema::named_in(dropped, t) && schema::named_in(partitions_of(links, t, 0), x)
                    && schema::named_in(tables, x) ==> #[trigger] schema::named_in(dropped, x)
            &&& forall|x: Seq<char>| #[trigger] schema::named_in(dropped, x) ==> schema::named_in(tables, x)
            &&& forall|i: int, j: int|
                0 <= i < j < dropped.len() ==> #[trigger] dropped[i] != #[trigger] dropped[j]
        }),
    decreases tables.len(), pending.len(),
{
    let dropped = cascade(tables, links, pending);
    if pending.len() == 0 {
        assert(dropped =~= Seq::<Seq<char>>::empty());
        assert(dropped.len() == 0);
    } else {
        let name = pending[0];
        let rest = pending.skip(1);
        lemma_skip_first(pending);
        if !schema::named_in(tables, name) {
            law_cascade_is_closed(tables, links, rest);
            assert(dropped == cascade(tables, links, rest));
        } else {
            lemma_without(tables, name);
            let children = partitions_of(links, name, 0);
            let left = without(tables, name);
            let later = cascade(left, links, children + rest);
            law_cascade_is_closed(left, links, children + rest);
            lemma_joined(children, rest);
            assert(dropped =~= seq![name] + later);
            lemma_joined(seq![name], later);
            assert(seq![name][0] == name);
            assert forall|x: Seq<char>| schema::named_in(seq![name], x) implies x == name by {}
            assert(schema::named_in(seq![name], name));
            assert(schema::named_in(dropped, name));
            assert forall|x: Seq<char>| schema::named_in(dropped, x) <==> x == name || #[trigger] schema::named_in(
                later,
                x,
            ) by {
                assert(schema::named_in(seq![name] + later, x) <==> schema::named_in(seq![name], x) || schema::named_in(
                    later,
                    x,
                ));
            }
            assert forall|x: Seq<char>| schema::named_in(pending, x) && schema::named_in(tables, x) implies #[trigger]
                schema::named_in(dropped, x) by {
                assert(schema::named_in(pending, x) <==> x == name || schema::named_in(rest, x));
                assert(schema::named_in(children + rest, x) <==> schema::named_in(children, x) || schema::named_in(rest, x));
                assert(schema::named_in(left, x) <==> x != name && schema::named_in(tables, x));
                assert(schema::named_in(later, x) || x == name);
            }
            assert forall|t: Seq<char>, x: Seq<char>| #[trigger]
                schema::named_in(dropped, t) && schema::named_in(partitions_of(links, t, 0), x) && schema::named_in(
                    tables,
                    x,
                ) implies #[trigger] schema::named_in(dropped, x) by {
                assert(schema::named_in(left, x) <==> x != name && schema::named_in(tables, x));
                assert(schema::named_in(children + rest, x) <==> schema::named_in(children, x) || schema::named_in(rest, x));
                if x != name {
                    if t == name {
                        assert(schema::named_in(children + rest, x));
                    } else {
                        assert(schema::named_in(later, t));
                    }
                    assert(schema::named_in(later, x));
                }
            }
            assert forall|x: Seq<char>| #[trigger] schema::named_in(dropped, x) implies schema::named_in(
                tables,
                x,
            ) by {
                assert(schema::named_in(left, x) <==> x != name && schema::named_in(tables, x));
                assert(x == name || schema::named_in(later, x));
            }
            assert forall|i: int, j: int|
                0 <= i < j < dropped.len() implies #[trigger] dropped[i] != #[trigger] dropped[j] by {
                assert(dropped[j] == later[j - 1]);
                assert(schema::named_in(later, later[j - 1]));
                if i > 0 {
                    assert(dropped[i] == later[i - 1]);
                }
            }
        }
    }
}

proof fn lemma_skip_first(s: Seq<Seq<char>>)
    requires
        s.len() > 0,
    ensures
        forall|x: Seq<char>| #[trigger] schema::named_in(s, x) <==> x == s[0] || schema::named_in(s.skip(1), x),
{
    let rest = s.skip(1);
    assert forall|x: Seq<char>| #[trigger] schema::named_in(s, x) <==> x == s[0] || schema::named_in(rest, x) by {
        if schema::named_in(s, x) && x != s[0] {
            let i = choose|i: int| 0 <= i < s.len() && #[trigger] s[i] == x;
            assert(rest[i - 1] == x);
        }
        if schema::named_in(rest, x) {
            let i = choose|i: int| 0 <= i < rest.len() && #[trigger] rest[i] == x;
            assert(s[i + 1] == x);
        }
    }
}

proof fn lemma_joined(a: Seq<Seq<char>>, b: Seq<Seq<char>>)
    ensures
        forall|x: Seq<char>| #[trigger] schema::named_in(a + b, x) <==> schema::named_in(a, x) || schema::named_in(b, x),
{
    assert forall|x: Seq<char>| #[trigger]
        schema::named_in(a + b, x) <==> schema::named_in(a, x) || schema::named_in(b, x) by {
        if schema::named_in(a, x) {
            let i = choose|i: int| 0 <= i < a.len() && #[trigger] a[i] == x;
            assert((a + b)[i] == x);
        }
        if schema::named_in(b, x) {
            let i = choose|i: int| 0 <= i < b.len() && #[trigger] b[i] == x;
            assert((a + b)[a.len() + i] == x);
        }
        if schema::named_in(a + b, x) {
            let i = choose|i: int| 0 <= i < (a + b).len() && #[trigger] (a + b)[i] == x;
            if i < a.len() {
                assert(a[i] == x);
            } else {
                assert(b[i - a.len()] == x);
            }
        }
    }
}

fn names_without(v: &Vec<String>, name: &str) -> (r: Vec<String>)
    ensures
        schema::texts(r@) == without(schema::texts(v@), name@),
{
    let ghost model = schema::texts(v@);
    let mut out: Vec<String> = Vec::new();
    assert(schema::texts(out@) =~= without(model.take(0), name@));
    let mut i: usize = 0;
    while i < v.len()
        invariant
            model == schema::texts(v@),
            i <= v@.len(),
            schema::texts(out@) == without(model.take(i as int), name@),
        decreases v.len() - i,
    {
        assert(model[i as int] == v@[i as int]@);
        assert(model.take(i + 1).drop_last() =~= model.take(i as int));
        if !text::same_text(v[i].as_str(), name) {
            let ghost was = schema::texts(out@);
            let x: String = v[i].clone();
            out.push(x);
            assert(schema::texts(out@) =~= was.push(x@));
        }
        i += 1;
    }
    assert(model.take(i as int) =~= model);
    out
}

fn find_partitions(links: &Vec<PartitionLink>, parent: &str) -> (r: Vec<String>)
    ensures
        schema::texts(r@) == partitions_of(links_model(links@), parent@, 0),
{
    let ghost model = links_model(links@);
    let mut i: usize = 0;
    while i < links.len()
        invariant
            model == links_model(links@),
            i <= links@.len(),
            partitions_of(model, parent@, 0) == partitions_of(model, parent@, i as nat),
        decreases links.len() - i,
    {
        if text::same_text(links[i].parent.as_str(), parent) {
            return schema::clone_texts(&links[i].children);
        }
        i += 1;
    }
    let none: Vec<String> = Vec::new();
    assert(schema::texts(none@) =~= Seq::<Seq<char>>::empty());
    none
}

/// The tables that dropping some of them takes away.
pub fn drop_table_and_partition_children(
    tables: Vec<String>,
    links: &Vec<PartitionLink>,
    pending: Vec<String>,
) -> (r: Vec<String>)
    ensures
        schema::texts(r@) == cascade(
            schema::texts(tables@),
            links_model(links@),
            schema::texts(pending@),
        ),
{
    let ghost model = links_model(links@);
    let ghost whole = cascade(schema::texts(tables@), model, schema::texts(pending@));
    let mut left: Vec<String> = tables;
    let mut open: Vec<String> = pending;
    let mut out: Vec<String> = Vec::new();
    assert(schema::texts(out@) =~= Seq::<Seq<char>>::empty());
    assert(Seq::<Seq<char>>::empty() + whole =~= whole);
    while open.len() > 0
        invariant
            model == links_model(links@),
            whole == schema::texts(out@) + cascade(
                schema::texts(left@),
                model,
                schema::texts(open@),
            ),
        decreases left@.len(), open@.len(),
    {
        let ghost before = schema::texts(open@);
        let ghost had = schema::texts(left@);
        let name: String = open.remove(0);
        assert(schema::texts(open@) =~= before.skip(1));
        assert(before[0] == name@);
        if schema::is_named_in(&left, name.as_str()) {
            proof {
                lemma_without(had, name@);
            }
            left = names_without(&left, name.as_str());
            let mut next: Vec<String> = find_partitions(links, name.as_str());
            let ghost children = schema::texts(next@);
            let ghost rest = schema::texts(open@);
            next.append(&mut open);
            assert(schema::texts(next@) =~= children + rest);
            open = next;
            let ghost was = schema::texts(out@);
            out.push(name);
            assert(schema::texts(out@) =~= was.push(name@));
            let ghost later = cascade(without(had, name@), model, children + rest);
            assert(was + (seq![name@] + later) =~= was.push(name@) + later);
        }
    }
    assert(schema::texts(out@) + Seq::<Seq<char>>::empty() =~= schema::texts(out@));
    out
}

/// What the storage has to do for a statement.
#[verifier::ext_equal]
pub enum ActionModel {
    Nothing,
    CreateIndex(CreateStepModel),
    DropIndex(DropIndexStep),
    /// Drop these tables, in order.
    DropTables(Seq<Seq<char>>),
    /// Delete the rows whose keys begin so.
    Truncate { prefix: Seq<char> },
    /// Keep the labels of an enum type; those of one with this name are replaced.
    RegisterEnum { name: Seq<char>, labels: Seq<Seq<char>> },
    /// Forget an enum type, where there is one with this name.
    DropEnum { name: Seq<char> },
    CreateSequence { name: Seq<char>, if_not_exists: bool },
}

/// What the storage has to do for a statement.
#[derive(Debug)]
pub enum DdlAction {
    Nothing,
    CreateIndex(CreateIndexStep),
    DropIndex(DropIndexStep),
    DropTables(Vec<String>),
    Truncate { prefix: String },
    RegisterEnum { name: String, labels: Vec<String> },
    DropEnum { name: String },
    CreateSequence { name: String, if_not_exists: bool },
}

impl View for DdlAction {
    type V = ActionModel;

    open spec fn view(&self) -> ActionModel {
        match *self {
            DdlAction::Nothing => ActionModel::Nothing,
            DdlAction::CreateIndex(s) => ActionModel::CreateIndex(s@),
            DdlAction::DropIndex(s) => ActionModel::DropIndex(s),
            DdlAction::DropTables(v) => ActionModel::DropTables(schema::texts(v@)),
            DdlAction::Truncate { prefix } => ActionModel::Truncate { prefix: prefix@ },
            DdlAction::RegisterEnum { name, labels } => ActionModel::RegisterEnum {
                name: name@,
                labels: schema::texts(labels@),
            },
            DdlAction::DropEnum { name } => ActionModel::DropEnum { name: name@ },
            DdlAction::CreateSequence { name, if_not_exists } => ActionModel::CreateSequence {
                name: name@,
                if_not_exists,
            },
        }
    }
}

pub open spec fn table_is_missing(name: Seq<char>) -> ErrorModel {
    failure("Table '"@ + name + "' does not exist"@)
}

/// The names of tables.
pub open spec fn table_names(tables: Seq<TableModel>) -> Seq<Seq<char>> {
    Seq::new(tables.len(), |i: int| tables[i].name)
}

/// What dropping a table comes to.
pub open spec fn dropped_table(name: Seq<char>, if_exists: bool, store: StoreModel) -> Result<
    ActionModel,
    ErrorModel,
> {
    if storage_view::table_named(store.tables, name, 0) is None {
        if if_exists {
            Ok(ActionModel::Nothing)
        } else {
            Err(table_is_missing(name))
        }
    } else {
        Ok(
            ActionModel::DropTables(
                cascade(table_names(store.tables), store.catalog.partitions, seq![name]),
            ),
        )
    }
}

/// What emptying a table comes to.
pub open spec fn truncated_table(name: Seq<char>, store: StoreModel) -> Result<
    ActionModel,
    ErrorModel,
> {
    if storage_view::table_named(store.tables, name, 0) is None {
        Err(table_is_missing(name))
    } else {
        Ok(ActionModel::Truncate { prefix: "data:"@ + name + ":"@ })
    }
}

/// What dropping an enum type comes to.
pub open spec fn dropped_enum(name: Seq<char>, if_exists: bool, store: StoreModel) -> Result<
    ActionModel,
    ErrorModel,
> {
    if if_exists || storage_view::is_listed(store.enum_types, name) {
        Ok(ActionModel::DropEnum { name })
    } else {
        Err(failure("type \""@ + name + "\" does not exist"@))
    }
}

/// What a statement that changes the catalog comes to; `None` where it is no
/// such statement.
pub open spec fn ddl_action(p: PlanModel, storage: Option<StoreModel>) -> Option<
    Result<ActionModel, ErrorModel>,
> {
    match (p, storage) {
        (PlanModel::CreateIndex { .. }, None) => Some(Ok(ActionModel::Nothing)),
        (PlanModel::DropIndex { .. }, None) => Some(Err(failure("No storage engine available"@))),
        (PlanModel::DropTable { .. }, None) => Some(Err(failure("No storage engine available"@))),
        (PlanModel::Truncate { .. }, None) => Some(Err(failure("No storage engine available"@))),
        (
            PlanModel::CreateIndex {
                name,
                table_name,
                column_name,
                index_type,
                if_not_exists,
                options,
            },
            Some(store),
        ) => Some(
            match created_index(
                CreateModel {
                    name,
                    table: table_name,
                    column: column_name,
                    index_type,
                    if_not_exists,
                    options,
                },
                store.catalog,
                storage_view::table_named(store.tables, table_name, 0),
                store.branch_active,
            ) {
                Err(e) => Err(e),
                Ok(s) => Ok(ActionModel::CreateIndex(s)),
            },
        ),
        (PlanModel::DropIndex { name, if_exists }, Some(store)) => Some(
            match dropped_index(name, if_exists, store.catalog, store.branch_active) {
                Err(e) => Err(e),
                Ok(s) => Ok(ActionModel::DropIndex(s)),
            },
        ),
        (PlanModel::DropTable { name, if_exists }, Some(store)) => Some(
            dropped_table(name, if_exists, store),
        ),
        (PlanModel::Truncate { table_name }, Some(store)) => Some(
            truncated_table(table_name, store),
        ),
        (PlanModel::CreateEnumType { .. }, None) => Some(
            Err(failure("CREATE TYPE requires storage context"@)),
        ),
        (PlanModel::CreateEnumType { name, labels }, Some(store)) => Some(
            Ok(ActionModel::RegisterEnum { name, labels }),
        ),
        (PlanModel::DropEnumType { .. }, None) => Some(
            Err(failure("DROP TYPE requires storage context"@)),
        ),
        (PlanModel::DropEnumType { name, if_exists }, Some(store)) => Some(
            dropped_enum(name, if_exists, store),
        ),
        (PlanModel::CreateSequence { name, if_not_exists }, _) => Some(
            Ok(ActionModel::CreateSequence { name, if_not_exists }),
        ),
        _ => None,
    }
}

pub open spec fn action_result(r: Option<Result<DdlAction, Error>>) -> Option<
    Result<ActionModel, ErrorModel>,
> {
    match r {
        None => None,
        Some(Ok(a)) => Some(Ok(a@)),
        Some(Err(e)) => Some(Err(e@)),
    }
}

fn handle_drop_enum(name: &String, if_exists: bool, store: &StorageView) -> (r: Result<
    DdlAction,
    Error,
>)
    ensures
        action_result(Some(r)) == Some(dropped_enum(name@, if_exists, store@)),
{
    if if_exists || storage_view::lists(&store.enum_types, name.as_str()) {
        Ok(DdlAction::DropEnum { name: name.clone() })
    } else {
        Err(
            Error::query_execution(
                text::concat3("type \"", name.as_str(), "\" does not exist"),
            ),
        )
    }
}

fn no_storage_error() -> (r: Error)
    ensures
        r@ == failure("No storage engine available"@),
{
    Error::query_execution("No storage engine available".to_owned())
}

fn missing_table_failure(name: &str) -> (r: Error)
    ensures
        r@ == table_is_missing(name@),
{
    Error::query_execution(text::concat3("Table '", name, "' does not exist"))
}

fn list_table_names(tables: &Vec<StoredTable>) -> (r: Vec<String>)
    ensures
        schema::texts(r@) == table_names(storage_view::tables_model(tables@)),
{
    let ghost all = table_names(storage_view::tables_model(tables@));
    let mut out: Vec<String> = Vec::new();
    assert(schema::texts(out@) =~= all.take(0));
    let mut i: usize = 0;
    while i < tables.len()
        invariant
            all == table_names(storage_view::tables_model(tables@)),
            i <= tables@.len(),
            schema::texts(out@) == all.take(i as int),
        decreases tables.len() - i,
    {
        let ghost was = schema::texts(out@);
        let x: String = tables[i].name.clone();
        out.push(x);
        assert(schema::texts(out@) =~= was.push(x@));
        i += 1;
        assert(all.take(i as int) =~= was.push(x@));
    }
    assert(all.take(i as int) =~= all);
    out
}

fn handle_drop_table(name: &String, if_exists: bool, store: &StorageView) -> (r: Result<
    DdlAction,
    Error,
>)
    ensures
        action_result(Some(r)) == Some(dropped_table(name@, if_exists, store@)),
{
    if storage_view::find_table(&store.tables, name.as_str()).is_none() {
        return if if_exists {
            Ok(DdlAction::Nothing)
        } else {
            Err(missing_table_failure(name.as_str()))
        };
    }
    let mut pending: Vec<String> = Vec::new();
    pending.push(name.clone());
    assert(schema::texts(pending@) =~= seq![name@]);
    Ok(
        DdlAction::DropTables(
            drop_table_and_partition_children(
                list_table_names(&store.tables),
                &store.catalog.partitions,
                pending,
            ),
        ),
    )
}

fn handle_truncate(name: &String, store: &StorageView) -> (r: Result<DdlAction, Error>)
    ensures
        action_result(Some(r)) == Some(truncated_table(name@, store@)),
{
    if storage_view::find_table(&store.tables, name.as_str()).is_none() {
        return Err(missing_table_failure(name.as_str()));
    }
    Ok(DdlAction::Truncate { prefix: text::concat3("data:", name.as_str(), ":") })
}

/// What a statement that changes the catalog comes to.
pub fn plan_ddl(plan: &LogicalPlan, storage: Option<&StorageView>) -> (r: Option<
    Result<DdlAction, Error>,
>)
    ensures
        action_result(r) == ddl_action(plan@, storage_view::opt_store(storage)),
{
    match plan {
        LogicalPlan::CreateIndex {
            name,
            table_name,
            column_name,
            index_type,
            if_not_exists,
            options,
        } => match storage {
            None => Some(Ok(DdlAction::Nothing)),
            Some(store) => {
                let c: CreateIndexParts = CreateIndexParts {
                    name,
                    table: table_name,
                    column: column_name,
                    index_type,
                    if_not_exists: *if_not_exists,
                    options,
                };
                let table: Option<&StoredTable> = storage_view::find_table(
                    &store.tables,
                    table_name.as_str(),
                );
                match handle_create_index(&c, &store.catalog, table, store.branch_active) {
                    Err(e) => Some(Err(e)),
                    Ok(s) => Some(Ok(DdlAction::CreateIndex(s))),
                }
            },
        },
        LogicalPlan::DropIndex { name, if_exists } => match storage {
            None => Some(Err(no_storage_error())),
            Some(store) => match handle_drop_index(
                name.as_str(),
                *if_exists,
                &store.catalog,
                store.branch_active,
            ) {
                Err(e) => Some(Err(e)),
                Ok(s) => Some(Ok(DdlAction::DropIndex(s))),
            },
        },
        LogicalPlan::DropTable { name, if_exists } => match storage {
            None => Some(Err(no_storage_error())),
            Some(store) => Some(handle_drop_table(name, *if_exists, store)),
        },
        LogicalPlan::Truncate { table_name } => match storage {
            None => Some(Err(no_storage_error())),
            Some(store) => Some(handle_truncate(table_name, store)),
        },
        LogicalPlan::CreateEnumType { name, labels } => match storage {
            None => Some(
                Err(Error::query_execution("CREATE TYPE requires storage context".to_owned())),
            ),
            Some(_) => Some(
                Ok(
                    DdlAction::RegisterEnum {
                        name: name.clone(),
                        labels: schema::clone_texts(labels),
                    },
                ),
            ),
        },
        LogicalPlan::DropEnumType { name, if_exists } => match storage {
            None => Some(
                Err(Error::query_execution("DROP TYPE requires storage context".to_owned())),
            ),
            Some(store) => Some(handle_drop_enum(name, *if_exists, store)),
        },
        LogicalPlan::CreateSequence { name, if_not_exists } => Some(
            Ok(
                DdlAction::CreateSequence { name: name.clone(), if_not_exists: *if_not_exists },
            ),
        ),
        _ => None,
    }
}

/// Whether a table is a partition of one of some tables.
pub open spec fn is_partition_of_one(
    links: Seq<LinkModel>,
    tables: Seq<Seq<char>>,
    x: Seq<char>,
) -> bool {
    exists|k: int|
        0 <= k < tables.len() && schema::named_in(partitions_of(links, #[trigger] tables[k], 0), x)
}

/// Dropping tables drops nothing but what was asked for and the partitions of what is
/// dropped.
pub proof fn law_cascade_drops_nothing_else(
    tables: Seq<Seq<char>>,
    links: Seq<LinkModel>,
    pending: Seq<Seq<char>>,
    n: int,
)
    requires
        0 <= n < cascade(tables, links, pending).len(),
    ensures
        ({
            let dropped = cascade(tables, links, pending);
            schema::named_in(pending, dropped[n]) || is_partition_of_one(
                links,
                dropped,
                dropped[n],
            )
        }),
    decreases tables.len(), pending.len(),
{
    let dropped = cascade(tables, links, pending);
    if pending.len() > 0 {
        let name = pending[0];
        let rest = pending.skip(1);
        if !schema::named_in(tables, name) {
            law_cascade_drops_nothing_else(tables, links, rest, n);
            if schema::named_in(rest, dropped[n]) {
                let k = choose|k: int| 0 <= k < rest.len() && rest[k] == dropped[n];
                assert(pending[k + 1] == dropped[n]);
            }
        } else {
            lemma_without(tables, name);
            let own = partitions_of(links, name, 0);
            let more = own + rest;
            let tail = cascade(without(tables, name), links, more);
            assert(dropped =~= seq![name] + tail);
            if n == 0 {
                assert(pending[0] == dropped[n]);
            } else {
                let x = tail[n - 1];
                assert(dropped[n] == x);
                law_cascade_drops_nothing_else(without(tables, name), links, more, n - 1);
                if schema::named_in(more, x) {
                    let k = choose|k: int| 0 <= k < more.len() && more[k] == x;
                    if k < own.len() {
                        assert(own[k] == x);
                        assert(dropped[0] == name);
                        assert(schema::named_in(partitions_of(links, dropped[0], 0), x));
                    } else {
                        assert(pending[k - own.len() + 1] == x);
                    }
                } else {
                    let k = choose|k: int|
                        0 <= k < tail.len() && schema::named_in(
                            partitions_of(links, #[trigger] tail[k], 0),
                            x,
                        );
                    assert(dropped[k + 1] == tail[k]);
                }
            }
        }
    }
}

} // verus!
