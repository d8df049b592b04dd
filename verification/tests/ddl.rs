use helios_exec::executor::ddl::{
    collect_existing_vectors, collect_keys_to_delete, constraint_index_kind, index_family, plan_ddl,
    truncation_clears_indexes, CatalogView, CreateIndexStep, DdlAction, DropIndexStep,
    IndexDefinition, IndexFamily, IndexKind, PartitionLink, RegisteredIndex,
    VectorPrecision,
};
use helios_exec::executor::knn::VectorMetric;
use helios_exec::executor::query::Executor;
use helios_exec::executor::storage_view::{StorageView, StoredTable};
use helios_exec::logical_plan::{IndexOption, LogicalPlan, QuantizationType};
use helios_exec::schema::{Column, Schema, Tuple};
use helios_exec::value::{DataType, Value};

fn table(name: &str) -> StoredTable {
    StoredTable {
        name: name.to_string(),
        schema: Schema {
            columns: vec![
                Column::new("id", DataType::Int4),
                Column::new("spot", DataType::Vector(2)),
            ],
        },
        rows: Vec::new(),
    }
}

fn store() -> StorageView {
    StorageView {
        tables: vec![table("t"), table("t_old"), table("t_new"), table("t_new_a")],
        materialized_views: Vec::new(),
        system_views: Vec::new(),
        histories: Vec::new(),
        indexes: Vec::new(),
        contents: Vec::new(),
        enum_types: Vec::new(),
        catalog: CatalogView::empty(),
        time_travel_enabled: false,
        branch_active: false,
    }
}

fn create(index_type: Option<&str>, column: &str, options: Vec<IndexOption>) -> LogicalPlan {
    LogicalPlan::CreateIndex {
        name: "i".to_string(),
        table_name: "t".to_string(),
        column_name: column.to_string(),
        index_type: index_type.map(|t| t.to_string()),
        if_not_exists: false,
        options,
    }
}

fn created(s: &StorageView, plan: &LogicalPlan) -> CreateIndexStep {
    match plan_ddl(plan, Some(s)) {
        Some(Ok(DdlAction::CreateIndex(step))) => step,
        other => panic!("{:?}", other),
    }
}

fn refused(s: &StorageView, plan: &LogicalPlan) -> String {
    match plan_ddl(plan, Some(s)) {
        Some(Err(e)) => e.to_string(),
        other => panic!("{:?}", other),
    }
}

fn drop_index(if_exists: bool) -> LogicalPlan {
    LogicalPlan::DropIndex { name: "i".to_string(), if_exists }
}

fn dropped(s: &StorageView, plan: &LogicalPlan) -> DropIndexStep {
    match plan_ddl(plan, Some(s)) {
        Some(Ok(DdlAction::DropIndex(step))) => step,
        other => panic!("{:?}", other),
    }
}

fn vector_row(id: Option<u64>, v: Value) -> Tuple {
    let mut t = Tuple::new(vec![Value::Int4(1), v]);
    t.row_id = id;
    t
}

#[test]
fn index_types_fall_into_families() {
    assert_eq!(index_family(None), Some(IndexFamily::Art));
    assert_eq!(index_family(Some("btree")), Some(IndexFamily::Art));
    assert_eq!(index_family(Some("hash")), Some(IndexFamily::Art));
    assert_eq!(index_family(Some("persistent_hnsw")), Some(IndexFamily::Vector));
    assert_eq!(index_family(Some("gin")), Some(IndexFamily::DdlOnly));
    assert_eq!(index_family(Some("brin")), None);
    assert_eq!(index_family(Some("HNSW")), None);
}

#[test]
fn constraints_are_named_after_their_kind() {
    assert_eq!(constraint_index_kind(IndexKind::PrimaryKey), Some("PRIMARY KEY"));
    assert_eq!(constraint_index_kind(IndexKind::Unique), Some("UNIQUE"));
    assert_eq!(constraint_index_kind(IndexKind::ForeignKey), Some("FOREIGN KEY"));
    assert_eq!(constraint_index_kind(IndexKind::Manual), None);
}

#[test]
fn a_tree_is_recorded_as_art_whatever_it_was_called() {
    match created(&store(), &create(Some("btree"), "id", Vec::new())) {
        CreateIndexStep::BuildArt { tag } => assert_eq!(tag, "art"),
        other => panic!("{:?}", other),
    }
}

#[test]
fn an_index_that_is_only_recorded_keeps_its_name() {
    match created(&store(), &create(Some("gist"), "nowhere", Vec::new())) {
        CreateIndexStep::Record { tag } => assert_eq!(tag, "gist"),
        other => panic!("{:?}", other),
    }
    assert!(matches!(
        created(&store(), &create(Some("brin"), "id", Vec::new())),
        CreateIndexStep::Nothing
    ));
}

#[test]
fn creating_a_tree_is_refused_for_a_reason() {
    let mut s = store();
    assert_eq!(
        refused(&s, &create(None, "nowhere", Vec::new())),
        "Column 'nowhere' not found in table 't'"
    );
    s.catalog.registered.push(RegisteredIndex {
        name: "i".to_string(),
        kind: IndexKind::Manual,
        table: "t".to_string(),
    });
    assert_eq!(refused(&s, &create(None, "id", Vec::new())), "ART index 'i' already exists");
    s.branch_active = true;
    assert_eq!(
        refused(&s, &create(None, "id", Vec::new())),
        "CREATE INDEX for ART secondary indexes must run on the main branch"
    );
    s.branch_active = false;
    s.catalog.registered.clear();
    s.tables.clear();
    assert!(refused(&s, &create(None, "id", Vec::new())).contains("'t' does not exist"));
}

#[test]
fn a_vector_graph_is_built_as_its_options_say() {
    let mut s = store();
    s.tables[0].rows = vec![
        vector_row(Some(7), Value::Vector(vec![1, 2])),
        vector_row(Some(8), Value::Null),
    ];
    let plain = created(&s, &create(Some("hnsw_pq"), "spot", Vec::new()));
    match plain {
        CreateIndexStep::BuildVector { dimension, metric, build, recorded_as, vectors } => {
            assert_eq!(dimension, 2);
            assert_eq!(metric, VectorMetric::L2);
            assert_eq!((build.hnsw_m, build.hnsw_ef_construction), (16, 200));
            assert_eq!(recorded_as, "hnsw");
            assert_eq!(vectors, vec![(7, vec![1, 2])]);
        }
        other => panic!("{:?}", other),
    }
    let options = vec![
        IndexOption::DistanceMetric("l2".to_string()),
        IndexOption::HnswM(4),
        IndexOption::HnswM(8),
        IndexOption::EfConstruction(50),
        IndexOption::Quantization(QuantizationType::Product),
        IndexOption::PqCentroids(3),
        IndexOption::RerankPrecision("f16".to_string()),
        IndexOption::DistanceMetric("cosine".to_string()),
    ];
    match created(&s, &create(Some("hnsw"), "spot", options)) {
        CreateIndexStep::BuildVector { metric, build, recorded_as, .. } => {
            assert_eq!(metric, VectorMetric::Cosine);
            assert_eq!(build.hnsw_m, 8);
            assert_eq!(build.hnsw_ef_construction, 50);
            assert_eq!(build.pq_centroids, Some(3));
            assert_eq!(build.pq_subquantizers, None);
            assert_eq!(build.rerank_precision, Some(VectorPrecision::Half));
            assert_eq!(recorded_as, "hnsw_pq");
        }
        other => panic!("{:?}", other),
    }
    match created(&s, &create(Some("hnsw"), "spot", vec![IndexOption::Persistent(true)])) {
        CreateIndexStep::BuildVector { recorded_as, .. } => assert_eq!(recorded_as, "persistent_hnsw"),
        other => panic!("{:?}", other),
    }
}

#[test]
fn creating_a_vector_graph_is_refused_for_a_reason() {
    let mut s = store();
    assert_eq!(
        refused(&s, &create(Some("hnsw"), "id", Vec::new())),
        "Column 'id' is not a vector type, cannot create HNSW index"
    );
    assert_eq!(
        refused(
            &s,
            &create(Some("hnsw"), "spot", vec![IndexOption::DistanceMetric("taxi".to_string())])
        ),
        "Unsupported vector index metric 'taxi'"
    );
    let precise = |name: &str| {
        let options = vec![IndexOption::RerankPrecision(name.to_string())];
        create(Some("hnsw"), "spot", options)
    };
    assert_eq!(refused(&s, &precise("f8")), "Unsupported rerank_precision 'f8'");
    for (name, precision) in [("f32", VectorPrecision::Single), ("i8", VectorPrecision::Byte)] {
        match created(&s, &precise(name)) {
            CreateIndexStep::BuildVector { build, .. } => {
                assert_eq!(build.rerank_precision, Some(precision))
            }
            other => panic!("{:?}", other),
        }
    }
    s.catalog.vector_indexes.push("i".to_string());
    assert_eq!(refused(&s, &create(Some("hnsw"), "spot", Vec::new())), "Index 'i' already exists");
    let again = LogicalPlan::CreateIndex {
        name: "i".to_string(),
        table_name: "t".to_string(),
        column_name: "spot".to_string(),
        index_type: Some("hnsw".to_string()),
        if_not_exists: true,
        options: Vec::new(),
    };
    assert!(matches!(created(&s, &again), CreateIndexStep::Nothing));
}

#[test]
fn vectors_that_do_not_fit_stop_the_backfill() {
    let collect = |rows: Vec<Tuple>| match collect_existing_vectors(&rows, 1, 2, "t", "spot") {
        Ok(v) => format!("{:?}", v),
        Err(e) => e.to_string(),
    };
    assert_eq!(
        collect(vec![vector_row(Some(1), Value::Vector(vec![1, 2, 3]))]),
        "Vector dimension mismatch while backfilling 't.spot': expected 2, got 3"
    );
    assert_eq!(
        collect(vec![vector_row(None, Value::Vector(vec![1, 2]))]),
        "Cannot backfill vector index on 't.spot' from tuple without row_id"
    );
    assert_eq!(
        collect(vec![vector_row(Some(1), Value::Boolean(true))]),
        "Cannot backfill vector index on 't.spot' from non-vector value Boolean(true)"
    );
    assert_eq!(collect(vec![Tuple::new(Vec::new())]), "[]");
}

#[test]
fn an_index_is_dropped_by_what_was_built() {
    let mut s = store();
    let steps = [
        (None, true, DropIndexStep::DropArt),
        (Some("art"), true, DropIndexStep::DropArt),
        (Some("persistent_hnsw"), true, DropIndexStep::DropVector),
        (Some("gin"), true, DropIndexStep::DropRecord),
        (Some("gin"), false, DropIndexStep::DropArt),
    ];
    for (tag, decodable, step) in steps {
        s.catalog.definitions = vec![IndexDefinition {
            name: "i".to_string(),
            index_type: tag.map(|t| t.to_string()),
            decodable,
        }];
        assert_eq!(dropped(&s, &drop_index(false)), step);
    }
}

#[test]
fn dropping_an_index_is_refused_for_a_reason() {
    let mut s = store();
    assert_eq!(refused(&s, &drop_index(false)), "index \"i\" does not exist");
    assert_eq!(dropped(&s, &drop_index(true)), DropIndexStep::Nothing);
    s.catalog.definitions = vec![IndexDefinition {
        name: "i".to_string(),
        index_type: Some("brin".to_string()),
        decodable: true,
    }];
    assert!(refused(&s, &drop_index(false))
        .starts_with("Cannot drop index \"i\": unsupported persisted index type 'brin'."));
    s.catalog.registered.push(RegisteredIndex {
        name: "i".to_string(),
        kind: IndexKind::Unique,
        table: "t".to_string(),
    });
    assert_eq!(
        refused(&s, &drop_index(true)),
        "cannot drop index \"i\" because constraint UNIQUE on \"t\" requires it; drop the constraint instead"
    );
    s.branch_active = true;
    assert_eq!(refused(&s, &drop_index(true)), "DROP INDEX must run on the main branch");
    match plan_ddl(&drop_index(true), None) {
        Some(Err(e)) => assert_eq!(e.to_string(), "No storage engine available"),
        other => panic!("{:?}", other),
    }
}

#[test]
fn dropping_a_table_drops_its_partitions_once() {
    let mut s = store();
    s.catalog.partitions = vec![
        PartitionLink {
            parent: "t".to_string(),
            children: vec!["t_new".to_string(), "t_gone".to_string(), "t_old".to_string()],
        },
        PartitionLink {
            parent: "t_new".to_string(),
            children: vec!["t_new_a".to_string(), "t_old".to_string()],
        },
    ];
    let plan = LogicalPlan::DropTable { name: "t".to_string(), if_exists: false };
    match plan_ddl(&plan, Some(&s)) {
        Some(Ok(DdlAction::DropTables(names))) => {
            assert_eq!(names, vec!["t", "t_new", "t_new_a", "t_old"])
        }
        other => panic!("{:?}", other),
    }
    let missing = |if_exists| LogicalPlan::DropTable { name: "x".to_string(), if_exists };
    assert_eq!(refused(&s, &missing(false)), "Table 'x' does not exist");
    assert!(matches!(plan_ddl(&missing(true), Some(&s)), Some(Ok(DdlAction::Nothing))));
}

#[test]
fn truncating_deletes_the_keys_of_the_table() {
    let keys: Vec<Vec<u8>> = ["a", "data:a:1", "data:t:1", "data:t:2", "data:tt:1", "e", "data:t:3"]
        .iter()
        .map(|k| k.as_bytes().to_vec())
        .collect();
    let found = collect_keys_to_delete(&keys, &b"data:t:".to_vec());
    assert_eq!(found, vec![b"data:t:1".to_vec(), b"data:t:2".to_vec()]);
    let plan = LogicalPlan::Truncate { table_name: "t".to_string() };
    match plan_ddl(&plan, Some(&store())) {
        Some(Ok(DdlAction::Truncate { prefix })) => assert_eq!(prefix, "data:t:"),
        other => panic!("{:?}", other),
    }
    let missing = LogicalPlan::Truncate { table_name: "x".to_string() };
    assert_eq!(refused(&store(), &missing), "Table 'x' does not exist");
}

#[test]
fn types_and_sequences_are_handed_to_the_storage() {
    let mut s = store();
    s.enum_types = vec!["mood".to_string()];
    let made = LogicalPlan::CreateEnumType {
        name: "mood".to_string(),
        labels: vec!["sad".to_string(), "ok".to_string()],
    };
    match plan_ddl(&made, Some(&s)) {
        Some(Ok(DdlAction::RegisterEnum { name, labels })) => {
            assert_eq!(name, "mood");
            assert_eq!(labels, vec!["sad", "ok"]);
        }
        other => panic!("{:?}", other),
    }
    match plan_ddl(&made, None) {
        Some(Err(e)) => assert_eq!(e.to_string(), "CREATE TYPE requires storage context"),
        other => panic!("{:?}", other),
    }
    let gone = |name: &str, if_exists: bool| LogicalPlan::DropEnumType { name: name.to_string(), if_exists };
    for plan in [gone("mood", false), gone("mood", true), gone("none", true)] {
        match plan_ddl(&plan, Some(&s)) {
            Some(Ok(DdlAction::DropEnum { name })) => assert!(name == "mood" || name == "none"),
            other => panic!("{:?}", other),
        }
    }
    assert_eq!(refused(&s, &gone("none", false)), "type \"none\" does not exist");
    match plan_ddl(&gone("mood", true), None) {
        Some(Err(e)) => assert_eq!(e.to_string(), "DROP TYPE requires storage context"),
        other => panic!("{:?}", other),
    }
    let sequence = LogicalPlan::CreateSequence { name: "ids".to_string(), if_not_exists: true };
    for storage in [Some(&s), None] {
        match plan_ddl(&sequence, storage) {
            Some(Ok(DdlAction::CreateSequence { name, if_not_exists })) => {
                assert_eq!((name.as_str(), if_not_exists), ("ids", true));
            }
            other => panic!("{:?}", other),
        }
    }
    for plan in [made, gone("mood", false), sequence] {
        match Executor::with_storage(&s).execute(&plan) {
            Ok(rows) => assert_eq!(rows.len(), 0),
            Err(e) => panic!("{}", e.to_string()),
        }
    }
}

#[test]
fn indexes_are_cleared_unless_another_branch_may_need_them() {
    assert!(truncation_clears_indexes(&None));
    assert!(truncation_clears_indexes(&Some(vec!["main".to_string()])));
    assert!(!truncation_clears_indexes(&Some(vec!["main".to_string(), "dev".to_string()])));
}

#[test]
fn catalog_statements_give_no_rows_or_their_error() {
    let s = store();
    let plan = LogicalPlan::DropTable { name: "t".to_string(), if_exists: false };
    match Executor::with_storage(&s).execute(&plan) {
        Ok(rows) => assert_eq!(rows.len(), 0),
        Err(e) => panic!("{}", e.to_string()),
    }
    match Executor::new().execute(&plan) {
        Ok(_) => panic!("there is no storage"),
        Err(e) => assert_eq!(e.to_string(), "No storage engine available"),
    }
    match Executor::new().execute(&create(None, "id", Vec::new())) {
        Ok(rows) => assert_eq!(rows.len(), 0),
        Err(e) => panic!("{}", e.to_string()),
    }
}
