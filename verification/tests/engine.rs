//! End-to-end exercises of the transaction engine, the manifest tree
//! manager, the catalog contract and the refresh state machine, on the
//! orders table: `id long, customer_id long, product_id long, date date,
//! amount int`, partitioned by `day(date)`.

use iceberg_core::catalog::{CatalogState, Identifier, TableRequirement, TableUpdate, TabularMetadata};
use iceberg_core::manifest::{DataFile, Content, ManifestEntry, Status};
use iceberg_core::pruning::{CompareOp, PrunePredicate};
use iceberg_core::refresh::{classify_source_state, initial_source_tables, plan_refresh, recorded_source_tables, RefreshPlan, StorageTableState};
use iceberg_core::rest::{Configuration, RestCatalog, TokenType};
use iceberg_core::schema::{PartitionField, PartitionSpec, Schema, StructField, PrimitiveType, Transform};
use iceberg_core::snapshot::SourceTable;
use iceberg_core::statistics::{Precision, manifest_statistics, table_statistics};
use iceberg_core::storage::TableStorage;
use iceberg_core::table::Table;
use iceberg_core::table_metadata::{FormatVersion, TableMetadata};
use iceberg_core::transaction::Transaction;
use iceberg_core::tree::{compute_n_splits, int_log2, int_sqrt, Rectangle};
use iceberg_core::util::{format_u64, generate_snapshot_id};
use iceberg_core::Error;

const DAY_A: i64 = 18262;
const DAY_B: i64 = 18294;

fn orders_schema() -> Schema {
    let field = |id: i32, name: &str, t: PrimitiveType| StructField {
        id,
        name: name.to_string(),
        required: true,
        field_type: t,
    };
    Schema {
        schema_id: 1,
        fields: vec![
            field(1, "id", PrimitiveType::Long),
            field(2, "customer_id", PrimitiveType::Long),
            field(3, "product_id", PrimitiveType::Long),
            field(4, "date", PrimitiveType::Date),
            field(5, "amount", PrimitiveType::Int),
        ],
    }
}

fn day_spec() -> PartitionSpec {
    PartitionSpec {
        spec_id: 1,
        fields: vec![PartitionField {
            source_id: 4,
            field_id: 1000,
            name: "day".to_string(),
            transform: Transform::Day,
        }],
    }
}

fn orders_metadata() -> TableMetadata {
    TableMetadata {
        format_version: FormatVersion::V2,
        table_uuid: "0".to_string(),
        location: "/test/orders".to_string(),
        last_sequence_number: 0,
        last_updated_ms: 0,
        current_schema_id: 1,
        schemas: vec![orders_schema()],
        partition_specs: vec![day_spec()],
        default_spec_id: 1,
        snapshots: Vec::new(),
        current_snapshot_id: None,
        refs: Vec::new(),
        snapshot_log: Vec::new(),
        properties: Vec::new(),
    }
}

fn orders_identifier() -> Identifier {
    Identifier {
        namespace: vec!["test".to_string()],
        name: "orders".to_string(),
    }
}

fn data_file(path: &str, day: i64, rows: u64, customer_min: i64, customer_max: i64) -> DataFile {
    DataFile {
        file_path: path.to_string(),
        content: Content::Data,
        partition: vec![day],
        record_count: rows,
        file_size_in_bytes: 1024,
        null_value_counts: vec![(2, 0)],
        distinct_counts: Vec::new(),
        lower_bounds: vec![(2, customer_min)],
        upper_bounds: vec![(2, customer_max)],
    }
}

fn loaded_table_metadata(catalog: &CatalogState, id: &Identifier) -> TableMetadata {
    match catalog.load_tabular(id).expect("tabular must exist") {
        TabularMetadata::Table(m) => m,
        _ => panic!("expected a table"),
    }
}

fn six_row_files() -> Vec<DataFile> {
    vec![
        data_file("/test/orders/data/a1.parquet", DAY_A, 1, 1, 1),
        data_file("/test/orders/data/a2.parquet", DAY_A, 1, 2, 2),
        data_file("/test/orders/data/a3.parquet", DAY_A, 1, 3, 3),
        data_file("/test/orders/data/b1.parquet", DAY_B, 1, 1, 1),
        data_file("/test/orders/data/b2.parquet", DAY_B, 1, 1, 1),
        data_file("/test/orders/data/b3.parquet", DAY_B, 1, 3, 3),
    ]
}

#[test]
fn int_sqrt_matches_squares() {
    assert_eq!(int_sqrt(0), 0);
    assert_eq!(int_sqrt(1), 1);
    assert_eq!(int_sqrt(3), 1);
    assert_eq!(int_sqrt(4), 2);
    assert_eq!(int_sqrt(6), 2);
    assert_eq!(int_sqrt(35), 5);
    assert_eq!(int_sqrt(36), 6);
    assert_eq!(int_sqrt(u64::MAX), 4294967295);
}

#[test]
fn int_log2_matches_powers() {
    assert_eq!(int_log2(1), 0);
    assert_eq!(int_log2(2), 1);
    assert_eq!(int_log2(3), 1);
    assert_eq!(int_log2(4), 2);
    assert_eq!(int_log2(1023), 9);
    assert_eq!(int_log2(1024), 10);
}

#[test]
fn n_splits_keeps_small_appends_whole() {
    // limit = 4 + floor(sqrt(3)) = 5, and 3 files stay below it.
    assert_eq!(compute_n_splits(0, 3, 0), 0);
}

#[test]
fn n_splits_bisects_six_files() {
    // limit = 4 + floor(sqrt(6)) = 6; six files reach it: one split.
    assert_eq!(compute_n_splits(0, 6, 0), 1);
}

#[test]
fn n_splits_grows_logarithmically() {
    // limit = 4 + floor(sqrt(110)) = 14; 60 files in the target manifest
    // give 60 / 14 = 4, so 2 + 1 = 3 splits.
    assert_eq!(compute_n_splits(100, 10, 50), 3);
}

#[test]
fn rectangle_contains_and_grows() {
    let r = Rectangle { min: vec![0, 0], max: vec![10, 10] };
    assert!(r.contains_point(&vec![5, 5]));
    assert!(!r.contains_point(&vec![5, 11]));
    let inner = Rectangle { min: vec![2, 2], max: vec![3, 3] };
    assert!(r.contains(&inner));
    let outer = Rectangle { min: vec![2, 2], max: vec![3, 12] };
    assert!(!r.contains(&outer));
    // Growing to cover the contained rectangle costs nothing.
    assert_eq!(r.expansion_cost(&inner), 0);
    // Widening one axis from extent 10 to 12 grows the area 10 * 10 by 20.
    assert_eq!(r.expansion_cost(&outer), 20);
}

#[test]
fn snapshot_ids_are_63_bit() {
    for _ in 0..16 {
        let id = generate_snapshot_id().expect("entropy source");
        assert!(id >= 0);
    }
}

#[test]
fn decimal_rendering_is_exact() {
    assert_eq!(format_u64(0).as_str(), "0");
    assert_eq!(format_u64(7).as_str(), "7");
    assert_eq!(format_u64(18446744073709551615).as_str(), "18446744073709551615");
}

#[test]
fn append_six_rows_makes_one_snapshot_two_manifests() {
    let mut catalog = CatalogState::new();
    let mut storage = TableStorage::new();
    let id = orders_identifier();
    catalog
        .create_namespace(vec!["test".to_string()])
        .expect("namespace");
    catalog
        .create_table(
            Identifier {
                namespace: vec!["test".to_string()],
                name: "orders".to_string(),
            },
            orders_metadata(),
            "/test/orders/metadata/v0.metadata.json".to_string(),
        )
        .expect("create table");

    let handle = loaded_table_metadata(&catalog, &id);
    let mut tx = Transaction::new(None);
    tx.append(six_row_files(), None);
    let new_md = tx
        .commit(
            &handle,
            &mut storage,
            &mut catalog,
            &id,
            "/test/orders/metadata/v1.metadata.json".to_string(),
            1000,
        )
        .expect("append commit");

    // One new snapshot, pointed at by main.
    assert_eq!(new_md.snapshots.len(), 1);
    let snapshot = &new_md.snapshots[0];
    assert_eq!(new_md.current_snapshot_id, Some(snapshot.snapshot_id));
    let main_ref = new_md.get_ref("main").expect("main ref");
    assert_eq!(main_ref.snapshot_id, snapshot.snapshot_id);
    // The first snapshot on a branch without a predecessor numbers from zero.
    assert_eq!(snapshot.sequence_number, 0);
    assert_eq!(snapshot.parent_snapshot_id, None);
    assert!(snapshot.manifest_list.starts_with("/test/orders/metadata/snap-"));
    assert!(snapshot.manifest_list.ends_with(".avro"));
    // location + "/metadata/snap-" + decimal id + "-" + 36-character name + ".avro"
    assert_eq!(
        snapshot.manifest_list.len(),
        "/test/orders".len()
            + "/metadata/snap-".len()
            + snapshot.snapshot_id.to_string().len()
            + 1
            + 36
            + ".avro".len()
    );

    // Six files at the dynamic limit split once: two manifests, one per day.
    let list = storage
        .get_manifest_list(snapshot.manifest_list.as_str())
        .expect("manifest list object");
    assert_eq!(list.len(), 2);
    let mut added = 0;
    for mle in list.iter() {
        assert_eq!(mle.sequence_number, 0);
        added += mle.added_files_count.unwrap();
        assert_eq!(mle.deleted_files_count.unwrap(), 0);
        let summary = mle.partitions.as_ref().expect("partition summary");
        assert_eq!(summary.len(), 1);
        assert!(summary[0].lower_bound <= summary[0].upper_bound);
    }
    assert_eq!(added, 6);

    // Every entry is reachable and live.
    let snapshot_id = snapshot.snapshot_id;
    let table = Table::new(id, new_md, "/test/orders/metadata/v1.metadata.json");
    let manifests = table.manifests(&storage, None, None).expect("manifests");
    let entries = table.datafiles(&storage, &manifests).expect("datafiles");
    assert_eq!(entries.len(), 6);
    for e in entries.iter() {
        assert_eq!(e.status, Status::Added);
        assert_eq!(e.snapshot_id, Some(snapshot_id));
    }
}

#[test]
fn second_append_inherits_and_advances_sequence() {
    let mut catalog = CatalogState::new();
    let mut storage = TableStorage::new();
    let id = orders_identifier();
    catalog
        .create_table(orders_identifier(), orders_metadata(), "v0".to_string())
        .expect("create table");

    let handle = loaded_table_metadata(&catalog, &id);
    let mut tx = Transaction::new(None);
    tx.append(
        vec![data_file("/test/orders/data/a1.parquet", DAY_A, 2, 1, 3)],
        None,
    );
    let md1 = tx
        .commit(&handle, &mut storage, &mut catalog, &id, "v1".to_string(), 1000)
        .expect("first append");

    let mut tx = Transaction::new(None);
    tx.append(
        vec![data_file("/test/orders/data/a2.parquet", DAY_A, 3, 1, 3)],
        None,
    );
    let md2 = tx
        .commit(&md1, &mut storage, &mut catalog, &id, "v2".to_string(), 2000)
        .expect("second append");

    assert_eq!(md2.snapshots.len(), 2);
    let first_id = md1.current_snapshot_id.unwrap();
    let second = md2.find_snapshot(md2.current_snapshot_id.unwrap()).unwrap();
    assert_eq!(second.parent_snapshot_id, Some(first_id));
    assert_eq!(second.sequence_number, 1);
    assert_eq!(md2.last_sequence_number, 1);

    // The prior entry is inherited as existing, stamped with its sequence.
    let table = Table::new(id, md2, "v2");
    let manifests = table.manifests(&storage, None, None).expect("manifests");
    let entries = table.datafiles(&storage, &manifests).expect("datafiles");
    assert_eq!(entries.len(), 2);
    let inherited: Vec<&ManifestEntry> = entries
        .iter()
        .filter(|e| e.status == Status::Existing)
        .collect();
    assert_eq!(inherited.len(), 1);
    assert_eq!(inherited[0].sequence_number, Some(0));
}

#[test]
fn concurrent_appends_conflict_then_replay() {
    let mut catalog = CatalogState::new();
    let mut storage = TableStorage::new();
    let id = orders_identifier();
    catalog
        .create_table(orders_identifier(), orders_metadata(), "v0".to_string())
        .expect("create table");
    let base = loaded_table_metadata(&catalog, &id);

    let mut tx = Transaction::new(None);
    tx.append(
        vec![data_file("/test/orders/data/w1.parquet", DAY_A, 1, 1, 1)],
        None,
    );
    let md1 = tx
        .commit(&base, &mut storage, &mut catalog, &id, "v1".to_string(), 1000)
        .expect("writer one commits");

    // Base has no snapshot, so neither writer carries a ref assertion; the
    // race is observable from the second snapshot onward. Run both writers
    // again from the same post-first-commit state.
    let stale = loaded_table_metadata(&catalog, &id);
    let mut tx_a = Transaction::new(None);
    tx_a.append(
        vec![data_file("/test/orders/data/w2.parquet", DAY_A, 1, 1, 1)],
        None,
    );
    let md2 = tx_a
        .commit(&stale, &mut storage, &mut catalog, &id, "v2".to_string(), 2000)
        .expect("writer two commits");

    let mut tx_b = Transaction::new(None);
    tx_b.append(
        vec![data_file("/test/orders/data/w3.parquet", DAY_A, 1, 1, 1)],
        None,
    );
    let conflict = tx_b.commit(&stale, &mut storage, &mut catalog, &id, "v3".to_string(), 3000);
    match conflict {
        Err(Error::Conflict(_)) => {}
        other => panic!("stale writer must conflict, got {:?}", other.is_ok()),
    }

    // After reload the replayed transaction succeeds, extending the chain.
    let fresh = loaded_table_metadata(&catalog, &id);
    let mut tx_b = Transaction::new(None);
    tx_b.append(
        vec![data_file("/test/orders/data/w3.parquet", DAY_A, 1, 1, 1)],
        None,
    );
    let md3 = tx_b
        .commit(&fresh, &mut storage, &mut catalog, &id, "v3".to_string(), 4000)
        .expect("replay succeeds");

    assert_eq!(md3.snapshots.len(), 3);
    let head = md3.find_snapshot(md3.current_snapshot_id.unwrap()).unwrap();
    assert_eq!(head.parent_snapshot_id, md2.current_snapshot_id);
    let mid = md3.find_snapshot(md2.current_snapshot_id.unwrap()).unwrap();
    assert_eq!(mid.parent_snapshot_id, md1.current_snapshot_id);
}

#[test]
fn empty_append_is_rejected() {
    let mut catalog = CatalogState::new();
    let mut storage = TableStorage::new();
    let id = orders_identifier();
    catalog
        .create_table(orders_identifier(), orders_metadata(), "v0".to_string())
        .expect("create table");
    let handle = loaded_table_metadata(&catalog, &id);
    let mut tx = Transaction::new(None);
    tx.append(Vec::new(), None);
    let r = tx.commit(&handle, &mut storage, &mut catalog, &id, "v1".to_string(), 1000);
    match r {
        Err(Error::NotFound(what, key)) => {
            assert_eq!(what.as_str(), "Bounding");
            assert_eq!(key.as_str(), "rectangle");
        }
        _ => panic!("empty append must be rejected"),
    }
}

#[test]
fn rewrite_replaces_live_set() {
    let mut catalog = CatalogState::new();
    let mut storage = TableStorage::new();
    let id = orders_identifier();
    catalog
        .create_table(orders_identifier(), orders_metadata(), "v0".to_string())
        .expect("create table");
    let handle = loaded_table_metadata(&catalog, &id);
    let mut tx = Transaction::new(None);
    tx.append(six_row_files(), None);
    let md1 = tx
        .commit(&handle, &mut storage, &mut catalog, &id, "v1".to_string(), 1000)
        .expect("append");

    let mut tx = Transaction::new(None);
    tx.rewrite(
        vec![data_file("/test/orders/data/r1.parquet", DAY_A, 9, 1, 3)],
        None,
    );
    let md2 = tx
        .commit(&md1, &mut storage, &mut catalog, &id, "v2".to_string(), 2000)
        .expect("rewrite");

    // All prior snapshots are dropped; the new one starts numbering over.
    assert_eq!(md2.snapshots.len(), 1);
    let snapshot = &md2.snapshots[0];
    assert_eq!(snapshot.sequence_number, 0);

    let table = Table::new(id, md2, "v2");
    let manifests = table.manifests(&storage, None, None).expect("manifests");
    let entries = table.datafiles(&storage, &manifests).expect("datafiles");
    let live: Vec<&ManifestEntry> = entries
        .iter()
        .filter(|e| e.status != Status::Deleted)
        .collect();
    assert_eq!(live.len(), 1);
    assert_eq!(live[0].data_file.file_path.as_str(), "/test/orders/data/r1.parquet");
}

#[test]
fn rewrite_twice_observes_the_same_live_set() {
    let mut catalog = CatalogState::new();
    let mut storage = TableStorage::new();
    let id = orders_identifier();
    catalog
        .create_table(orders_identifier(), orders_metadata(), "v0".to_string())
        .expect("create table");
    let handle = loaded_table_metadata(&catalog, &id);

    let files = || {
        vec![
            data_file("/test/orders/data/f1.parquet", DAY_A, 4, 1, 2),
            data_file("/test/orders/data/f2.parquet", DAY_B, 5, 1, 3),
        ]
    };
    let mut tx = Transaction::new(None);
    tx.rewrite(files(), None);
    let md1 = tx
        .commit(&handle, &mut storage, &mut catalog, &id, "v1".to_string(), 1000)
        .expect("first rewrite");
    let mut tx = Transaction::new(None);
    tx.rewrite(files(), None);
    let md2 = tx
        .commit(&md1, &mut storage, &mut catalog, &id, "v2".to_string(), 2000)
        .expect("second rewrite");

    let live_paths = |md: TableMetadata| {
        let table = Table::new(orders_identifier(), md, "x");
        let manifests = table.manifests(&storage, None, None).expect("manifests");
        let entries = table.datafiles(&storage, &manifests).expect("datafiles");
        let mut paths: Vec<String> = entries
            .iter()
            .filter(|e| e.status != Status::Deleted)
            .map(|e| e.data_file.file_path.clone())
            .collect();
        paths.sort();
        paths
    };
    assert_eq!(live_paths(md1), live_paths(md2));
}

#[test]
fn filter_marks_wholly_matching_files_deleted() {
    let mut catalog = CatalogState::new();
    let mut storage = TableStorage::new();
    let id = orders_identifier();
    catalog
        .create_table(orders_identifier(), orders_metadata(), "v0".to_string())
        .expect("create table");
    let handle = loaded_table_metadata(&catalog, &id);

    // Customer bounds: outside the predicate, straddling it, fully inside.
    let outside = data_file("/test/orders/data/out.parquet", DAY_A, 2, 2, 5);
    let straddle = data_file("/test/orders/data/mid.parquet", DAY_A, 2, 0, 3);
    let inside = data_file("/test/orders/data/in.parquet", DAY_B, 2, 1, 1);
    let mut tx = Transaction::new(None);
    tx.append(vec![outside, straddle, inside], None);
    let md1 = tx
        .commit(&handle, &mut storage, &mut catalog, &id, "v1".to_string(), 1000)
        .expect("append");

    // Delete the rows of customer one: only a file whose statistics prove
    // every row matches is dropped whole.
    let predicate = PrunePredicate { field_id: 2, op: CompareOp::Eq, value: 1 };
    let mut tx = Transaction::new(None);
    tx.filter(Some(predicate), Vec::new(), None);
    let md2 = tx
        .commit(&md1, &mut storage, &mut catalog, &id, "v2".to_string(), 2000)
        .expect("filter");

    let table = Table::new(id, md2, "v2");
    let manifests = table.manifests(&storage, None, None).expect("manifests");
    let entries = table.datafiles(&storage, &manifests).expect("datafiles");
    assert_eq!(entries.len(), 3);
    for e in entries.iter() {
        let expected = if e.data_file.file_path.as_str() == "/test/orders/data/in.parquet" {
            Status::Deleted
        } else {
            Status::Existing
        };
        assert_eq!(e.status, expected);
    }
}

#[test]
fn filter_without_predicate_or_files_is_a_noop() {
    let mut catalog = CatalogState::new();
    let mut storage = TableStorage::new();
    let id = orders_identifier();
    catalog
        .create_table(orders_identifier(), orders_metadata(), "v0".to_string())
        .expect("create table");
    let handle = loaded_table_metadata(&catalog, &id);
    let mut tx = Transaction::new(None);
    tx.filter(None, Vec::new(), None);
    let md = tx
        .commit(&handle, &mut storage, &mut catalog, &id, "v1".to_string(), 1000)
        .expect("noop filter commits no snapshot");
    assert_eq!(md.snapshots.len(), 0);
}

#[test]
fn update_properties_folds_and_applies() {
    let mut catalog = CatalogState::new();
    let mut storage = TableStorage::new();
    let id = orders_identifier();
    catalog
        .create_table(orders_identifier(), orders_metadata(), "v0".to_string())
        .expect("create table");
    let handle = loaded_table_metadata(&catalog, &id);
    let mut tx = Transaction::new(None);
    tx.update_properties(vec![("owner".to_string(), "orders-team".to_string())]);
    tx.update_properties(vec![("owner".to_string(), "analytics".to_string())]);
    let md = tx
        .commit(&handle, &mut storage, &mut catalog, &id, "v1".to_string(), 1000)
        .expect("properties");
    // The later pair wins.
    let mut value = None;
    for (k, v) in md.properties.iter() {
        if k.as_str() == "owner" {
            value = Some(v.clone());
        }
    }
    assert_eq!(value.expect("owner set").as_str(), "analytics");
}

#[test]
fn pruning_decides_from_bounds() {
    let predicate = PrunePredicate { field_id: 2, op: CompareOp::Eq, value: 1 };
    let outside = data_file("/f/out.parquet", DAY_A, 1, 2, 5);
    let straddle = data_file("/f/mid.parquet", DAY_A, 1, 0, 3);
    let inside = data_file("/f/in.parquet", DAY_A, 1, 1, 1);
    assert!(!iceberg_core::pruning::prune_file(&predicate, &outside));
    assert!(!iceberg_core::pruning::prune_file(&predicate, &straddle));
    assert!(iceberg_core::pruning::prune_file(&predicate, &inside));
    // A file with nulls in the column can never be wholly deleted.
    let mut with_nulls = data_file("/f/null.parquet", DAY_A, 1, 1, 1);
    with_nulls.null_value_counts = vec![(2, 1)];
    assert!(!iceberg_core::pruning::prune_file(&predicate, &with_nulls));
}

#[test]
fn refresh_state_machine_classifies_sources() {
    assert_eq!(classify_source_state(7, 7), StorageTableState::Fresh);
    assert_eq!(classify_source_state(-1, 7), StorageTableState::Invalid);
    assert_eq!(classify_source_state(5, 7), StorageTableState::Outdated(5));
}

#[test]
fn refresh_is_idempotent_without_source_changes() {
    let mut catalog = CatalogState::new();
    let mut storage = TableStorage::new();
    let source_id = orders_identifier();
    catalog
        .create_table(orders_identifier(), orders_metadata(), "v0".to_string())
        .expect("create source");
    let handle = loaded_table_metadata(&catalog, &source_id);
    let mut tx = Transaction::new(None);
    tx.append(six_row_files(), None);
    let source_md = tx
        .commit(&handle, &mut storage, &mut catalog, &source_id, "v1".to_string(), 1000)
        .expect("insert into source");
    let source_snapshot = source_md.current_snapshot_id.unwrap();

    // The storage table of the view starts empty, with nothing recorded.
    let storage_id = Identifier {
        namespace: vec!["test".to_string()],
        name: "orders_view_storage".to_string(),
    };
    let mut view_storage_metadata = orders_metadata();
    view_storage_metadata.location = "/test/orders_view/storage".to_string();
    catalog
        .create_table(
            Identifier {
                namespace: vec!["test".to_string()],
                name: "orders_view_storage".to_string(),
            },
            view_storage_metadata,
            "sv0".to_string(),
        )
        .expect("create storage table");
    let mut view_storage = TableStorage::new();

    let storage_md = loaded_table_metadata(&catalog, &storage_id);
    let recorded = recorded_source_tables(&storage_md, None).expect("read bookkeeping");
    assert!(recorded.is_none());
    let initial = initial_source_tables(vec!["iceberg.test.orders".to_string()]);

    // First refresh: the source is invalid, so the storage table rewrites.
    let plan = plan_refresh(&initial, &vec![source_snapshot]).expect("plan");
    let observed = match plan {
        RefreshPlan::FullRefresh { observed } => observed,
        RefreshPlan::NoChange => panic!("first refresh must rewrite"),
    };
    let mut tx = storage_md_transaction();
    tx.full_refresh(
        vec![data_file(
            "/test/orders_view/storage/data/m1.parquet",
            DAY_A,
            2,
            1,
            3,
        )],
        observed,
    );
    let storage_md1 = tx
        .commit(
            &storage_md,
            &mut view_storage,
            &mut catalog,
            &storage_id,
            "sv1".to_string(),
            2000,
        )
        .expect("refresh commit");
    assert_eq!(storage_md1.snapshots.len(), 1);

    // Second refresh with unchanged sources: everything is fresh.
    let recorded = recorded_source_tables(&storage_md1, None)
        .expect("read bookkeeping")
        .expect("bookkeeping recorded");
    assert_eq!(recorded.len(), 1);
    assert_eq!(recorded[0].identifier.as_str(), "iceberg.test.orders");
    assert_eq!(recorded[0].snapshot_id, source_snapshot);
    let plan = plan_refresh(&recorded, &vec![source_snapshot]).expect("plan");
    assert!(matches!(plan, RefreshPlan::NoChange));

    // After the source advances, the refresh rewrites exactly once more.
    let mut tx = Transaction::new(None);
    tx.append(
        vec![data_file("/test/orders/data/c1.parquet", DAY_A, 3, 1, 2)],
        None,
    );
    let source_md2 = tx
        .commit(&source_md, &mut storage, &mut catalog, &source_id, "v2".to_string(), 3000)
        .expect("more rows");
    let new_source_snapshot = source_md2.current_snapshot_id.unwrap();
    let plan = plan_refresh(&recorded, &vec![new_source_snapshot]).expect("plan");
    let observed = match plan {
        RefreshPlan::FullRefresh { observed } => observed,
        RefreshPlan::NoChange => panic!("outdated source must refresh"),
    };
    assert_eq!(observed[0].snapshot_id, new_source_snapshot);
    let mut tx = storage_md_transaction();
    tx.full_refresh(
        vec![data_file(
            "/test/orders_view/storage/data/m2.parquet",
            DAY_A,
            3,
            1,
            3,
        )],
        observed,
    );
    let storage_md2 = tx
        .commit(
            &storage_md1,
            &mut view_storage,
            &mut catalog,
            &storage_id,
            "sv2".to_string(),
            4000,
        )
        .expect("second refresh");
    // Exactly one storage-table snapshot is recorded after each refresh.
    assert_eq!(storage_md2.snapshots.len(), 1);
    let recorded = recorded_source_tables(&storage_md2, None)
        .expect("read bookkeeping")
        .expect("bookkeeping recorded");
    assert_eq!(recorded[0].snapshot_id, new_source_snapshot);
}

fn storage_md_transaction() -> Transaction {
    Transaction::new(None)
}

#[test]
fn statistics_sum_live_rows_exactly() {
    let schema = orders_schema();
    let entry = |rows: u64, status: Status| ManifestEntry {
        status,
        snapshot_id: Some(1),
        sequence_number: Some(1),
        data_file: data_file("/f/x.parquet", DAY_A, rows, 1, 3),
    };
    let entries = vec![
        entry(3, Status::Added),
        entry(4, Status::Existing),
        entry(100, Status::Deleted),
    ];
    let stats = table_statistics(&schema, &entries);
    assert_eq!(stats.num_rows, Precision::Exact(7));
    assert_eq!(stats.total_byte_size, Precision::Exact(2048));
    assert_eq!(stats.column_statistics.len(), 5);
}

#[test]
fn manifest_statistics_read_column_bounds() {
    let schema = orders_schema();
    let entry = ManifestEntry {
        status: Status::Added,
        snapshot_id: Some(1),
        sequence_number: Some(1),
        data_file: data_file("/f/x.parquet", DAY_A, 5, 2, 9),
    };
    let stats = manifest_statistics(&schema, &entry);
    assert_eq!(stats.num_rows, Precision::Exact(5));
    // customer_id is the second field: bounds come from its maps.
    let c = &stats.column_statistics[1];
    assert_eq!(c.min_value, iceberg_core::statistics::BoundPrecision::Exact(2));
    assert_eq!(c.max_value, iceberg_core::statistics::BoundPrecision::Exact(9));
    assert_eq!(c.null_count, Precision::Exact(0));
}

#[test]
fn view_statistics_are_not_supported() {
    let builder = iceberg_core::view::ViewBuilder::new(
        "select product_id, amount from iceberg.test.orders where product_id < 3",
        Identifier {
            namespace: vec!["test".to_string()],
            name: "orders_view".to_string(),
        },
        orders_schema(),
    );
    let mut catalog = CatalogState::new();
    let view = builder
        .build(&mut catalog, "view-v0".to_string())
        .expect("create view");
    let tabular = catalog
        .load_tabular(view.identifier())
        .expect("view registered");
    let r = iceberg_core::statistics::tabular_statistics(&tabular, &orders_schema(), &Vec::new());
    match r {
        Err(Error::NotSupported(_)) => {}
        _ => panic!("statistics on a view must be refused"),
    }
}

#[test]
fn object_store_model_refuses_overwrites() {
    let mut storage = TableStorage::new();
    storage
        .put_manifest("/t/metadata/m0.avro".to_string(), Vec::new())
        .expect("first write");
    let r = storage.put_manifest("/t/metadata/m0.avro".to_string(), Vec::new());
    assert!(matches!(r, Err(Error::IO(_))));
}

#[test]
fn catalog_refuses_duplicate_tables_and_missing_lookups() {
    let mut catalog = CatalogState::new();
    catalog
        .create_table(orders_identifier(), orders_metadata(), "v0".to_string())
        .expect("create table");
    let r = catalog.create_table(orders_identifier(), orders_metadata(), "v0".to_string());
    assert!(matches!(r, Err(Error::Conflict(_))));
    let missing = Identifier {
        namespace: vec!["test".to_string()],
        name: "absent".to_string(),
    };
    assert!(matches!(catalog.load_tabular(&missing), Err(Error::NotFound(_, _))));
    assert!(catalog.tabular_exists(&orders_identifier()));
}

#[test]
fn token_types_render_their_urns() {
    assert_eq!(
        TokenType::AccessToken.to_string().as_str(),
        "urn:ietf:params:oauth:token-type:access_token"
    );
    assert_eq!(
        TokenType::Jwt.to_string().as_str(),
        "urn:ietf:params:oauth:token-type:jwt"
    );
    assert_eq!(TokenType::default(), TokenType::AccessToken);
}

#[test]
fn rest_catalog_handle_keeps_its_configuration() {
    let configuration = Configuration {
        base_path: "http://localhost:8181".to_string(),
        user_agent: None,
        basic_auth_user: None,
        basic_auth_password: None,
        oauth_access_token: None,
        bearer_access_token: None,
        api_key: None,
    };
    let catalog = RestCatalog::new(Some("warehouse"), configuration);
    assert_eq!(catalog.name.as_deref(), Some("warehouse"));
    assert_eq!(catalog.configuration.base_path.as_str(), "http://localhost:8181");
}

#[test]
fn error_messages_carry_their_kind() {
    let e = Error::Conversion("long value".to_string(), "int value".to_string());
    assert_eq!(e.message().as_str(), "cannot convert long value into int value");
    let e = Error::NotFound("Bounding".to_string(), "rectangle".to_string());
    assert_eq!(e.message().as_str(), "not found: Bounding rectangle");
}

#[test]
fn source_table_bookkeeping_starts_invalid() {
    let initial = initial_source_tables(vec!["iceberg.test.orders".to_string()]);
    assert_eq!(initial.len(), 1);
    assert_eq!(initial[0].snapshot_id, -1);
    let states: Vec<StorageTableState> = initial
        .iter()
        .map(|s: &SourceTable| classify_source_state(s.snapshot_id, 42))
        .collect();
    assert_eq!(states, vec![StorageTableState::Invalid]);
}

#[test]
fn requirement_checks_guard_the_swap() {
    let mut md = orders_metadata();
    md.snapshots = Vec::new();
    let commit_requirement = TableRequirement::AssertRefSnapshotId {
        ref_name: "main".to_string(),
        snapshot_id: 1,
    };
    assert!(!iceberg_core::catalog::check_requirement(Some(&md), &commit_requirement));
    assert!(iceberg_core::catalog::check_requirement(None, &TableRequirement::AssertCreate));
    let update = TableUpdate::SetDefaultSpec { spec_id: 99 };
    assert!(matches!(
        iceberg_core::catalog::apply_update(md, &update),
        Err(Error::NotFound(_, _))
    ));
}

fn live_path_set(id: Identifier, md: TableMetadata, storage: &TableStorage) -> Vec<String> {
    let table = Table::new(id, md, "x");
    let manifests = table.manifests(storage, None, None).expect("manifests");
    let entries = table.datafiles(storage, &manifests).expect("datafiles");
    let mut paths: Vec<String> = entries
        .iter()
        .filter(|e| e.status != Status::Deleted)
        .map(|e| e.data_file.file_path.clone())
        .collect();
    paths.sort();
    paths
}

#[test]
fn appending_batches_separately_or_together_observes_one_live_set() {
    let batch_a = || {
        vec![
            data_file("/test/orders/data/a1.parquet", DAY_A, 1, 1, 1),
            data_file("/test/orders/data/a2.parquet", DAY_A, 1, 2, 2),
        ]
    };
    let batch_b = || {
        vec![
            data_file("/test/orders/data/b1.parquet", DAY_B, 1, 1, 1),
            data_file("/test/orders/data/b2.parquet", DAY_B, 1, 3, 3),
            data_file("/test/orders/data/b3.parquet", DAY_A, 1, 2, 3),
        ]
    };

    // One table appends the batches one commit after the other.
    let mut catalog = CatalogState::new();
    let mut storage = TableStorage::new();
    let id = orders_identifier();
    catalog
        .create_table(orders_identifier(), orders_metadata(), "v0".to_string())
        .expect("create table");
    let handle = loaded_table_metadata(&catalog, &id);
    let mut tx = Transaction::new(None);
    tx.append(batch_a(), None);
    let md1 = tx
        .commit(&handle, &mut storage, &mut catalog, &id, "v1".to_string(), 1000)
        .expect("first batch");
    let mut tx = Transaction::new(None);
    tx.append(batch_b(), None);
    let md2 = tx
        .commit(&md1, &mut storage, &mut catalog, &id, "v2".to_string(), 2000)
        .expect("second batch");

    // Another appends their union in a single commit; consecutive staged
    // appends fold into one operation.
    let mut catalog2 = CatalogState::new();
    let mut storage2 = TableStorage::new();
    catalog2
        .create_table(orders_identifier(), orders_metadata(), "v0".to_string())
        .expect("create table");
    let handle2 = loaded_table_metadata(&catalog2, &id);
    let mut tx = Transaction::new(None);
    tx.append(batch_a(), None);
    tx.append(batch_b(), None);
    let md_union = tx
        .commit(&handle2, &mut storage2, &mut catalog2, &id, "v1".to_string(), 1000)
        .expect("folded batches");

    assert_eq!(
        live_path_set(orders_identifier(), md2, &storage),
        live_path_set(orders_identifier(), md_union, &storage2)
    );
}

#[test]
fn filtering_and_appending_disjoint_files_commutes() {
    // The predicate deletes customer three; the appended files hold only
    // customers one and two, so the filter cannot touch them.
    let predicate = PrunePredicate { field_id: 2, op: CompareOp::Eq, value: 3 };
    let base_files = || {
        vec![
            data_file("/test/orders/data/keep.parquet", DAY_A, 1, 1, 2),
            data_file("/test/orders/data/drop.parquet", DAY_A, 1, 3, 3),
        ]
    };
    let appended = || vec![data_file("/test/orders/data/new.parquet", DAY_B, 1, 1, 2)];

    // Filter, then append.
    let mut catalog = CatalogState::new();
    let mut storage = TableStorage::new();
    let id = orders_identifier();
    catalog
        .create_table(orders_identifier(), orders_metadata(), "v0".to_string())
        .expect("create table");
    let handle = loaded_table_metadata(&catalog, &id);
    let mut tx = Transaction::new(None);
    tx.append(base_files(), None);
    let md1 = tx
        .commit(&handle, &mut storage, &mut catalog, &id, "v1".to_string(), 1000)
        .expect("base");
    let mut tx = Transaction::new(None);
    tx.filter(Some(predicate), Vec::new(), None);
    let md2 = tx
        .commit(&md1, &mut storage, &mut catalog, &id, "v2".to_string(), 2000)
        .expect("filter");
    let mut tx = Transaction::new(None);
    tx.append(appended(), None);
    let md3 = tx
        .commit(&md2, &mut storage, &mut catalog, &id, "v3".to_string(), 3000)
        .expect("append");

    // Append, then filter.
    let mut catalog2 = CatalogState::new();
    let mut storage2 = TableStorage::new();
    catalog2
        .create_table(orders_identifier(), orders_metadata(), "v0".to_string())
        .expect("create table");
    let handle2 = loaded_table_metadata(&catalog2, &id);
    let mut tx = Transaction::new(None);
    tx.append(base_files(), None);
    let md1b = tx
        .commit(&handle2, &mut storage2, &mut catalog2, &id, "v1".to_string(), 1000)
        .expect("base");
    let mut tx = Transaction::new(None);
    tx.append(appended(), None);
    let md2b = tx
        .commit(&md1b, &mut storage2, &mut catalog2, &id, "v2".to_string(), 2000)
        .expect("append");
    let mut tx = Transaction::new(None);
    tx.filter(Some(predicate), Vec::new(), None);
    let md3b = tx
        .commit(&md2b, &mut storage2, &mut catalog2, &id, "v3".to_string(), 3000)
        .expect("filter");

    assert_eq!(
        live_path_set(orders_identifier(), md3, &storage),
        live_path_set(orders_identifier(), md3b, &storage2)
    );
}

#[test]
fn deletion_paths_list_every_reachable_object() {
    let mut catalog = CatalogState::new();
    let mut storage = TableStorage::new();
    let id = orders_identifier();
    catalog.create_namespace(vec!["test".to_string()]).expect("namespace");
    catalog
        .create_table(orders_identifier(), orders_metadata(), "/test/orders/metadata/v0.metadata.json".to_string())
        .expect("create table");
    let handle = loaded_table_metadata(&catalog, &id);
    let mut tx = Transaction::new(None);
    tx.append(six_row_files(), None);
    let new_md = tx
        .commit(&handle, &mut storage, &mut catalog, &id, "/test/orders/metadata/v1.metadata.json".to_string(), 1000)
        .expect("append commit");

    let snapshot = iceberg_core::snapshot::clone_snapshot(&new_md.snapshots[0]);
    let list = storage.get_manifest_list(snapshot.manifest_list.as_str()).expect("list");
    let table = Table::new(id, new_md, "/test/orders/metadata/v1.metadata.json");
    let paths = table.deletion_paths(&storage).expect("deletion paths");

    // six data files + two manifests + one manifest list + the metadata document
    assert_eq!(paths.len(), 10);
    for suffix in ["a1", "a2", "a3", "b1", "b2", "b3"] {
        let p = format!("/test/orders/data/{}.parquet", suffix);
        assert!(paths.iter().any(|x| x == &p), "missing {}", p);
    }
    for mle in list.iter() {
        assert!(paths.iter().any(|x| x == &mle.manifest_path));
    }
    assert!(paths.iter().any(|x| x == &snapshot.manifest_list));
    assert_eq!(paths.last().unwrap(), "/test/orders/metadata/v1.metadata.json");
}

#[test]
fn contains_delete_reports_delete_files_only() {
    let mut catalog = CatalogState::new();
    let mut storage = TableStorage::new();
    let id = orders_identifier();
    catalog.create_namespace(vec!["test".to_string()]).expect("namespace");
    catalog
        .create_table(orders_identifier(), orders_metadata(), "/test/orders/metadata/v0.metadata.json".to_string())
        .expect("create table");

    // An empty table has no current snapshot: no deletes.
    let handle = loaded_table_metadata(&catalog, &id);
    let empty = Table::new(
        orders_identifier(),
        loaded_table_metadata(&catalog, &id),
        "/test/orders/metadata/v0.metadata.json",
    );
    assert_eq!(empty.datafiles_contains_delete(&storage, None, None).expect("empty"), false);

    // Data files only: still no deletes.
    let mut tx = Transaction::new(None);
    tx.append(six_row_files(), None);
    let md1 = tx
        .commit(&handle, &mut storage, &mut catalog, &id, "/test/orders/metadata/v1.metadata.json".to_string(), 1000)
        .expect("append commit");
    let t1 = Table::new(
        orders_identifier(),
        loaded_table_metadata(&catalog, &id),
        "/test/orders/metadata/v1.metadata.json",
    );
    assert_eq!(t1.datafiles_contains_delete(&storage, None, None).expect("data only"), false);

    // One equality-delete file makes it true.
    let mut del = data_file("/test/orders/data/d1.parquet", DAY_A, 1, 1, 1);
    del.content = Content::EqualityDeletes;
    let mut tx2 = Transaction::new(None);
    tx2.append(vec![del], None);
    let md2 = tx2
        .commit(&md1, &mut storage, &mut catalog, &id, "/test/orders/metadata/v2.metadata.json".to_string(), 2000)
        .expect("delete commit");
    let t2 = Table::new(orders_identifier(), md2, "/test/orders/metadata/v2.metadata.json");
    assert_eq!(t2.datafiles_contains_delete(&storage, None, None).expect("with delete"), true);
}

#[test]
fn catalog_lists_and_drops_tabulars() {
    let mut catalog = CatalogState::new();
    catalog.create_namespace(vec!["test".to_string()]).expect("namespace");
    assert_eq!(catalog.list_namespaces(), vec![vec!["test".to_string()]]);

    catalog
        .create_table(orders_identifier(), orders_metadata(), "/test/orders/metadata/v0.metadata.json".to_string())
        .expect("orders");
    let other = Identifier { namespace: vec!["test".to_string()], name: "returns".to_string() };
    let other2 = Identifier { namespace: vec!["test".to_string()], name: "returns".to_string() };
    catalog
        .create_table(other2, orders_metadata(), "/test/returns/metadata/v0.metadata.json".to_string())
        .expect("returns");

    let listed = catalog.list_tabulars(&vec!["test".to_string()]);
    assert_eq!(listed.len(), 2);
    assert_eq!(listed[0].name, "orders");
    assert_eq!(listed[1].name, "returns");
    assert!(catalog.list_tabulars(&vec!["prod".to_string()]).is_empty());

    catalog.drop_tabular(&orders_identifier());
    assert!(!catalog.tabular_exists(&orders_identifier()));
    assert!(matches!(catalog.load_tabular(&orders_identifier()), Err(Error::NotFound(_, _))));
    let after = catalog.list_tabulars(&vec!["test".to_string()]);
    assert_eq!(after.len(), 1);
    assert_eq!(after[0].name, "returns");
    assert!(catalog.tabular_exists(&other));
}

#[test]
fn view_builder_points_main_at_version_one() {
    let builder = iceberg_core::view::ViewBuilder::new(
        "select id from orders",
        Identifier { namespace: vec!["test".to_string()], name: "ids".to_string() },
        orders_schema(),
    );
    let md = &builder.metadata;
    assert_eq!(md.current_version_id, 1);
    assert_eq!(md.versions.len(), 1);
    let version = &md.versions[0];
    assert_eq!(version.version_id, 1);
    assert_eq!(version.schema_id, 1);
    match &version.representations[0] {
        iceberg_core::view::ViewRepresentation::Sql { sql, dialect } => {
            assert_eq!(sql, "select id from orders");
            assert_eq!(dialect, "ANSI");
        }
    }
    assert_eq!(
        md.properties.other,
        vec![("version-ref-main".to_string(), "1".to_string())]
    );
}
