use ragd::batches::{
    chunk_fingerprints_from_batch, chunk_records_from_batch, chunks_fit, chunks_schema,
    chunks_to_record_batch, collect_resources, fingerprint_columns, is_chunk_batch,
    is_fingerprint_batch, is_resource_batch, resource_records_from_batch,
    resource_records_to_batch, resources_fit, resources_schema,
};
use ragd::columns::ArrowBatch;
use ragd::db::{
    chunk_key, file_scope_filter, filter_equals, sql_quote, ChunkRecord, IndexingStatus,
    ReplaceChunksOutcome, ResourceRecord, ResourceStatus,
};
use ragd::error::RagdError;
use ragd::store::{
    chunk_fault, chunks_table, collect_chunks, collect_fingerprints, copy_resource,
    replace_file_chunks, resource_chunks_filter, resources_table, table_exists, upsert_resource,
    ChunkFault, Merge, ResourceQuery,
};
use std::collections::BTreeMap;

const EMBED_DIM: usize = 4;

fn sample_resource(uri: &str, name: &str) -> ResourceRecord {
    ResourceRecord {
        uri: uri.to_string(),
        name: name.to_string(),
        status: ResourceStatus::Active,
        indexing_status: IndexingStatus::Pending,
        indexing_status_message: None,
        created_at: "2026-09-24T00:00:00Z".to_string(),
        indexing_started_at: None,
        last_indexed_at: None,
        last_error: None,
    }
}

fn sample_chunk(
    resource_name: &str,
    file_path: &str,
    chunk_index: i32,
    content: &str,
) -> ChunkRecord {
    ChunkRecord {
        resource_name: resource_name.to_string(),
        file_path: file_path.to_string(),
        chunk_index,
        content: content.to_string(),
        content_hash: format!("hash-{content}"),
        start_line: chunk_index * 10,
        end_line: chunk_index * 10 + 9,
        embedding: vec![((chunk_index + 1) as f32).to_bits(); EMBED_DIM],
        updated_at: "2026-09-24T00:00:00Z".to_string(),
    }
}

/// A chunk table that does what a merge says.
struct MemoryTable {
    rows: BTreeMap<String, ChunkRecord>,
}

impl MemoryTable {
    fn new() -> Self {
        MemoryTable { rows: BTreeMap::new() }
    }

    fn merge(&mut self, merge: &Merge) -> ReplaceChunksOutcome {
        assert_eq!(merge.key_column, "chunk_key");
        assert!(is_chunk_batch(&merge.batch));
        let new = chunk_records_from_batch(&merge.batch);
        let scope = merge.delete_scope.as_deref().expect("scope");
        let keys: Vec<String> = new.iter().map(|c| c.chunk_key()).collect();
        let before = self.rows.len();
        self.rows.retain(|key, row| {
            keys.contains(key) || file_scope_filter(&row.resource_name, &row.file_path) != scope
        });
        let deleted = before - self.rows.len();
        let mut inserted = 0;
        let mut updated = 0;
        for chunk in new {
            if self.rows.insert(chunk.chunk_key(), chunk).is_some() {
                updated += 1;
            } else {
                inserted += 1;
            }
        }
        ReplaceChunksOutcome::from_counts(inserted, updated, deleted as u64)
    }

    fn replace(
        &mut self,
        resource_name: &str,
        file_path: &str,
        chunks: &Vec<ChunkRecord>,
    ) -> ReplaceChunksOutcome {
        assert_eq!(chunk_fault(chunks, resource_name, file_path, EMBED_DIM), None);
        assert!(chunks_fit(chunks));
        let merge = replace_file_chunks(resource_name, file_path, chunks, EMBED_DIM).expect("batch");
        self.merge(&merge)
    }
}

#[test]
fn upsert_and_get_resource_round_trips() {
    let resource = sample_resource("file:///tmp/proj/", "proj");
    let merge = upsert_resource(&resource).expect("batch");
    assert_eq!(merge.key_column, "uri");
    assert!(merge.delete_scope.is_none());
    let fetched = collect_resources(&vec![merge.batch]).expect("resources").pop().expect("present");
    assert_eq!(fetched, resource);
}

#[test]
fn resources_round_trip_with_nulls_and_empty_texts() {
    let mut resource = sample_resource("file:///tmp/proj/", "proj");
    resource.status = ResourceStatus::Inactive;
    resource.indexing_status = IndexingStatus::Failed;
    resource.indexing_status_message = Some(String::new());
    resource.last_error = Some("it's broken".to_string());
    let resources = vec![sample_resource("file:///tmp/other/", "\u{e9}"), resource];
    assert!(resources_fit(&resources));
    let batch = resource_records_to_batch(&resources).expect("batch");
    assert!(is_resource_batch(&batch));
    let read: Vec<ResourceRecord> = resource_records_from_batch(&batch)
        .into_iter()
        .map(|r| r.expect("known statuses"))
        .collect();
    assert_eq!(read, resources);
}

#[test]
fn a_batch_without_rows_needs_no_columns() {
    let empty = chunks_to_record_batch(&Vec::new(), EMBED_DIM).expect("batch");
    assert!(!is_resource_batch(&empty));
    let one = resource_records_to_batch(&vec![sample_resource("u", "n")]).expect("batch");
    let found = collect_resources(&vec![empty, one]).expect("resources");
    assert_eq!(found, vec![sample_resource("u", "n")]);
}

#[test]
fn unknown_statuses_are_errors() {
    let cases = [
        ("paused", "indexed", "unknown resource status: paused"),
        ("active", "lost", "unknown indexing status: lost"),
        ("paused", "lost", "unknown resource status: paused"),
    ];
    for (status, indexing_status, message) in cases {
        let texts: Vec<Vec<Option<&str>>> = vec![
            vec![Some("uri")],
            vec![Some("name")],
            vec![Some(status)],
            vec![Some(indexing_status)],
            vec![None],
            vec![Some("now")],
            vec![None],
            vec![None],
            vec![Some("oops")],
        ];
        let columns: Vec<arrow_array::ArrayRef> = texts
            .into_iter()
            .map(|t| {
                let array: arrow_array::ArrayRef =
                    std::sync::Arc::new(arrow_array::StringArray::from(t));
                array
            })
            .collect();
        let batch = ArrowBatch {
            batch: arrow_array::RecordBatch::try_new(resources_schema(), columns).expect("batch"),
        };
        let read = resource_records_from_batch(&batch);
        assert_eq!(read.len(), 1);
        assert!(matches!(&read[0], Err(RagdError::Storage(m)) if m == message));
        let good = resource_records_to_batch(&vec![sample_resource("u", "n")]).expect("batch");
        let all = collect_resources(&vec![good, batch]);
        assert!(matches!(all, Err(RagdError::Storage(m)) if m == message));
    }
}

#[test]
fn statuses_parse_what_they_print() {
    for status in [ResourceStatus::Active, ResourceStatus::Inactive] {
        assert_eq!(status.as_str().parse::<ResourceStatus>().expect("known"), status);
    }
    for status in [
        IndexingStatus::Pending,
        IndexingStatus::Indexing,
        IndexingStatus::Indexed,
        IndexingStatus::Failed,
    ] {
        assert_eq!(status.as_str().parse::<IndexingStatus>().expect("known"), status);
    }
    assert_eq!(ResourceStatus::Inactive.as_str(), "inactive");
    assert_eq!(IndexingStatus::Indexing.as_str(), "indexing");
    assert!(matches!(
        "Active".parse::<ResourceStatus>(),
        Err(RagdError::Storage(m)) if m == "unknown resource status: Active"
    ));
    assert!(matches!(
        "".parse::<IndexingStatus>(),
        Err(RagdError::Storage(m)) if m == "unknown indexing status: "
    ));
}

#[test]
fn chunks_round_trip_with_their_bit_patterns() {
    let mut odd = sample_chunk("proj", "/tmp/a.rs", 7, "fn a() {}\n");
    odd.embedding = vec![0x7fc0_1234, 0x8000_0000, 1, f32::MAX.to_bits()];
    odd.start_line = -3;
    let chunks = vec![sample_chunk("p", "/f", 0, ""), odd];
    let batch = chunks_to_record_batch(&chunks, EMBED_DIM).expect("batch");
    assert!(is_chunk_batch(&batch));
    assert!(is_fingerprint_batch(&batch));
    assert_eq!(chunk_records_from_batch(&batch), chunks);
    let fingerprints = chunk_fingerprints_from_batch(&batch);
    assert_eq!(fingerprints.len(), 2);
    assert_eq!(fingerprints[1].0, 7);
    assert_eq!(fingerprints[1].1.content_hash, chunks[1].content_hash);
    assert_eq!(fingerprints[1].1.embedding, chunks[1].embedding);
    assert_eq!(fingerprint_columns(), vec!["chunk_index", "content_hash", "embedding"]);
    assert_eq!(collect_chunks(&vec![batch]), chunks);
}

#[test]
fn dimension_zero_makes_no_batch() {
    let mut chunk = sample_chunk("p", "/f", 0, "a");
    chunk.embedding = Vec::new();
    assert!(chunks_to_record_batch(&vec![chunk], 0).is_err());
    assert!(chunks_to_record_batch(&Vec::new(), 0).is_ok());
}

#[test]
fn batches_of_another_shape_are_recognized() {
    let resources = resource_records_to_batch(&vec![sample_resource("u", "n")]).expect("batch");
    assert!(!is_chunk_batch(&resources));
    assert!(!is_fingerprint_batch(&resources));
    // A list of whole numbers is no embedding, unless there is none to read.
    let list = arrow_array::FixedSizeListArray::from_iter_primitive::<
        arrow_array::types::Int32Type,
        _,
        _,
    >(vec![Some(vec![Some(1), Some(2)])], 2);
    for rows in 0..2 {
        let index: arrow_array::ArrayRef =
            std::sync::Arc::new(arrow_array::Int32Array::from(vec![0; rows]));
        let hash: arrow_array::ArrayRef =
            std::sync::Arc::new(arrow_array::StringArray::from(vec!["h"; rows]));
        let vectors: arrow_array::ArrayRef = std::sync::Arc::new(list.slice(0, rows));
        let batch = ArrowBatch {
            batch: arrow_array::RecordBatch::try_from_iter(vec![
                ("chunk_index", index),
                ("content_hash", hash),
                ("embedding", vectors),
            ])
            .expect("batch"),
        };
        assert_eq!(is_fingerprint_batch(&batch), rows == 0);
        if rows == 0 {
            assert!(chunk_fingerprints_from_batch(&batch).is_empty());
        }
    }
}

#[test]
fn schemas_have_the_tables_columns() {
    let resources = resources_schema();
    let names: Vec<&str> = resources.fields().iter().map(|f| f.name().as_str()).collect();
    assert_eq!(
        names,
        vec![
            "uri",
            "name",
            "status",
            "indexing_status",
            "indexing_status_message",
            "created_at",
            "indexing_started_at",
            "last_indexed_at",
            "last_error",
        ]
    );
    let nullable: Vec<bool> = resources.fields().iter().map(|f| f.is_nullable()).collect();
    assert_eq!(
        nullable,
        vec![false, false, false, false, true, false, true, true, true]
    );
    let chunks = chunks_schema(EMBED_DIM);
    assert_eq!(chunks.fields().len(), 10);
    assert_eq!(
        chunks.field(8).data_type(),
        &arrow_schema::DataType::FixedSizeList(
            std::sync::Arc::new(arrow_schema::Field::new(
                "item",
                arrow_schema::DataType::Float32,
                true
            )),
            4
        )
    );
    assert!(chunks.fields().iter().all(|f| !f.is_nullable()));
}

#[test]
fn replace_file_chunks_is_idempotent() {
    let mut table = MemoryTable::new();
    let chunks = vec![
        sample_chunk("proj", "/tmp/proj/a.rs", 0, "fn a() {}"),
        sample_chunk("proj", "/tmp/proj/a.rs", 1, "fn b() {}"),
    ];

    let first = table.replace("proj", "/tmp/proj/a.rs", &chunks);
    assert_eq!(first.written, 2);
    assert_eq!(first.deleted, 0);

    // Re-applying the exact same chunk set must not grow the table.
    let second = table.replace("proj", "/tmp/proj/a.rs", &chunks);
    assert_eq!(second.deleted, 0);
    assert_eq!(table.rows.len(), 2);
}

#[test]
fn replace_file_chunks_prunes_stale_chunks_when_boundaries_shift() {
    let mut table = MemoryTable::new();
    let original = vec![
        sample_chunk("proj", "/tmp/proj/a.rs", 0, "fn a() {}"),
        sample_chunk("proj", "/tmp/proj/a.rs", 1, "fn b() {}"),
        sample_chunk("proj", "/tmp/proj/a.rs", 2, "fn c() {}"),
    ];
    table.replace("proj", "/tmp/proj/a.rs", &original);

    // Simulate an edit that reflows the file into fewer, different chunks.
    let reflowed = vec![sample_chunk("proj", "/tmp/proj/a.rs", 0, "fn a() { /* edited */ }")];
    let outcome = table.replace("proj", "/tmp/proj/a.rs", &reflowed);
    assert_eq!(outcome.deleted, 2);

    let results: Vec<&ChunkRecord> = table.rows.values().collect();
    assert_eq!(results.len(), 1);
    assert_eq!(results[0].content, "fn a() { /* edited */ }");
}

#[test]
fn replace_file_chunks_does_not_touch_other_files() {
    let mut table = MemoryTable::new();
    table.replace(
        "proj",
        "/tmp/proj/a.rs",
        &vec![sample_chunk("proj", "/tmp/proj/a.rs", 0, "a")],
    );
    table.replace(
        "proj",
        "/tmp/proj/b.rs",
        &vec![sample_chunk("proj", "/tmp/proj/b.rs", 0, "b")],
    );

    // Re-index a.rs with zero chunks (e.g. the file became empty) and
    // confirm b.rs's chunk survives untouched.
    table.replace("proj", "/tmp/proj/a.rs", &Vec::new());

    let results: Vec<&ChunkRecord> = table.rows.values().collect();
    assert_eq!(results.len(), 1);
    assert_eq!(results[0].file_path, "/tmp/proj/b.rs");
}

#[test]
fn fingerprints_come_from_every_batch_in_turn() {
    let a = vec![sample_chunk("p", "/f", 0, "a")];
    let b = vec![sample_chunk("p", "/f", 1, "b"), sample_chunk("p", "/f", 2, "c")];
    let batches = vec![
        chunks_to_record_batch(&a, EMBED_DIM).expect("batch"),
        chunks_to_record_batch(&Vec::new(), EMBED_DIM).expect("batch"),
        chunks_to_record_batch(&b, EMBED_DIM).expect("batch"),
    ];
    let found = collect_fingerprints(&batches);
    let indices: Vec<i32> = found.iter().map(|f| f.0).collect();
    assert_eq!(indices, vec![0, 1, 2]);
    assert_eq!(found[2].1.content_hash, "hash-c");
    assert_eq!(found[0].1.embedding, vec![1.0f32.to_bits(); EMBED_DIM]);
}

#[test]
fn an_embedding_of_another_dimension_is_a_fault() {
    let mut bad_chunk = sample_chunk("proj", "/tmp/proj/a.rs", 0, "a");
    bad_chunk.embedding = vec![0; EMBED_DIM + 1];
    assert_eq!(
        chunk_fault(&vec![bad_chunk], "proj", "/tmp/proj/a.rs", EMBED_DIM),
        Some(ChunkFault::Dimension { expected: 4, got: 5 })
    );
}

#[test]
fn chunks_of_another_resource_or_file_are_faults() {
    let chunks = vec![
        sample_chunk("proj", "/a", 0, "a"),
        sample_chunk("other", "/b", 1, "b"),
        sample_chunk("proj", "/b", 2, "c"),
    ];
    assert_eq!(chunk_fault(&chunks, "proj", "/a", EMBED_DIM), Some(ChunkFault::Resource));
    let chunks = vec![sample_chunk("proj", "/b", 2, "c")];
    assert_eq!(chunk_fault(&chunks, "proj", "/a", EMBED_DIM), Some(ChunkFault::File));
    assert_eq!(chunk_fault(&chunks, "proj", "/b", EMBED_DIM), None);
    assert_eq!(chunk_fault(&Vec::new(), "proj", "/b", EMBED_DIM), None);
}

#[test]
fn keys_set_their_parts_apart() {
    assert_eq!(chunk_key("proj", "/tmp/a.rs", 12), "proj\u{0}/tmp/a.rs\u{0}12");
    assert_eq!(chunk_key("p", "/f", i32::MIN), "p\u{0}/f\u{0}-2147483648");
    assert_ne!(chunk_key("a:b", "c", 0), chunk_key("a", "b:c", 0));
    assert_eq!(
        sample_chunk("p", "/f", 3, "x").chunk_key(),
        chunk_key("p", "/f", 3)
    );
}

#[test]
fn filters_quote_their_values() {
    assert_eq!(sql_quote("it's"), "'it''s'");
    assert_eq!(sql_quote(""), "''");
    assert_eq!(sql_quote("' OR true --"), "''' OR true --'");
    assert_eq!(filter_equals("uri", "file:///o'b"), "uri = 'file:///o''b'");
    assert_eq!(
        file_scope_filter("p", "/a'b"),
        "resource_name = 'p' AND file_path = '/a''b'"
    );
    assert_eq!(resource_chunks_filter("p"), "resource_name = 'p'");
    assert_eq!(ResourceQuery::ByUri("u".to_string()).filter(), "uri = 'u'");
    assert_eq!(ResourceQuery::ByName("n".to_string()).filter(), "name = 'n'");
    assert_eq!(ResourceQuery::All.filter(), "true");
}

#[test]
fn tables_are_opened_by_their_exact_names() {
    assert_eq!(resources_table(), "resources");
    assert_eq!(chunks_table(), "chunks");
    let names = vec!["chunks2".to_string(), "resources".to_string()];
    assert!(table_exists(&names, resources_table()));
    assert!(!table_exists(&names, chunks_table()));
}

#[test]
fn copies_are_equal() {
    let resource = sample_resource("u", "n");
    assert_eq!(copy_resource(&resource), resource);
}
