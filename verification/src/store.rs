//! Storage requests: what is asked of the vector database for each operation,
//! and what its answers mean.

use arrow_schema::ArrowError;
use crate::batches::{
    chunk_at, chunk_columns, chunk_fields, chunk_fingerprints_from_batch, chunk_records_from_batch,
    chunk_texts_fit, chunks_to_record_batch, fingerprint_at, has_chunks, has_fingerprints,
    of_dimension, resource_columns, resource_fields, resource_records_to_batch, resource_texts_fit,
};
use crate::columns::{batch_columns, batch_rows, named_columns, ArrowBatch};
use crate::db::{
    chunk_rows, equals_filter, file_scope_filter, filter_equals, resource_views, scope_filter,
    ChunkFingerprint, ChunkRecord, ChunkRow, FingerprintView, ResourceRecord,
};
use crate::db_laws::in_scope;
use crate::text::{copy_opt, same_text};
use vstd::prelude::*;
use vstd::string::*;

verus! {

/// The name of the table that holds the resources.
pub fn resources_table() -> (r: &'static str)
    ensures
        r@ == "resources"@,
{
    "resources"
}

/// The name of the table that holds the chunks.
pub fn chunks_table() -> (r: &'static str)
    ensures
        r@ == "chunks"@,
{
    "chunks"
}

/// Whether a table of the given name exists, so that it is opened and not
/// created.
pub fn table_exists(names: &Vec<String>, table: &str) -> (r: bool)
    ensures
        r == exists|i: int| 0 <= i < names@.len() && (#[trigger] names@[i])@ == table@,
{
    for i in 0..names.len()
        invariant
            forall|j: int| 0 <= j < i ==> (#[trigger] names@[j])@ != table@,
    {
        if same_text(names[i].as_str(), table) {
            return true;
        }
    }
    false
}

/// Which resources a lookup is about.
#[derive(Debug, Clone, PartialEq, Eq)]
pub enum ResourceQuery {
    /// The resource with the given URI.
    ByUri(String),
    /// The resource with the given name.
    ByName(String),
    /// Every resource, whatever its status.
    All,
}

impl ResourceQuery {
    /// The filter that holds of the resources looked up.
    pub open spec fn condition(self) -> Seq<char> {
        match self {
            ResourceQuery::ByUri(uri) => equals_filter("uri"@, uri@),
            ResourceQuery::ByName(name) => equals_filter("name"@, name@),
            ResourceQuery::All => "true"@,
        }
    }

    /// The filter that holds of the resources looked up.
    pub fn filter(&self) -> (r: String)
        ensures
            r@ == self.condition(),
    {
        match self {
            ResourceQuery::ByUri(uri) => filter_equals("uri", uri.as_str()),
            ResourceQuery::ByName(name) => filter_equals("name", name.as_str()),
            ResourceQuery::All => "true".to_owned(),
        }
    }
}

/// The filter that holds of all the chunks of a resource.
pub fn resource_chunks_filter(resource_name: &str) -> (r: String)
    ensures
        r@ == equals_filter("resource_name"@, resource_name@),
{
    filter_equals("resource_name", resource_name)
}

/// A merge into a table: a row that matches on the key column is updated, a
/// new one inserted. With a delete scope, a stored row that the scope holds
/// of and that matches none of the new ones is deleted, all in one
/// transaction.
pub struct Merge {
    pub key_column: String,
    pub delete_scope: Option<String>,
    pub batch: ArrowBatch,
}

/// A copy of a resource.
pub fn copy_resource(resource: &ResourceRecord) -> (r: ResourceRecord)
    ensures
        r@ == resource@,
{
    ResourceRecord {
        uri: resource.uri.clone(),
        name: resource.name.clone(),
        status: resource.status,
        indexing_status: resource.indexing_status,
        indexing_status_message: copy_opt(&resource.indexing_status_message),
        created_at: resource.created_at.clone(),
        indexing_started_at: copy_opt(&resource.indexing_started_at),
        last_indexed_at: copy_opt(&resource.last_indexed_at),
        last_error: copy_opt(&resource.last_error),
    }
}

/// The merge that inserts or updates a resource, keyed on its URI.
pub fn upsert_resource(resource: &ResourceRecord) -> (r: Result<Merge, ArrowError>)
    requires
        resource_texts_fit(seq![resource@]),
    ensures
        r matches Ok(merge) && merge.key_column@ == "uri"@ && merge.delete_scope is None
            && batch_rows(merge.batch) == 1 && batch_columns(merge.batch) == named_columns(
            resource_fields(),
            resource_columns(seq![resource@]),
        ),
{
    let one = vec![copy_resource(resource)];
    assert(resource_views(one@) =~= seq![resource@]);
    match resource_records_to_batch(&one) {
        Ok(batch) => Ok(Merge { key_column: "uri".to_owned(), delete_scope: None, batch }),
        Err(e) => Err(e),
    }
}

/// What is wrong with a chunk that is to be written for a file.
#[derive(Debug, Clone, Copy, PartialEq, Eq, Structural)]
pub enum ChunkFault {
    /// Its embedding is of another dimension than the table's.
    Dimension { expected: usize, got: usize },
    /// It belongs to another resource.
    Resource,
    /// It belongs to another file.
    File,
}

/// What is wrong with a chunk, if anything.
pub open spec fn fault_of(
    row: ChunkRow,
    resource_name: Seq<char>,
    file_path: Seq<char>,
    embed_dim: usize,
) -> Option<ChunkFault> {
    if row.embedding.len() != embed_dim {
        Some(ChunkFault::Dimension { expected: embed_dim, got: row.embedding.len() as usize })
    } else if row.resource_name != resource_name {
        Some(ChunkFault::Resource)
    } else if row.file_path != file_path {
        Some(ChunkFault::File)
    } else {
        None
    }
}

/// The first fault among the chunks, if there is one.
pub open spec fn first_fault(
    rows: Seq<ChunkRow>,
    resource_name: Seq<char>,
    file_path: Seq<char>,
    embed_dim: usize,
) -> Option<ChunkFault>
    decreases rows.len(),
{
    if rows.len() == 0 {
        None
    } else {
        match fault_of(rows[0], resource_name, file_path, embed_dim) {
            Some(fault) => Some(fault),
            None => first_fault(rows.drop_first(), resource_name, file_path, embed_dim),
        }
    }
}

/// Looks for a chunk that cannot be written for the file: each must be of the
/// table's dimension and belong to the resource and the file.
pub fn chunk_fault(
    chunks: &Vec<ChunkRecord>,
    resource_name: &str,
    file_path: &str,
    embed_dim: usize,
) -> (r: Option<ChunkFault>)
    ensures
        r == first_fault(chunk_rows(chunks@), resource_name@, file_path@, embed_dim),
        r is None <==> of_dimension(chunk_rows(chunks@), embed_dim as int) && forall|i: int|
            0 <= i < chunks@.len() ==> in_scope(
                (#[trigger] chunks@[i])@,
                resource_name@,
                file_path@,
            ),
{
    let ghost rows = chunk_rows(chunks@);
    assert(rows.skip(0) =~= rows);
    for i in 0..chunks.len()
        invariant
            rows == chunk_rows(chunks@),
            first_fault(rows, resource_name@, file_path@, embed_dim) == first_fault(
                rows.skip(i as int),
                resource_name@,
                file_path@,
                embed_dim,
            ),
            forall|j: int|
                0 <= j < i ==> fault_of(
                    (#[trigger] rows[j]),
                    resource_name@,
                    file_path@,
                    embed_dim,
                ) is None,
    {
        let chunk = &chunks[i];
        proof {
            assert(rows.skip(i as int)[0] == chunk@);
            assert(rows.skip(i as int).drop_first() =~= rows.skip(i + 1));
            assert(rows[i as int] == chunk@);
        }
        if chunk.embedding.len() != embed_dim {
            return Some(
                ChunkFault::Dimension { expected: embed_dim, got: chunk.embedding.len() },
            );
        }
        if !same_text(chunk.resource_name.as_str(), resource_name) {
            assert(!in_scope(chunks@[i as int]@, resource_name@, file_path@));
            return Some(ChunkFault::Resource);
        }
        if !same_text(chunk.file_path.as_str(), file_path) {
            assert(!in_scope(chunks@[i as int]@, resource_name@, file_path@));
            return Some(ChunkFault::File);
        }
    }
    assert forall|i: int| 0 <= i < chunks@.len() implies in_scope(
        (#[trigger] chunks@[i])@,
        resource_name@,
        file_path@,
    ) by {
        assert(fault_of(rows[i], resource_name@, file_path@, embed_dim) is None);
    }
    None
}

/// The merge that replaces the full chunk set of one file within one
/// resource: matching chunk keys are updated, new ones are inserted, and any
/// chunk recorded for this file but absent from `chunks` is deleted.
pub fn replace_file_chunks(
    resource_name: &str,
    file_path: &str,
    chunks: &Vec<ChunkRecord>,
    embed_dim: usize,
) -> (r: Result<Merge, ArrowError>)
    requires
        embed_dim <= i32::MAX,
        of_dimension(chunk_rows(chunks@), embed_dim as int),
        forall|i: int|
            0 <= i < chunks@.len() ==> in_scope(
                (#[trigger] chunks@[i])@,
                resource_name@,
                file_path@,
            ),
        chunk_texts_fit(chunk_rows(chunks@)),
    ensures
        r is Ok <==> embed_dim > 0 || chunks@.len() == 0,
        r matches Ok(merge) ==> {
            &&& merge.key_column@ == "chunk_key"@
            &&& merge.delete_scope matches Some(scope) && scope@ == scope_filter(
                resource_name@,
                file_path@,
            )
            &&& batch_rows(merge.batch) == chunks@.len()
            &&& batch_columns(merge.batch) == named_columns(
                chunk_fields(embed_dim as i32),
                chunk_columns(chunk_rows(chunks@), embed_dim as i32),
            )
        },
{
    match chunks_to_record_batch(chunks, embed_dim) {
        Ok(batch) => Ok(
            Merge {
                key_column: "chunk_key".to_owned(),
                delete_scope: Some(file_scope_filter(resource_name, file_path)),
                batch,
            },
        ),
        Err(e) => Err(e),
    }
}

/// What the rows of all the batches say of chunks, in turn.
pub open spec fn chunks_in(batches: Seq<ArrowBatch>) -> Seq<ChunkRow>
    decreases batches.len(),
{
    if batches.len() == 0 {
        seq![]
    } else {
        let last = batches.last();
        chunks_in(batches.drop_last()) + Seq::new(
            batch_rows(last),
            |i: int| chunk_at(batch_columns(last), i),
        )
    }
}

/// The chunks that the batches hold, in turn.
pub fn collect_chunks(batches: &Vec<ArrowBatch>) -> (r: Vec<ChunkRecord>)
    requires
        forall|i: int|
            0 <= i < batches@.len() ==> has_chunks(
                batch_columns(#[trigger] batches@[i]),
                batch_rows(batches@[i]),
            ),
    ensures
        chunk_rows(r@) == chunks_in(batches@),
{
    let mut r: Vec<ChunkRecord> = Vec::new();
    assert(chunk_rows(r@) =~= chunks_in(batches@.take(0)));
    for n in 0..batches.len()
        invariant
            forall|i: int|
                0 <= i < batches@.len() ==> has_chunks(
                    batch_columns(#[trigger] batches@[i]),
                    batch_rows(batches@[i]),
                ),
            chunk_rows(r@) == chunks_in(batches@.take(n as int)),
    {
        let ghost before = r@;
        let mut more = chunk_records_from_batch(&batches[n]);
        let ghost here = more@;
        r.append(&mut more);
        proof {
            let next = batches@.take(n + 1);
            assert(next.drop_last() =~= batches@.take(n as int));
            assert(chunk_rows(r@) =~= chunk_rows(before) + chunk_rows(here));
            assert(chunk_rows(r@) =~= chunks_in(next));
        }
    }
    assert(batches@.take(batches@.len() as int) =~= batches@);
    r
}

/// What each index and fingerprint holds, in turn.
pub open spec fn fingerprint_views(found: Seq<(i32, ChunkFingerprint)>) -> Seq<
    (i32, FingerprintView),
> {
    found.map_values(|f: (i32, ChunkFingerprint)| (f.0, f.1@))
}

/// What the rows of all the batches say of fingerprints, in turn.
pub open spec fn fingerprints_in(batches: Seq<ArrowBatch>) -> Seq<(i32, FingerprintView)>
    decreases batches.len(),
{
    if batches.len() == 0 {
        seq![]
    } else {
        let last = batches.last();
        fingerprints_in(batches.drop_last()) + Seq::new(
            batch_rows(last),
            |i: int| fingerprint_at(batch_columns(last), i),
        )
    }
}

/// The index and fingerprint of each chunk that the batches hold, in turn.
pub fn collect_fingerprints(batches: &Vec<ArrowBatch>) -> (r: Vec<(i32, ChunkFingerprint)>)
    requires
        forall|i: int|
            0 <= i < batches@.len() ==> has_fingerprints(
                batch_columns(#[trigger] batches@[i]),
                batch_rows(batches@[i]),
            ),
    ensures
        fingerprint_views(r@) == fingerprints_in(batches@),
{
    let mut r: Vec<(i32, ChunkFingerprint)> = Vec::new();
    assert(fingerprint_views(r@) =~= fingerprints_in(batches@.take(0)));
    for n in 0..batches.len()
        invariant
            forall|i: int|
                0 <= i < batches@.len() ==> has_fingerprints(
                    batch_columns(#[trigger] batches@[i]),
                    batch_rows(batches@[i]),
                ),
            fingerprint_views(r@) == fingerprints_in(batches@.take(n as int)),
    {
        let ghost before = r@;
        let mut more = chunk_fingerprints_from_batch(&batches[n]);
        let ghost here = more@;
        r.append(&mut more);
        proof {
            let next = batches@.take(n + 1);
            assert(next.drop_last() =~= batches@.take(n as int));
            assert(fingerprint_views(r@) =~= fingerprint_views(before) + fingerprint_views(here));
            assert(fingerprint_views(r@) =~= fingerprints_in(next));
        }
    }
    assert(batches@.take(batches@.len() as int) =~= batches@);
    r
}

} // verus!
