//! Storage layer: resource and chunk records, the keys they are stored
//! under, and the filters and merge requests that address them.
//!
//! The core correctness property is atomic upsert-and-prune: a
//! [`Merge`](crate::store::Merge) replaces *exactly* one file's chunk set, so
//! merging the same chunks again changes nothing and a file whose chunk
//! boundaries shift never leaves orphaned rows behind.

use crate::error::{ErrorView, RagdError};
use crate::text::{chars_of, decimal, opt_text, same_text, write_decimal};
use vstd::prelude::*;
use vstd::string::*;

verus! {

/// Whether a resource is actively watched and indexed.
#[derive(Debug, Clone, Copy, PartialEq, Eq, Structural)]
pub enum ResourceStatus {
    Active,
    Inactive,
}

impl ResourceStatus {
    /// The stored form of the status.
    pub open spec fn text(self) -> Seq<char> {
        match self {
            ResourceStatus::Active => "active"@,
            ResourceStatus::Inactive => "inactive"@,
        }
    }

    /// The status with the given stored form, if there is one.
    pub open spec fn named(s: Seq<char>) -> Option<ResourceStatus> {
        if s == ResourceStatus::Active.text() {
            Some(ResourceStatus::Active)
        } else if s == ResourceStatus::Inactive.text() {
            Some(ResourceStatus::Inactive)
        } else {
            None
        }
    }

    /// The stored form of the status.
    pub fn as_str(self) -> (r: &'static str)
        ensures
            r@ == self.text(),
    {
        match self {
            ResourceStatus::Active => "active",
            ResourceStatus::Inactive => "inactive",
        }
    }

    /// Reads the stored form of a status.
    pub fn from_text(s: &str) -> (r: Result<Self, RagdError>)
        ensures
            match ResourceStatus::named(s@) {
                Some(status) => r == Ok::<ResourceStatus, RagdError>(status),
                None => r matches Err(e) && e@ == ErrorView::Storage(
                    "unknown resource status: "@ + s@,
                ),
            },
    {
        if same_text(s, "active") {
            Ok(ResourceStatus::Active)
        } else if same_text(s, "inactive") {
            Ok(ResourceStatus::Inactive)
        } else {
            Err(RagdError::Storage("unknown resource status: ".to_owned().concat(s)))
        }
    }
}

impl std::str::FromStr for ResourceStatus {
    type Err = RagdError;

    fn from_str(s: &str) -> (r: Result<Self, RagdError>)
        ensures
            match ResourceStatus::named(s@) {
                Some(status) => r == Ok::<ResourceStatus, RagdError>(status),
                None => r matches Err(e) && e@ == ErrorView::Storage(
                    "unknown resource status: "@ + s@,
                ),
            },
    {
        ResourceStatus::from_text(s)
    }
}

/// Where a resource is in its indexing lifecycle.
#[derive(Debug, Clone, Copy, PartialEq, Eq, Structural)]
pub enum IndexingStatus {
    Pending,
    Indexing,
    Indexed,
    Failed,
}

impl IndexingStatus {
    /// The stored form of the status.
    pub open spec fn text(self) -> Seq<char> {
        match self {
            IndexingStatus::Pending => "pending"@,
            IndexingStatus::Indexing => "indexing"@,
            IndexingStatus::Indexed => "indexed"@,
            IndexingStatus::Failed => "failed"@,
        }
    }

    /// The status with the given stored form, if there is one.
    pub open spec fn named(s: Seq<char>) -> Option<IndexingStatus> {
        if s == IndexingStatus::Pending.text() {
            Some(IndexingStatus::Pending)
        } else if s == IndexingStatus::Indexing.text() {
            Some(IndexingStatus::Indexing)
        } else if s == IndexingStatus::Indexed.text() {
            Some(IndexingStatus::Indexed)
        } else if s == IndexingStatus::Failed.text() {
            Some(IndexingStatus::Failed)
        } else {
            None
        }
    }

    /// The stored form of the status.
    pub fn as_str(self) -> (r: &'static str)
        ensures
            r@ == self.text(),
    {
        match self {
            IndexingStatus::Pending => "pending",
            IndexingStatus::Indexing => "indexing",
            IndexingStatus::Indexed => "indexed",
            IndexingStatus::Failed => "failed",
        }
    }

    /// Reads the stored form of a status.
    pub fn from_text(s: &str) -> (r: Result<Self, RagdError>)
        ensures
            match IndexingStatus::named(s@) {
                Some(status) => r == Ok::<IndexingStatus, RagdError>(status),
                None => r matches Err(e) && e@ == ErrorView::Storage(
                    "unknown indexing status: "@ + s@,
                ),
            },
    {
        if same_text(s, "pending") {
            Ok(IndexingStatus::Pending)
        } else if same_text(s, "indexing") {
            Ok(IndexingStatus::Indexing)
        } else if same_text(s, "indexed") {
            Ok(IndexingStatus::Indexed)
        } else if same_text(s, "failed") {
            Ok(IndexingStatus::Failed)
        } else {
            Err(RagdError::Storage("unknown indexing status: ".to_owned().concat(s)))
        }
    }
}

impl std::str::FromStr for IndexingStatus {
    type Err = RagdError;

    fn from_str(s: &str) -> (r: Result<Self, RagdError>)
        ensures
            match IndexingStatus::named(s@) {
                Some(status) => r == Ok::<IndexingStatus, RagdError>(status),
                None => r matches Err(e) && e@ == ErrorView::Storage(
                    "unknown indexing status: "@ + s@,
                ),
            },
    {
        IndexingStatus::from_text(s)
    }
}

/// Reading the stored form of a resource status gives the status back.
pub proof fn law_resource_status_round_trips(status: ResourceStatus)
    ensures
        ResourceStatus::named(status.text()) == Some(status),
{
    reveal_strlit("active");
    reveal_strlit("inactive");
    assert("active"@.len() != "inactive"@.len());
}

/// Reading the stored form of an indexing status gives the status back.
pub proof fn law_indexing_status_round_trips(status: IndexingStatus)
    ensures
        IndexingStatus::named(status.text()) == Some(status),
{
    reveal_strlit("pending");
    reveal_strlit("indexing");
    reveal_strlit("indexed");
    reveal_strlit("failed");
    assert("indexed"@[0] != "pending"@[0]);
    assert("pending"@.len() == 7 && "indexing"@.len() == 8 && "indexed"@.len() == 7
        && "failed"@.len() == 6);
}

/// A watched and indexed resource: a local directory.
#[derive(Debug, Clone, PartialEq)]
pub struct ResourceRecord {
    pub uri: String,
    pub name: String,
    pub status: ResourceStatus,
    pub indexing_status: IndexingStatus,
    pub indexing_status_message: Option<String>,
    pub created_at: String,
    pub indexing_started_at: Option<String>,
    pub last_indexed_at: Option<String>,
    pub last_error: Option<String>,
}

/// What a [`ResourceRecord`] holds.
pub struct ResourceView {
    pub uri: Seq<char>,
    pub name: Seq<char>,
    pub status: ResourceStatus,
    pub indexing_status: IndexingStatus,
    pub indexing_status_message: Option<Seq<char>>,
    pub created_at: Seq<char>,
    pub indexing_started_at: Option<Seq<char>>,
    pub last_indexed_at: Option<Seq<char>>,
    pub last_error: Option<Seq<char>>,
}

impl View for ResourceRecord {
    type V = ResourceView;

    open spec fn view(&self) -> ResourceView {
        ResourceView {
            uri: self.uri@,
            name: self.name@,
            status: self.status,
            indexing_status: self.indexing_status,
            indexing_status_message: opt_text(self.indexing_status_message),
            created_at: self.created_at@,
            indexing_started_at: opt_text(self.indexing_started_at),
            last_indexed_at: opt_text(self.last_indexed_at),
            last_error: opt_text(self.last_error),
        }
    }
}

/// What each record holds, in turn.
pub open spec fn resource_views(records: Seq<ResourceRecord>) -> Seq<ResourceView> {
    records.map_values(|r: ResourceRecord| r@)
}

/// A single embedded chunk of a file, scoped to the resource that owns it.
/// The components of the embedding are kept as the bit patterns of
/// single-precision numbers: nothing here computes with them.
#[derive(Debug, Clone, PartialEq)]
pub struct ChunkRecord {
    pub resource_name: String,
    pub file_path: String,
    pub chunk_index: i32,
    pub content: String,
    pub content_hash: String,
    pub start_line: i32,
    pub end_line: i32,
    pub embedding: Vec<u32>,
    pub updated_at: String,
}

/// What a [`ChunkRecord`] holds.
pub struct ChunkRow {
    pub resource_name: Seq<char>,
    pub file_path: Seq<char>,
    pub chunk_index: i32,
    pub content: Seq<char>,
    pub content_hash: Seq<char>,
    pub start_line: i32,
    pub end_line: i32,
    pub embedding: Seq<u32>,
    pub updated_at: Seq<char>,
}

impl View for ChunkRecord {
    type V = ChunkRow;

    open spec fn view(&self) -> ChunkRow {
        ChunkRow {
            resource_name: self.resource_name@,
            file_path: self.file_path@,
            chunk_index: self.chunk_index,
            content: self.content@,
            content_hash: self.content_hash@,
            start_line: self.start_line,
            end_line: self.end_line,
            embedding: self.embedding@,
            updated_at: self.updated_at@,
        }
    }
}

/// What each record holds, in turn.
pub open spec fn chunk_rows(records: Seq<ChunkRecord>) -> Seq<ChunkRow> {
    records.map_values(|r: ChunkRecord| r@)
}

/// Just enough of a [`ChunkRecord`] to decide whether a freshly chunked
/// piece of content is identical to what's already stored, and to reuse its
/// embedding if so.
#[derive(Debug, Clone, PartialEq)]
pub struct ChunkFingerprint {
    pub content_hash: String,
    pub embedding: Vec<u32>,
}

/// What a [`ChunkFingerprint`] holds.
pub struct FingerprintView {
    pub content_hash: Seq<char>,
    pub embedding: Seq<u32>,
}

impl View for ChunkFingerprint {
    type V = FingerprintView;

    open spec fn view(&self) -> FingerprintView {
        FingerprintView { content_hash: self.content_hash@, embedding: self.embedding@ }
    }
}

/// The result of an upsert-and-prune call: how many chunks were written and
/// how many stale ones were removed.
#[derive(Debug, Clone, Copy, PartialEq, Eq, Default)]
pub struct ReplaceChunksOutcome {
    pub written: u64,
    pub deleted: u64,
}

impl ReplaceChunksOutcome {
    /// Sums up what a merge reports: inserted and updated rows are written
    /// ones.
    pub fn from_counts(inserted: u64, updated: u64, deleted: u64) -> (r: Self)
        requires
            inserted + updated <= u64::MAX,
        ensures
            r.written == inserted + updated,
            r.deleted == deleted,
    {
        ReplaceChunksOutcome { written: inserted + updated, deleted }
    }
}

/// The key of a chunk: its resource, its file and its index, set apart by NUL
/// characters so that printable delimiters in a name or a path can't make
/// two of them collide.
pub open spec fn key_of(resource_name: Seq<char>, file_path: Seq<char>, chunk_index: int) -> Seq<
    char,
> {
    resource_name + seq!['\0'] + file_path + seq!['\0'] + decimal(chunk_index)
}

impl ChunkRow {
    /// The stable, globally unique key that the chunk is upserted on.
    pub open spec fn key(self) -> Seq<char> {
        key_of(self.resource_name, self.file_path, self.chunk_index as int)
    }
}

/// The key of a chunk.
pub fn chunk_key(resource_name: &str, file_path: &str, chunk_index: i32) -> (r: String)
    ensures
        r@ == key_of(resource_name@, file_path@, chunk_index as int),
{
    let index = write_decimal(chunk_index);
    let mut r = resource_name.to_owned();
    r.push('\0');
    r.append(file_path);
    r.push('\0');
    r.append(index.as_str());
    assert(r@ =~= key_of(resource_name@, file_path@, chunk_index as int));
    r
}

impl ChunkRecord {
    /// The stable, globally unique key that this chunk is upserted on.
    pub fn chunk_key(&self) -> (r: String)
        ensures
            r@ == self@.key(),
    {
        chunk_key(self.resource_name.as_str(), self.file_path.as_str(), self.chunk_index)
    }
}

/// `s` with every single quote written twice.
pub open spec fn doubled(s: Seq<char>) -> Seq<char>
    decreases s.len(),
{
    if s.len() == 0 {
        seq![]
    } else if s[0] == '\'' {
        seq!['\'', '\''] + doubled(s.drop_first())
    } else {
        seq![s[0]] + doubled(s.drop_first())
    }
}

/// `value` as an SQL string literal.
pub open spec fn quoted(value: Seq<char>) -> Seq<char> {
    seq!['\''] + doubled(value) + seq!['\'']
}

/// Escapes a value for embedding in an SQL filter string.
pub fn sql_quote(value: &str) -> (r: String)
    ensures
        r@ == quoted(value@),
{
    let chars = chars_of(value);
    let mut r = String::new();
    r.push('\'');
    assert(chars@.skip(0) =~= chars@);
    assert(r@ + doubled(chars@) =~= seq!['\''] + doubled(value@));
    for i in 0..chars.len()
        invariant
            chars@ == value@,
            r@ + doubled(chars@.skip(i as int)) == seq!['\''] + doubled(value@),
    {
        let ghost before = r@;
        let ghost rest = chars@.skip(i as int);
        let c = chars[i];
        assert(rest[0] == c);
        assert(rest.drop_first() =~= chars@.skip(i + 1));
        if c == '\'' {
            r.push('\'');
        }
        r.push(c);
        assert(r@ + doubled(chars@.skip(i + 1)) =~= before + doubled(rest));
    }
    let ghost body = r@;
    assert(chars@.skip(chars@.len() as int) =~= seq![]);
    assert(body + doubled(seq![]) =~= body);
    r.push('\'');
    r
}

/// The filter that holds of the rows whose `column` is `value`.
pub open spec fn equals_filter(column: Seq<char>, value: Seq<char>) -> Seq<char> {
    column + " = "@ + quoted(value)
}

/// The filter that holds of the rows whose `column` is `value`.
pub fn filter_equals(column: &str, value: &str) -> (r: String)
    ensures
        r@ == equals_filter(column@, value@),
{
    let literal = sql_quote(value);
    column.to_owned().concat(" = ").concat(literal.as_str())
}

/// The filter that holds of the chunks of one file within one resource.
pub open spec fn scope_filter(resource_name: Seq<char>, file_path: Seq<char>) -> Seq<char> {
    equals_filter("resource_name"@, resource_name) + " AND "@ + equals_filter(
        "file_path"@,
        file_path,
    )
}

/// The filter that holds of the chunks of one file within one resource.
pub fn file_scope_filter(resource_name: &str, file_path: &str) -> (r: String)
    ensures
        r@ == scope_filter(resource_name@, file_path@),
{
    let resource = filter_equals("resource_name", resource_name);
    let file = filter_equals("file_path", file_path);
    resource.concat(" AND ").concat(file.as_str())
}

} // verus!
