//! What holds of storage requests: how statuses are written down, which
//! resources a lookup finds, which chunks a file's merge refuses, and what is
//! read from an answer of several batches.

use crate::batches::{chunk_at, fingerprint_at};
use crate::chunker::Chunk;
use crate::columns::{batch_columns, batch_rows, ArrowBatch};
use crate::db::{
    key_of, ChunkFingerprint, ChunkRecord, ChunkRow, IndexingStatus, ResourceRecord, ResourceStatus,
};
use crate::db_laws::{law_filter_compares_with_its_value, read_literal};
use crate::store::{chunks_in, fault_of, fingerprints_in, first_fault, ChunkFault, ResourceQuery};
use crate::text::decimal;
use vstd::prelude::*;

verus! {

/// The letters that a resource status is stored as.
pub open spec fn status_letters(status: ResourceStatus) -> Seq<char> {
    match status {
        ResourceStatus::Active => seq!['a', 'c', 't', 'i', 'v', 'e'],
        ResourceStatus::Inactive => seq!['i', 'n', 'a', 'c', 't', 'i', 'v', 'e'],
    }
}

/// The letters that an indexing status is stored as.
pub open spec fn indexing_letters(status: IndexingStatus) -> Seq<char> {
    match status {
        IndexingStatus::Pending => seq!['p', 'e', 'n', 'd', 'i', 'n', 'g'],
        IndexingStatus::Indexing => seq!['i', 'n', 'd', 'e', 'x', 'i', 'n', 'g'],
        IndexingStatus::Indexed => seq!['i', 'n', 'd', 'e', 'x', 'e', 'd'],
        IndexingStatus::Failed => seq!['f', 'a', 'i', 'l', 'e', 'd'],
    }
}

/// A resource status is stored as its letters, and nothing but these letters
/// is read as it.
pub proof fn law_resource_statuses_have_one_stored_form(s: Seq<char>, status: ResourceStatus)
    ensures
        status.text() == status_letters(status),
        ResourceStatus::named(s) == Some(status) <==> s == status_letters(status),
{
    reveal_strlit("active");
    reveal_strlit("inactive");
    assert("active"@ =~= status_letters(ResourceStatus::Active));
    assert("inactive"@ =~= status_letters(ResourceStatus::Inactive));
    assert("active"@.len() != "inactive"@.len());
}

/// An indexing status is stored as its letters, and nothing but these letters
/// is read as it.
pub proof fn law_indexing_statuses_have_one_stored_form(s: Seq<char>, status: IndexingStatus)
    ensures
        status.text() == indexing_letters(status),
        IndexingStatus::named(s) == Some(status) <==> s == indexing_letters(status),
{
    reveal_strlit("pending");
    reveal_strlit("indexing");
    reveal_strlit("indexed");
    reveal_strlit("failed");
    assert("pending"@ =~= indexing_letters(IndexingStatus::Pending));
    assert("indexing"@ =~= indexing_letters(IndexingStatus::Indexing));
    assert("indexed"@ =~= indexing_letters(IndexingStatus::Indexed));
    assert("failed"@ =~= indexing_letters(IndexingStatus::Failed));
    assert("indexed"@[0] != "pending"@[0]);
    assert("pending"@.len() == 7 && "indexing"@.len() == 8 && "indexed"@.len() == 7
        && "failed"@.len() == 6);
}

/// A text that is no status's stored form is read as none.
pub proof fn law_other_texts_are_no_status(s: Seq<char>)
    ensures
        ResourceStatus::named(s) is None <==> forall|status: ResourceStatus|
            s != #[trigger] status_letters(status),
        IndexingStatus::named(s) is None <==> forall|status: IndexingStatus|
            s != #[trigger] indexing_letters(status),
{
    assert forall|status: ResourceStatus| ResourceStatus::named(s) == Some(status) <==> s
        == #[trigger] status_letters(status) by {
        law_resource_statuses_have_one_stored_form(s, status);
    }
    assert forall|status: IndexingStatus| IndexingStatus::named(s) == Some(status) <==> s
        == #[trigger] indexing_letters(status) by {
        law_indexing_statuses_have_one_stored_form(s, status);
    }
    if let Some(status) = ResourceStatus::named(s) {
        assert(s == status_letters(status));
    }
    if let Some(status) = IndexingStatus::named(s) {
        assert(s == indexing_letters(status));
    }
}

/// Whether a text that may be missing is shown as it is, or as missing.
pub open spec fn same_opt(held: Option<String>, shown: Option<Seq<char>>) -> bool {
    match (held, shown) {
        (Some(text), Some(chars)) => text@ == chars,
        (None, None) => true,
        _ => false,
    }
}

/// What is said of a chunk's record is what its fields hold, each under its
/// own name.
pub proof fn law_chunk_records_are_what_they_hold(record: ChunkRecord)
    ensures
        record@.resource_name == record.resource_name@,
        record@.file_path == record.file_path@,
        record@.chunk_index == record.chunk_index,
        record@.content == record.content@,
        record@.content_hash == record.content_hash@,
        record@.start_line == record.start_line,
        record@.end_line == record.end_line,
        record@.embedding == record.embedding@,
        record@.updated_at == record.updated_at@,
{
}

/// What is said of a resource's record is what its fields hold, each under
/// its own name.
pub proof fn law_resource_records_are_what_they_hold(record: ResourceRecord)
    ensures
        record@.uri == record.uri@,
        record@.name == record.name@,
        record@.status == record.status,
        record@.indexing_status == record.indexing_status,
        same_opt(record.indexing_status_message, record@.indexing_status_message),
        record@.created_at == record.created_at@,
        same_opt(record.indexing_started_at, record@.indexing_started_at),
        same_opt(record.last_indexed_at, record@.last_indexed_at),
        same_opt(record.last_error, record@.last_error),
{
}

/// What is said of a chunk or of a fingerprint is what its fields hold.
pub proof fn law_chunks_and_fingerprints_are_what_they_hold(
    chunk: Chunk,
    fingerprint: ChunkFingerprint,
)
    ensures
        chunk@.content == chunk.content@,
        chunk@.start_line == chunk.start_line,
        chunk@.end_line == chunk.end_line,
        fingerprint@.content_hash == fingerprint.content_hash@,
        fingerprint@.embedding == fingerprint.embedding@,
{
}

/// A key is made of its three parts in order, each but the last followed by
/// a NUL character.
pub proof fn law_keys_hold_their_parts_in_order(
    resource_name: Seq<char>,
    file_path: Seq<char>,
    chunk_index: int,
)
    ensures
        ({
            let key = key_of(resource_name, file_path, chunk_index);
            let first = resource_name.len() as int;
            let second = first + 1 + file_path.len();
            &&& key.take(first) == resource_name
            &&& key[first] == '\0'
            &&& key.subrange(first + 1, second) == file_path
            &&& key[second] == '\0'
            &&& key.skip(second + 1) == decimal(chunk_index)
        }),
{
    let key = key_of(resource_name, file_path, chunk_index);
    let first = resource_name.len() as int;
    let second = first + 1 + file_path.len();
    assert(key.take(first) =~= resource_name);
    assert(key.subrange(first + 1, second) =~= file_path);
    assert(key.skip(second + 1) =~= decimal(chunk_index));
}

/// A lookup compares the column it is about, and no other, with the value
/// asked for; a lookup of every resource filters out none.
pub proof fn law_lookups_ask_for_what_they_name(query: ResourceQuery)
    ensures
        query matches ResourceQuery::ByUri(uri) ==> {
            let head = seq!['u', 'r', 'i', ' ', '=', ' '];
            &&& query.condition().take(head.len() as int) == head
            &&& read_literal(query.condition().skip(head.len() as int)) == Some(
                (uri@, Seq::<char>::empty()),
            )
        },
        query matches ResourceQuery::ByName(name) ==> {
            let head = seq!['n', 'a', 'm', 'e', ' ', '=', ' '];
            &&& query.condition().take(head.len() as int) == head
            &&& read_literal(query.condition().skip(head.len() as int)) == Some(
                (name@, Seq::<char>::empty()),
            )
        },
        query is All ==> query.condition() == seq!['t', 'r', 'u', 'e'],
{
    reveal_strlit("uri");
    reveal_strlit("name");
    reveal_strlit(" = ");
    reveal_strlit("true");
    assert("uri"@ + " = "@ =~= seq!['u', 'r', 'i', ' ', '=', ' ']);
    assert("name"@ + " = "@ =~= seq!['n', 'a', 'm', 'e', ' ', '=', ' ']);
    assert("true"@ =~= seq!['t', 'r', 'u', 'e']);
    match query {
        ResourceQuery::ByUri(uri) => law_filter_compares_with_its_value("uri"@, uri@),
        ResourceQuery::ByName(name) => law_filter_compares_with_its_value("name"@, name@),
        ResourceQuery::All => {},
    }
}

/// Whether a row can be written for the file.
pub open spec fn is_writable(
    row: ChunkRow,
    resource_name: Seq<char>,
    file_path: Seq<char>,
    embed_dim: usize,
) -> bool {
    row.embedding.len() == embed_dim && row.resource_name == resource_name && row.file_path
        == file_path
}

/// A fault that is found is one of the row: it names the dimensions where
/// they differ, the resource where only the dimensions agree, and the file
/// where it alone is another. A row without one can be written.
pub proof fn law_faults_are_those_of_the_row(
    row: ChunkRow,
    resource_name: Seq<char>,
    file_path: Seq<char>,
    embed_dim: usize,
)
    ensures
        ({
            let fault = fault_of(row, resource_name, file_path, embed_dim);
            &&& fault is None <==> is_writable(row, resource_name, file_path, embed_dim)
            &&& (fault matches Some(ChunkFault::Dimension { expected, got }) ==> expected
                == embed_dim && got == row.embedding.len() as usize)
            &&& (fault matches Some(ChunkFault::Dimension { .. })) <==> row.embedding.len()
                != embed_dim
            &&& fault == Some(ChunkFault::Resource) <==> row.embedding.len() == embed_dim
                && row.resource_name != resource_name
            &&& fault == Some(ChunkFault::File) <==> row.embedding.len() == embed_dim
                && row.resource_name == resource_name && row.file_path != file_path
        }),
{
}

/// The fault that is reported is that of the first row that cannot be
/// written, and none is reported exactly if every row can.
pub proof fn law_first_fault_is_reported(
    rows: Seq<ChunkRow>,
    resource_name: Seq<char>,
    file_path: Seq<char>,
    embed_dim: usize,
)
    ensures
        first_fault(rows, resource_name, file_path, embed_dim) is None <==> forall|i: int|
            0 <= i < rows.len() ==> is_writable(
                #[trigger] rows[i],
                resource_name,
                file_path,
                embed_dim,
            ),
        forall|i: int|
            0 <= i < rows.len() && !is_writable(
                #[trigger] rows[i],
                resource_name,
                file_path,
                embed_dim,
            ) && (forall|j: int|
                0 <= j < i ==> is_writable(
                    #[trigger] rows[j],
                    resource_name,
                    file_path,
                    embed_dim,
                )) ==> first_fault(rows, resource_name, file_path, embed_dim) == fault_of(
                rows[i],
                resource_name,
                file_path,
                embed_dim,
            ),
    decreases rows.len(),
{
    if rows.len() > 0 {
        let rest = rows.drop_first();
        law_first_fault_is_reported(rest, resource_name, file_path, embed_dim);
        assert forall|i: int| 0 < i < rows.len() implies #[trigger] rows[i] == rest[i - 1] by {}
        assert forall|i: int|
            0 <= i < rows.len() && !is_writable(
                #[trigger] rows[i],
                resource_name,
                file_path,
                embed_dim,
            ) && (forall|j: int|
                0 <= j < i ==> is_writable(
                    #[trigger] rows[j],
                    resource_name,
                    file_path,
                    embed_dim,
                )) implies first_fault(rows, resource_name, file_path, embed_dim) == fault_of(
            rows[i],
            resource_name,
            file_path,
            embed_dim,
        ) by {
            if i > 0 {
                assert(is_writable(rows[0], resource_name, file_path, embed_dim));
                assert(rows[i] == rest[i - 1]);
                assert forall|j: int| 0 <= j < i - 1 implies is_writable(
                    #[trigger] rest[j],
                    resource_name,
                    file_path,
                    embed_dim,
                ) by {
                    assert(rest[j] == rows[j + 1]);
                }
            }
        }
        if first_fault(rows, resource_name, file_path, embed_dim) is None {
            assert forall|i: int| 0 <= i < rows.len() implies is_writable(
                #[trigger] rows[i],
                resource_name,
                file_path,
                embed_dim,
            ) by {
                if i > 0 {
                    assert(rows[i] == rest[i - 1]);
                }
            }
        } else if forall|i: int|
            0 <= i < rows.len() ==> is_writable(
                #[trigger] rows[i],
                resource_name,
                file_path,
                embed_dim,
            ) {
            assert forall|j: int| 0 <= j < rest.len() implies is_writable(
                #[trigger] rest[j],
                resource_name,
                file_path,
                embed_dim,
            ) by {
                assert(rest[j] == rows[j + 1]);
            }
            assert(is_writable(rows[0], resource_name, file_path, embed_dim));
        }
    }
}

/// How many rows the first `n` batches hold.
pub open spec fn rows_before(batches: Seq<ArrowBatch>, n: int) -> int
    decreases n,
{
    if n <= 0 {
        0
    } else {
        rows_before(batches, n - 1) + batch_rows(batches[n - 1])
    }
}

pub proof fn lemma_rows_before(batches: Seq<ArrowBatch>, n: int, m: int)
    requires
        0 <= n <= m <= batches.len(),
    ensures
        0 <= rows_before(batches, n) <= rows_before(batches, m),
        rows_before(batches.take(m), n) == rows_before(batches, n),
    decreases m, n,
{
    if n > 0 {
        lemma_rows_before(batches, n - 1, m);
        assert(batches.take(m)[n - 1] == batches[n - 1]);
        if n < m {
            lemma_rows_before(batches, n, m - 1);
        }
    } else if m > 0 {
        lemma_rows_before(batches, n, m - 1);
    }
}

/// Every row of every batch is read, once, in the order of the batches and
/// within a batch in the order of its rows.
pub proof fn law_every_row_is_read_in_order(batches: Seq<ArrowBatch>)
    ensures
        chunks_in(batches).len() == rows_before(batches, batches.len() as int),
        fingerprints_in(batches).len() == rows_before(batches, batches.len() as int),
        forall|n: int, i: int|
            #![trigger chunk_at(batch_columns(batches[n]), i)]
            0 <= n < batches.len() && 0 <= i < batch_rows(batches[n]) ==> chunks_in(
                batches,
            )[rows_before(batches, n) + i] == chunk_at(batch_columns(batches[n]), i),
        forall|n: int, i: int|
            #![trigger fingerprint_at(batch_columns(batches[n]), i)]
            0 <= n < batches.len() && 0 <= i < batch_rows(batches[n]) ==> fingerprints_in(
                batches,
            )[rows_before(batches, n) + i] == fingerprint_at(batch_columns(batches[n]), i),
    decreases batches.len(),
{
    if batches.len() > 0 {
        let all = batches.len() as int;
        let shorter = batches.drop_last();
        assert(shorter =~= batches.take(all - 1));
        law_every_row_is_read_in_order(shorter);
        lemma_rows_before(batches, all - 1, all - 1);
        assert forall|n: int, i: int|
            #![trigger chunk_at(batch_columns(batches[n]), i)]
            0 <= n < batches.len() && 0 <= i < batch_rows(batches[n]) implies chunks_in(
            batches,
        )[rows_before(batches, n) + i] == chunk_at(batch_columns(batches[n]), i) by {
            if n < all - 1 {
                lemma_rows_before(batches, n, all - 1);
                lemma_rows_before(batches, n + 1, all - 1);
                assert(shorter[n] == batches[n]);
                assert(chunks_in(shorter)[rows_before(shorter, n) + i] == chunk_at(
                    batch_columns(shorter[n]),
                    i,
                ));
            }
        }
        assert forall|n: int, i: int|
            #![trigger fingerprint_at(batch_columns(batches[n]), i)]
            0 <= n < batches.len() && 0 <= i < batch_rows(batches[n]) implies fingerprints_in(
            batches,
        )[rows_before(batches, n) + i] == fingerprint_at(batch_columns(batches[n]), i) by {
            if n < all - 1 {
                lemma_rows_before(batches, n, all - 1);
                lemma_rows_before(batches, n + 1, all - 1);
                assert(shorter[n] == batches[n]);
                assert(fingerprints_in(shorter)[rows_before(shorter, n) + i] == fingerprint_at(
                    batch_columns(shorter[n]),
                    i,
                ));
            }
        }
    }
}

} // verus!
