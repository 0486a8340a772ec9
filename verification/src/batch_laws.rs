//! What holds of records and batches together: reading a batch gives back the
//! records that it was made of.

use crate::batches::{
    chunk_at, chunk_columns, chunk_fields, chunk_ints, chunk_texts, embeddings, fingerprint_at,
    has_chunks, has_fingerprints, has_resources, resource_at, resource_columns,
    resource_columns_in_order, resource_fields, resource_texts, ChunkInt, ChunkText, ResourceText,
};
use crate::columns::{named, named_columns, text_column_view, ColumnView};
use crate::db::{
    law_indexing_status_round_trips, law_resource_status_round_trips, ChunkRow, FingerprintView,
    ResourceView,
};
use crate::error::ErrorView;
use vstd::prelude::*;

verus! {

/// A name that no earlier column has leads to its column.
pub proof fn lemma_named(columns: Seq<(Seq<char>, ColumnView)>, k: int)
    requires
        0 <= k < columns.len(),
        forall|j: int| 0 <= j < k ==> (#[trigger] columns[j]).0 != columns[k].0,
    ensures
        named(columns, columns[k].0) == Some(columns[k].1),
    decreases k,
{
    if k > 0 {
        let rest = columns.drop_first();
        assert(rest[k - 1] == columns[k]);
        assert forall|j: int| 0 <= j < k - 1 implies (#[trigger] rest[j]).0 != rest[k - 1].0 by {
            assert(rest[j] == columns[j + 1]);
        }
        lemma_named(rest, k - 1);
        assert(columns[0].0 != columns[k].0);
    }
}

proof fn lemma_chunk_titles_differ(embed_dim: i32)
    ensures
        forall|j: int, k: int|
            0 <= j < k < 10 ==> (#[trigger] chunk_fields(embed_dim)[j]).name != (
            #[trigger] chunk_fields(embed_dim)[k]).name,
{
    reveal_strlit("chunk_key");
    reveal_strlit("resource_name");
    reveal_strlit("file_path");
    reveal_strlit("chunk_index");
    reveal_strlit("content");
    reveal_strlit("content_hash");
    reveal_strlit("start_line");
    reveal_strlit("end_line");
    reveal_strlit("embedding");
    reveal_strlit("updated_at");
    assert("chunk_key"@.len() == 9 && "resource_name"@.len() == 13 && "file_path"@.len() == 9
        && "chunk_index"@.len() == 11 && "content"@.len() == 7 && "content_hash"@.len() == 12
        && "start_line"@.len() == 10 && "end_line"@.len() == 8 && "embedding"@.len() == 9
        && "updated_at"@.len() == 10);
    assert("chunk_key"@[0] == 'c' && "file_path"@[0] == 'f' && "embedding"@[0] == 'e');
    assert("start_line"@[0] == 's' && "updated_at"@[0] == 'u');
}

/// Reading a batch of chunks gives back the chunks that it was made of, and
/// their fingerprints.
pub proof fn law_chunks_round_trip(rows: Seq<ChunkRow>, embed_dim: i32)
    ensures
        ({
            let columns = named_columns(chunk_fields(embed_dim), chunk_columns(rows, embed_dim));
            &&& has_chunks(columns, rows.len())
            &&& has_fingerprints(columns, rows.len())
            &&& forall|i: int| 0 <= i < rows.len() ==> #[trigger] chunk_at(columns, i) == rows[i]
            &&& forall|i: int|
                0 <= i < rows.len() ==> #[trigger] fingerprint_at(columns, i) == (
                    rows[i].chunk_index,
                    FingerprintView {
                        content_hash: rows[i].content_hash,
                        embedding: rows[i].embedding,
                    },
                )
        }),
{
    let fields = chunk_fields(embed_dim);
    let views = chunk_columns(rows, embed_dim);
    let columns = named_columns(fields, views);
    lemma_chunk_titles_differ(embed_dim);
    assert forall|k: int| 0 <= k < 10 implies named(columns, (#[trigger] fields[k]).name) == Some(
        views[k],
    ) by {
        assert(columns[k] == (fields[k].name, views[k]));
        assert forall|j: int| 0 <= j < k implies (#[trigger] columns[j]).0 != columns[k].0 by {
            assert(columns[j].0 == fields[j].name);
        }
        lemma_named(columns, k);
    }
    assert(fields[1].name == ChunkText::ResourceName.title());
    assert(fields[2].name == ChunkText::FilePath.title());
    assert(fields[3].name == ChunkInt::Index.title());
    assert(fields[4].name == ChunkText::Content.title());
    assert(fields[5].name == ChunkText::ContentHash.title());
    assert(fields[6].name == ChunkInt::StartLine.title());
    assert(fields[7].name == ChunkInt::EndLine.title());
    assert(fields[8].name == "embedding"@);
    assert(fields[9].name == ChunkText::UpdatedAt.title());
    assert forall|i: int| 0 <= i < rows.len() implies #[trigger] chunk_at(columns, i)
        == rows[i] by {
        assert(chunk_texts(rows, ChunkText::ResourceName)[i] == Some(rows[i].resource_name));
        assert(chunk_texts(rows, ChunkText::FilePath)[i] == Some(rows[i].file_path));
        assert(chunk_texts(rows, ChunkText::Content)[i] == Some(rows[i].content));
        assert(chunk_texts(rows, ChunkText::ContentHash)[i] == Some(rows[i].content_hash));
        assert(chunk_texts(rows, ChunkText::UpdatedAt)[i] == Some(rows[i].updated_at));
        assert(chunk_ints(rows, ChunkInt::Index)[i] == rows[i].chunk_index);
        assert(chunk_ints(rows, ChunkInt::StartLine)[i] == rows[i].start_line);
        assert(chunk_ints(rows, ChunkInt::EndLine)[i] == rows[i].end_line);
        assert(embeddings(rows)[i] == rows[i].embedding);
    }
    assert forall|i: int| 0 <= i < rows.len() implies #[trigger] fingerprint_at(columns, i) == (
        rows[i].chunk_index,
        FingerprintView { content_hash: rows[i].content_hash, embedding: rows[i].embedding },
    ) by {
        assert(chunk_at(columns, i) == rows[i]);
    }
}

proof fn lemma_resource_titles_differ()
    ensures
        forall|j: int, k: int|
            0 <= j < k < 9 ==> (#[trigger] resource_columns_in_order()[j]).title() != (
            #[trigger] resource_columns_in_order()[k]).title(),
{
    reveal_strlit("uri");
    reveal_strlit("name");
    reveal_strlit("status");
    reveal_strlit("indexing_status");
    reveal_strlit("indexing_status_message");
    reveal_strlit("created_at");
    reveal_strlit("indexing_started_at");
    reveal_strlit("last_indexed_at");
    reveal_strlit("last_error");
    assert("uri"@.len() == 3 && "name"@.len() == 4 && "status"@.len() == 6
        && "indexing_status"@.len() == 15 && "indexing_status_message"@.len() == 23
        && "created_at"@.len() == 10 && "indexing_started_at"@.len() == 19
        && "last_indexed_at"@.len() == 15 && "last_error"@.len() == 10);
    assert("indexing_status"@[0] == 'i' && "last_indexed_at"@[0] == 'l');
    assert("created_at"@[0] == 'c' && "last_error"@[0] == 'l');
}

/// Reading a batch of resources gives back the resources that it was made
/// of.
pub proof fn law_resources_round_trip(resources: Seq<ResourceView>)
    ensures
        ({
            let columns = named_columns(resource_fields(), resource_columns(resources));
            &&& has_resources(columns)
            &&& forall|i: int|
                0 <= i < resources.len() ==> #[trigger] resource_at(columns, i) == Ok::<
                    ResourceView,
                    ErrorView,
                >(resources[i])
        }),
{
    let order = resource_columns_in_order();
    let columns = named_columns(resource_fields(), resource_columns(resources));
    lemma_resource_titles_differ();
    assert forall|k: int| 0 <= k < 9 implies named(columns, (#[trigger] order[k]).title()) == Some(
        text_column_view(resource_texts(resources, order[k])),
    ) by {
        assert(columns[k] == (
            order[k].title(),
            text_column_view(resource_texts(resources, order[k])),
        ));
        assert forall|j: int| 0 <= j < k implies (#[trigger] columns[j]).0 != columns[k].0 by {
            assert(columns[j].0 == order[j].title());
        }
        lemma_named(columns, k);
    }
    assert(order[0] is Uri && order[1] is Name && order[2] is Status && order[3] is IndexingStatus
        && order[4] is IndexingStatusMessage && order[5] is CreatedAt
        && order[6] is IndexingStartedAt && order[7] is LastIndexedAt && order[8] is LastError);
    assert forall|column: ResourceText| named(columns, #[trigger] column.title()) == Some(
        text_column_view(resource_texts(resources, column)),
    ) by {
        match column {
            ResourceText::Uri => assert(order[0] == column),
            ResourceText::Name => assert(order[1] == column),
            ResourceText::Status => assert(order[2] == column),
            ResourceText::IndexingStatus => assert(order[3] == column),
            ResourceText::IndexingStatusMessage => assert(order[4] == column),
            ResourceText::CreatedAt => assert(order[5] == column),
            ResourceText::IndexingStartedAt => assert(order[6] == column),
            ResourceText::LastIndexedAt => assert(order[7] == column),
            ResourceText::LastError => assert(order[8] == column),
        }
    }
    assert forall|i: int| 0 <= i < resources.len() implies #[trigger] resource_at(columns, i)
        == Ok::<ResourceView, ErrorView>(resources[i]) by {
        let r = resources[i];
        law_resource_status_round_trips(r.status);
        law_indexing_status_round_trips(r.indexing_status);
        assert forall|column: ResourceText|
            #[trigger] resource_texts(resources, column)[i] == column.of(r) by {}
        assert(named(columns, ResourceText::Uri.title()) is Some);
        assert(resource_texts(resources, ResourceText::Uri)[i] == Some(r.uri));
        assert(resource_texts(resources, ResourceText::Name)[i] == Some(r.name));
        assert(resource_texts(resources, ResourceText::CreatedAt)[i] == Some(r.created_at));
        assert(resource_texts(resources, ResourceText::Status)[i] == Some(r.status.text()));
        assert(resource_texts(resources, ResourceText::IndexingStatus)[i] == Some(
            r.indexing_status.text(),
        ));
        assert(resource_texts(resources, ResourceText::IndexingStatusMessage)[i]
            == r.indexing_status_message);
        assert(resource_texts(resources, ResourceText::IndexingStartedAt)[i]
            == r.indexing_started_at);
        assert(resource_texts(resources, ResourceText::LastIndexedAt)[i] == r.last_indexed_at);
        assert(resource_texts(resources, ResourceText::LastError)[i] == r.last_error);
    }
}

} // verus!
