//! What holds of the two tables: which columns they have, what each column
//! holds of a record, and what is read from a row.

use crate::batch_laws::lemma_named;
use crate::batches::{
    chunk_at, chunk_columns, chunk_fields, chunk_ints, chunk_texts, embeddings, fingerprint_at,
    gathered, resource_at, resource_columns, resource_columns_in_order, resource_fields,
    resource_texts, resources_in, ChunkInt, ChunkText,
};
use crate::columns::{
    batch_columns, batch_rows, named_columns, text_size, ArrowBatch, ColumnKind, ColumnValues,
    ColumnView, FieldView,
};
use crate::db::{ChunkRow, IndexingStatus, ResourceStatus, ResourceView};
use crate::error::ErrorView;
use crate::store_laws::{
    indexing_letters, law_indexing_statuses_have_one_stored_form, law_other_texts_are_no_status,
    law_resource_statuses_have_one_stored_form, lemma_rows_before, rows_before, status_letters,
};
use vstd::prelude::*;
use vstd::utf8::encode_utf8;

verus! {

/// Whether a field is a column of that name and type without nulls.
pub open spec fn is_full(field: FieldView, name: Seq<char>, kind: ColumnKind) -> bool {
    field.name == name && field.kind == kind && !field.nullable
}

/// The chunks table has the key and every part of a chunk as a column, none
/// of them with nulls; the embeddings are vectors of the table's dimension.
pub proof fn law_chunks_table_has_these_columns(embed_dim: i32)
    ensures
        chunk_fields(embed_dim).len() == 10,
        is_full(chunk_fields(embed_dim)[0], "chunk_key"@, ColumnKind::Text),
        is_full(chunk_fields(embed_dim)[1], "resource_name"@, ColumnKind::Text),
        is_full(chunk_fields(embed_dim)[2], "file_path"@, ColumnKind::Text),
        is_full(chunk_fields(embed_dim)[3], "chunk_index"@, ColumnKind::Int),
        is_full(chunk_fields(embed_dim)[4], "content"@, ColumnKind::Text),
        is_full(chunk_fields(embed_dim)[5], "content_hash"@, ColumnKind::Text),
        is_full(chunk_fields(embed_dim)[6], "start_line"@, ColumnKind::Int),
        is_full(chunk_fields(embed_dim)[7], "end_line"@, ColumnKind::Int),
        is_full(chunk_fields(embed_dim)[8], "embedding"@, ColumnKind::Vector(embed_dim)),
        is_full(chunk_fields(embed_dim)[9], "updated_at"@, ColumnKind::Text),
{
}

/// Whether a named column holds just `text` in a row.
pub open spec fn has_cell(
    column: (Seq<char>, ColumnView),
    name: Seq<char>,
    row: int,
    text: Seq<char>,
) -> bool {
    &&& column.0 == name
    &&& !column.1.nulls[row]
    &&& column.1.values matches ColumnValues::Text(values) && values[row] == text
}

/// Whether a named column holds just `number` in a row.
pub open spec fn has_number(
    column: (Seq<char>, ColumnView),
    name: Seq<char>,
    row: int,
    number: i32,
) -> bool {
    &&& column.0 == name
    &&& !column.1.nulls[row]
    &&& column.1.values matches ColumnValues::Int(values) && values[row] == number
}

/// A row of the chunks table holds the parts of its chunk, each in the column
/// of its name, and the chunk's key in the column that rows are matched on.
pub proof fn law_chunks_are_written_by_column(rows: Seq<ChunkRow>, embed_dim: i32, i: int)
    requires
        0 <= i < rows.len(),
    ensures
        ({
            let columns = named_columns(chunk_fields(embed_dim), chunk_columns(rows, embed_dim));
            &&& columns.len() == 10
            &&& forall|k: int| 0 <= k < 10 ==> (#[trigger] columns[k]).1.len() == rows.len()
            &&& has_cell(columns[0], "chunk_key"@, i, rows[i].key())
            &&& has_cell(columns[1], "resource_name"@, i, rows[i].resource_name)
            &&& has_cell(columns[2], "file_path"@, i, rows[i].file_path)
            &&& has_number(columns[3], "chunk_index"@, i, rows[i].chunk_index)
            &&& has_cell(columns[4], "content"@, i, rows[i].content)
            &&& has_cell(columns[5], "content_hash"@, i, rows[i].content_hash)
            &&& has_number(columns[6], "start_line"@, i, rows[i].start_line)
            &&& has_number(columns[7], "end_line"@, i, rows[i].end_line)
            &&& columns[8].0 == "embedding"@
            &&& !columns[8].1.nulls[i]
            &&& columns[8].1.values matches ColumnValues::Vectors { size, rows: vectors, .. }
                && size == embed_dim && vectors[i] == rows[i].embedding
            &&& has_cell(columns[9], "updated_at"@, i, rows[i].updated_at)
        }),
{
    let columns = named_columns(chunk_fields(embed_dim), chunk_columns(rows, embed_dim));
    assert(columns.len() == 10);
    assert(chunk_texts(rows, ChunkText::Key)[i] == Some(rows[i].key()));
    assert(chunk_texts(rows, ChunkText::ResourceName)[i] == Some(rows[i].resource_name));
    assert(chunk_texts(rows, ChunkText::FilePath)[i] == Some(rows[i].file_path));
    assert(chunk_texts(rows, ChunkText::Content)[i] == Some(rows[i].content));
    assert(chunk_texts(rows, ChunkText::ContentHash)[i] == Some(rows[i].content_hash));
    assert(chunk_texts(rows, ChunkText::UpdatedAt)[i] == Some(rows[i].updated_at));
    assert(chunk_ints(rows, ChunkInt::Index)[i] == rows[i].chunk_index);
    assert(chunk_ints(rows, ChunkInt::StartLine)[i] == rows[i].start_line);
    assert(chunk_ints(rows, ChunkInt::EndLine)[i] == rows[i].end_line);
    assert(embeddings(rows)[i] == rows[i].embedding);
}

/// The resources table has every part of a resource as a column of strings;
/// just those that a resource can be without may be null.
pub proof fn law_resources_table_has_these_columns()
    ensures
        resource_fields() == seq![
            FieldView { name: "uri"@, kind: ColumnKind::Text, nullable: false },
            FieldView { name: "name"@, kind: ColumnKind::Text, nullable: false },
            FieldView { name: "status"@, kind: ColumnKind::Text, nullable: false },
            FieldView { name: "indexing_status"@, kind: ColumnKind::Text, nullable: false },
            FieldView { name: "indexing_status_message"@, kind: ColumnKind::Text, nullable: true },
            FieldView { name: "created_at"@, kind: ColumnKind::Text, nullable: false },
            FieldView { name: "indexing_started_at"@, kind: ColumnKind::Text, nullable: true },
            FieldView { name: "last_indexed_at"@, kind: ColumnKind::Text, nullable: true },
            FieldView { name: "last_error"@, kind: ColumnKind::Text, nullable: true },
        ],
{
    assert(resource_fields() =~= seq![
        FieldView { name: "uri"@, kind: ColumnKind::Text, nullable: false },
        FieldView { name: "name"@, kind: ColumnKind::Text, nullable: false },
        FieldView { name: "status"@, kind: ColumnKind::Text, nullable: false },
        FieldView { name: "indexing_status"@, kind: ColumnKind::Text, nullable: false },
        FieldView { name: "indexing_status_message"@, kind: ColumnKind::Text, nullable: true },
        FieldView { name: "created_at"@, kind: ColumnKind::Text, nullable: false },
        FieldView { name: "indexing_started_at"@, kind: ColumnKind::Text, nullable: true },
        FieldView { name: "last_indexed_at"@, kind: ColumnKind::Text, nullable: true },
        FieldView { name: "last_error"@, kind: ColumnKind::Text, nullable: true },
    ]);
}

/// Whether a named column holds `text` in a row, or a null where there is
/// none.
pub open spec fn has_opt_cell(
    column: (Seq<char>, ColumnView),
    name: Seq<char>,
    row: int,
    text: Option<Seq<char>>,
) -> bool {
    match text {
        Some(text) => has_cell(column, name, row, text),
        None => column.0 == name && column.1.nulls[row],
    }
}

/// A row of the resources table holds the parts of its resource, each in the
/// column of its name, a missing one as a null, and the statuses by their
/// letters.
pub proof fn law_resources_are_written_by_column(resources: Seq<ResourceView>, i: int)
    requires
        0 <= i < resources.len(),
    ensures
        ({
            let columns = named_columns(resource_fields(), resource_columns(resources));
            let r = resources[i];
            &&& columns.len() == 9
            &&& forall|k: int| 0 <= k < 9 ==> (#[trigger] columns[k]).1.len() == resources.len()
            &&& has_cell(columns[0], "uri"@, i, r.uri)
            &&& has_cell(columns[1], "name"@, i, r.name)
            &&& has_cell(columns[2], "status"@, i, status_letters(r.status))
            &&& has_cell(columns[3], "indexing_status"@, i, indexing_letters(r.indexing_status))
            &&& has_opt_cell(columns[4], "indexing_status_message"@, i, r.indexing_status_message)
            &&& has_cell(columns[5], "created_at"@, i, r.created_at)
            &&& has_opt_cell(columns[6], "indexing_started_at"@, i, r.indexing_started_at)
            &&& has_opt_cell(columns[7], "last_indexed_at"@, i, r.last_indexed_at)
            &&& has_opt_cell(columns[8], "last_error"@, i, r.last_error)
        }),
{
    let order = resource_columns_in_order();
    let columns = named_columns(resource_fields(), resource_columns(resources));
    let r = resources[i];
    law_resource_statuses_have_one_stored_form(r.status.text(), r.status);
    law_indexing_statuses_have_one_stored_form(r.indexing_status.text(), r.indexing_status);
    assert(columns.len() == 9);
    assert forall|k: int| 0 <= k < 9 implies (#[trigger] columns[k]).0 == order[k].title()
        && columns[k].1.len() == resources.len() && has_opt_cell(
        columns[k],
        order[k].title(),
        i,
        order[k].of(r),
    ) by {
        assert(resource_texts(resources, order[k])[i] == order[k].of(r));
    }
    assert(order[0] is Uri && order[1] is Name && order[2] is Status && order[3] is IndexingStatus
        && order[4] is IndexingStatusMessage && order[5] is CreatedAt
        && order[6] is IndexingStartedAt && order[7] is LastIndexedAt && order[8] is LastError);
    assert(has_opt_cell(columns[0], "uri"@, i, Some(r.uri)));
    assert(has_opt_cell(columns[1], "name"@, i, Some(r.name)));
    assert(has_opt_cell(columns[2], "status"@, i, Some(r.status.text())));
    assert(has_opt_cell(columns[3], "indexing_status"@, i, Some(r.indexing_status.text())));
    assert(has_opt_cell(columns[4], "indexing_status_message"@, i, r.indexing_status_message));
    assert(has_opt_cell(columns[5], "created_at"@, i, Some(r.created_at)));
    assert(has_opt_cell(columns[6], "indexing_started_at"@, i, r.indexing_started_at));
    assert(has_opt_cell(columns[7], "last_indexed_at"@, i, r.last_indexed_at));
    assert(has_opt_cell(columns[8], "last_error"@, i, r.last_error));
}

/// Whether the first column of the given name is the `k`th.
pub open spec fn is_first_named(
    columns: Seq<(Seq<char>, ColumnView)>,
    k: int,
    name: Seq<char>,
) -> bool {
    &&& 0 <= k < columns.len()
    &&& columns[k].0 == name
    &&& forall|j: int| 0 <= j < k ==> (#[trigger] columns[j]).0 != name
}

/// A chunk and its fingerprint are read from the columns of their parts'
/// names, wherever these columns stand and whatever others stand beside them.
pub proof fn law_chunks_are_read_by_column(columns: Seq<(Seq<char>, ColumnView)>, k: int, row: int)
    ensures
        columns[k].1.values matches ColumnValues::Text(values) ==> {
            let chunk = chunk_at(columns, row);
            &&& is_first_named(columns, k, "resource_name"@) ==> chunk.resource_name == values[row]
            &&& is_first_named(columns, k, "file_path"@) ==> chunk.file_path == values[row]
            &&& is_first_named(columns, k, "content"@) ==> chunk.content == values[row]
            &&& is_first_named(columns, k, "content_hash"@) ==> chunk.content_hash == values[row]
                && fingerprint_at(columns, row).1.content_hash == values[row]
            &&& is_first_named(columns, k, "updated_at"@) ==> chunk.updated_at == values[row]
        },
        columns[k].1.values matches ColumnValues::Int(values) ==> {
            let chunk = chunk_at(columns, row);
            &&& is_first_named(columns, k, "chunk_index"@) ==> chunk.chunk_index == values[row]
                && fingerprint_at(columns, row).0 == values[row]
            &&& is_first_named(columns, k, "start_line"@) ==> chunk.start_line == values[row]
            &&& is_first_named(columns, k, "end_line"@) ==> chunk.end_line == values[row]
        },
        columns[k].1.values matches ColumnValues::Vectors { rows: vectors, .. } ==> (
        is_first_named(columns, k, "embedding"@) ==> chunk_at(columns, row).embedding
            == vectors[row] && fingerprint_at(columns, row).1.embedding == vectors[row]),
{
    if 0 <= k < columns.len() && forall|j: int|
        0 <= j < k ==> (#[trigger] columns[j]).0 != columns[k].0 {
        lemma_named(columns, k);
    }
}

/// The text that a cell of a column stands for, a null for none.
pub open spec fn cell_of(column: ColumnView, row: int) -> Option<Seq<char>> {
    if column.nulls[row] {
        None
    } else {
        Some(column.values->Text_0[row])
    }
}

/// A resource is read from the columns of its parts' names, wherever these
/// columns stand: a null is a missing part, and the statuses are those whose
/// letters are there.
pub proof fn law_resources_are_read_by_column(
    columns: Seq<(Seq<char>, ColumnView)>,
    k: int,
    row: int,
)
    ensures
        columns[k].1.values matches ColumnValues::Text(values) ==> (resource_at(
            columns,
            row,
        ) matches Ok(r) ==> {
            &&& is_first_named(columns, k, "uri"@) ==> r.uri == values[row]
            &&& is_first_named(columns, k, "name"@) ==> r.name == values[row]
            &&& is_first_named(columns, k, "status"@) ==> status_letters(r.status) == values[row]
            &&& is_first_named(columns, k, "indexing_status"@) ==> indexing_letters(
                r.indexing_status,
            ) == values[row]
            &&& is_first_named(columns, k, "indexing_status_message"@)
                ==> r.indexing_status_message == cell_of(columns[k].1, row)
            &&& is_first_named(columns, k, "created_at"@) ==> r.created_at == values[row]
            &&& is_first_named(columns, k, "indexing_started_at"@) ==> r.indexing_started_at
                == cell_of(columns[k].1, row)
            &&& is_first_named(columns, k, "last_indexed_at"@) ==> r.last_indexed_at == cell_of(
                columns[k].1,
                row,
            )
            &&& is_first_named(columns, k, "last_error"@) ==> r.last_error == cell_of(
                columns[k].1,
                row,
            )
        }),
{
    if 0 <= k < columns.len() && forall|j: int|
        0 <= j < k ==> (#[trigger] columns[j]).0 != columns[k].0 {
        lemma_named(columns, k);
        if let Ok(r) = resource_at(columns, row) {
            law_resource_statuses_have_one_stored_form(columns[k].1.values->Text_0[row], r.status);
            law_indexing_statuses_have_one_stored_form(
                columns[k].1.values->Text_0[row],
                r.indexing_status,
            );
        }
    }
}

/// A row is no resource exactly if one of its two statuses is none that is
/// known; the error quotes it, the resource's own status first.
pub proof fn law_unknown_statuses_are_refused(
    columns: Seq<(Seq<char>, ColumnView)>,
    k: int,
    l: int,
    row: int,
)
    requires
        is_first_named(columns, k, "status"@),
        is_first_named(columns, l, "indexing_status"@),
        columns[k].1.values is Text,
        columns[l].1.values is Text,
    ensures
        ({
            let status = columns[k].1.values->Text_0[row];
            let indexing = columns[l].1.values->Text_0[row];
            let known = exists|s: ResourceStatus| status == #[trigger] status_letters(s);
            let indexing_known = exists|s: IndexingStatus|
                indexing == #[trigger] indexing_letters(s);
            &&& resource_at(columns, row) is Ok <==> known && indexing_known
            &&& !known ==> resource_at(columns, row) == Err::<ResourceView, ErrorView>(
                ErrorView::Storage("unknown resource status: "@ + status),
            )
            &&& known && !indexing_known ==> resource_at(columns, row) == Err::<
                ResourceView,
                ErrorView,
            >(ErrorView::Storage("unknown indexing status: "@ + indexing))
        }),
{
    let status = columns[k].1.values->Text_0[row];
    let indexing = columns[l].1.values->Text_0[row];
    lemma_named(columns, k);
    lemma_named(columns, l);
    law_other_texts_are_no_status(status);
    law_other_texts_are_no_status(indexing);
}

/// Every row of every batch is read, once, in the order of the batches and
/// within a batch in the order of its rows.
pub proof fn law_every_resource_is_read_in_order(batches: Seq<ArrowBatch>)
    ensures
        resources_in(batches).len() == rows_before(batches, batches.len() as int),
        forall|n: int, i: int|
            #![trigger resource_at(batch_columns(batches[n]), i)]
            0 <= n < batches.len() && 0 <= i < batch_rows(batches[n]) ==> resources_in(
                batches,
            )[rows_before(batches, n) + i] == resource_at(batch_columns(batches[n]), i),
    decreases batches.len(),
{
    if batches.len() > 0 {
        let all = batches.len() as int;
        let shorter = batches.drop_last();
        assert(shorter =~= batches.take(all - 1));
        law_every_resource_is_read_in_order(shorter);
        lemma_rows_before(batches, all - 1, all - 1);
        assert forall|n: int, i: int|
            #![trigger resource_at(batch_columns(batches[n]), i)]
            0 <= n < batches.len() && 0 <= i < batch_rows(batches[n]) implies resources_in(
            batches,
        )[rows_before(batches, n) + i] == resource_at(batch_columns(batches[n]), i) by {
            if n < all - 1 {
                lemma_rows_before(batches, n, all - 1);
                lemma_rows_before(batches, n + 1, all - 1);
                assert(shorter[n] == batches[n]);
                assert(resources_in(shorter)[rows_before(shorter, n) + i] == resource_at(
                    batch_columns(shorter[n]),
                    i,
                ));
            }
        }
    }
}

/// The size of a column is the number of bytes that its texts are in UTF-8,
/// all taken together; a null has none.
pub proof fn law_sizes_are_counted_in_bytes(
    text: Seq<char>,
    first: Seq<Option<Seq<char>>>,
    second: Seq<Option<Seq<char>>>,
)
    ensures
        text_size(seq![Some(text)]) == encode_utf8(text).len(),
        text_size(seq![None]) == 0,
        text_size(first + second) == text_size(first) + text_size(second),
    decreases second.len(),
{
    reveal_with_fuel(text_size, 2);
    if second.len() == 0 {
        assert(first + second =~= first);
    } else {
        law_sizes_are_counted_in_bytes(text, first, second.drop_last());
        assert((first + second).drop_last() =~= first + second.drop_last());
    }
}

/// Gathering gives all the resources in order if every row is one, and else
/// the error of the first row that is none.
pub proof fn law_gathering_stops_at_the_first_error(
    results: Seq<Result<ResourceView, ErrorView>>,
)
    ensures
        gathered(results) is Ok <==> forall|i: int|
            0 <= i < results.len() ==> (#[trigger] results[i]) is Ok,
        gathered(results) matches Ok(resources) ==> resources.len() == results.len() && forall|
            i: int,
        |
            0 <= i < results.len() ==> #[trigger] results[i] == Ok::<ResourceView, ErrorView>(
                resources[i],
            ),
        gathered(results) matches Err(e) ==> exists|i: int|
            0 <= i < results.len() && #[trigger] results[i] == Err::<ResourceView, ErrorView>(e)
                && forall|j: int| 0 <= j < i ==> (#[trigger] results[j]) is Ok,
    decreases results.len(),
{
    if results.len() > 0 {
        let shorter = results.drop_last();
        law_gathering_stops_at_the_first_error(shorter);
        assert forall|i: int| 0 <= i < shorter.len() implies #[trigger] shorter[i]
            == results[i] by {}
        match gathered(shorter) {
            Ok(_) => {
                assert forall|i: int| 0 <= i < shorter.len() implies (
                #[trigger] results[i]) is Ok by {
                    assert(shorter[i] is Ok);
                }
                if let Ok(resources) = gathered(results) {
                    assert forall|i: int| 0 <= i < results.len() implies #[trigger] results[i]
                        == Ok::<ResourceView, ErrorView>(resources[i]) by {
                        if i < shorter.len() {
                            assert(shorter[i] == results[i]);
                        }
                    }
                } else {
                    assert(results[results.len() - 1] is Err);
                }
            },
            Err(e) => {
                let i = choose|i: int|
                    0 <= i < shorter.len() && #[trigger] shorter[i] == Err::<
                        ResourceView,
                        ErrorView,
                    >(e) && forall|j: int| 0 <= j < i ==> (#[trigger] shorter[j]) is Ok;
                assert(results[i] == shorter[i]);
                assert forall|j: int| 0 <= j < i implies (#[trigger] results[j]) is Ok by {
                    assert(shorter[j] is Ok);
                }
            },
        }
    }
}

} // verus!
