//! Records to and from Arrow record batches: the columns of the resource and
//! chunk tables, and what each row of a batch says.

use arrow_schema::{ArrowError, Schema};
use crate::columns::{
    batch_columns, batch_rows, bit_rows, column_by_name, column_contents, contents, field_views,
    fit_fields, int_column, int_column_view, int_value, is_int, is_lists, is_null, is_text,
    is_vectors, named, named_columns, new_batch, num_rows, schema_fields, schema_of, text_column,
    text_column_view, text_size, text_value, vector_column, vector_column_view, vector_value,
    ArrowBatch, ArrowColumn, ColumnKind, ColumnView, FieldSpec, FieldView,
};
use crate::db::{
    chunk_rows, resource_views, ChunkFingerprint, ChunkRecord, ChunkRow, FingerprintView,
    IndexingStatus, ResourceRecord, ResourceStatus, ResourceView,
};
use crate::error::{ErrorView, RagdError};
use crate::text::{copy_opt, opt_text, opt_texts};
use std::sync::Arc;
use vstd::prelude::*;
use vstd::string::*;

verus! {

/// The string columns of the chunks table.
#[derive(Debug, Clone, Copy, PartialEq, Eq, Structural)]
pub enum ChunkText {
    Key,
    ResourceName,
    FilePath,
    Content,
    ContentHash,
    UpdatedAt,
}

impl ChunkText {
    /// The name of the column.
    pub open spec fn title(self) -> Seq<char> {
        match self {
            ChunkText::Key => "chunk_key"@,
            ChunkText::ResourceName => "resource_name"@,
            ChunkText::FilePath => "file_path"@,
            ChunkText::Content => "content"@,
            ChunkText::ContentHash => "content_hash"@,
            ChunkText::UpdatedAt => "updated_at"@,
        }
    }

    /// What the column holds of a chunk.
    pub open spec fn of(self, row: ChunkRow) -> Seq<char> {
        match self {
            ChunkText::Key => row.key(),
            ChunkText::ResourceName => row.resource_name,
            ChunkText::FilePath => row.file_path,
            ChunkText::Content => row.content,
            ChunkText::ContentHash => row.content_hash,
            ChunkText::UpdatedAt => row.updated_at,
        }
    }

    /// The name of the column.
    fn name(self) -> (r: &'static str)
        ensures
            r@ == self.title(),
    {
        match self {
            ChunkText::Key => "chunk_key",
            ChunkText::ResourceName => "resource_name",
            ChunkText::FilePath => "file_path",
            ChunkText::Content => "content",
            ChunkText::ContentHash => "content_hash",
            ChunkText::UpdatedAt => "updated_at",
        }
    }

    /// What the column holds of a chunk.
    fn take(self, chunk: &ChunkRecord) -> (r: String)
        ensures
            r@ == self.of(chunk@),
    {
        match self {
            ChunkText::Key => chunk.chunk_key(),
            ChunkText::ResourceName => chunk.resource_name.clone(),
            ChunkText::FilePath => chunk.file_path.clone(),
            ChunkText::Content => chunk.content.clone(),
            ChunkText::ContentHash => chunk.content_hash.clone(),
            ChunkText::UpdatedAt => chunk.updated_at.clone(),
        }
    }
}

/// The integer columns of the chunks table.
#[derive(Debug, Clone, Copy, PartialEq, Eq, Structural)]
pub enum ChunkInt {
    Index,
    StartLine,
    EndLine,
}

impl ChunkInt {
    /// The name of the column.
    pub open spec fn title(self) -> Seq<char> {
        match self {
            ChunkInt::Index => "chunk_index"@,
            ChunkInt::StartLine => "start_line"@,
            ChunkInt::EndLine => "end_line"@,
        }
    }

    /// What the column holds of a chunk.
    pub open spec fn of(self, row: ChunkRow) -> i32 {
        match self {
            ChunkInt::Index => row.chunk_index,
            ChunkInt::StartLine => row.start_line,
            ChunkInt::EndLine => row.end_line,
        }
    }

    /// The name of the column.
    fn name(self) -> (r: &'static str)
        ensures
            r@ == self.title(),
    {
        match self {
            ChunkInt::Index => "chunk_index",
            ChunkInt::StartLine => "start_line",
            ChunkInt::EndLine => "end_line",
        }
    }

    /// What the column holds of a chunk.
    fn take(self, chunk: &ChunkRecord) -> (r: i32)
        ensures
            r == self.of(chunk@),
    {
        match self {
            ChunkInt::Index => chunk.chunk_index,
            ChunkInt::StartLine => chunk.start_line,
            ChunkInt::EndLine => chunk.end_line,
        }
    }
}

/// A field of the given name and type.
pub open spec fn field(name: Seq<char>, kind: ColumnKind, nullable: bool) -> FieldView {
    FieldView { name, kind, nullable }
}

/// The columns of the chunks table, for embeddings of the given dimension.
pub open spec fn chunk_fields(embed_dim: i32) -> Seq<FieldView> {
    seq![
        field(ChunkText::Key.title(), ColumnKind::Text, false),
        field(ChunkText::ResourceName.title(), ColumnKind::Text, false),
        field(ChunkText::FilePath.title(), ColumnKind::Text, false),
        field(ChunkInt::Index.title(), ColumnKind::Int, false),
        field(ChunkText::Content.title(), ColumnKind::Text, false),
        field(ChunkText::ContentHash.title(), ColumnKind::Text, false),
        field(ChunkInt::StartLine.title(), ColumnKind::Int, false),
        field(ChunkInt::EndLine.title(), ColumnKind::Int, false),
        field("embedding"@, ColumnKind::Vector(embed_dim), false),
        field(ChunkText::UpdatedAt.title(), ColumnKind::Text, false),
    ]
}

fn text_field(name: &str, nullable: bool) -> (r: FieldSpec)
    ensures
        r@ == field(name@, ColumnKind::Text, nullable),
{
    FieldSpec { name: name.to_owned(), kind: ColumnKind::Text, nullable }
}

fn int_field(name: &str) -> (r: FieldSpec)
    ensures
        r@ == field(name@, ColumnKind::Int, false),
{
    FieldSpec { name: name.to_owned(), kind: ColumnKind::Int, nullable: false }
}

/// The schema of the chunks table, for embeddings of the given dimension.
pub fn chunks_schema(embed_dim: usize) -> (r: Arc<Schema>)
    requires
        embed_dim <= i32::MAX,
    ensures
        schema_fields(*r) == Some(chunk_fields(embed_dim as i32)),
{
    let mut fields: Vec<FieldSpec> = Vec::new();
    fields.push(text_field(ChunkText::Key.name(), false));
    fields.push(text_field(ChunkText::ResourceName.name(), false));
    fields.push(text_field(ChunkText::FilePath.name(), false));
    fields.push(int_field(ChunkInt::Index.name()));
    fields.push(text_field(ChunkText::Content.name(), false));
    fields.push(text_field(ChunkText::ContentHash.name(), false));
    fields.push(int_field(ChunkInt::StartLine.name()));
    fields.push(int_field(ChunkInt::EndLine.name()));
    fields.push(
        FieldSpec {
            name: "embedding".to_owned(),
            kind: ColumnKind::Vector(embed_dim as i32),
            nullable: false,
        },
    );
    fields.push(text_field(ChunkText::UpdatedAt.name(), false));
    assert(field_views(fields@) =~= chunk_fields(embed_dim as i32));
    schema_of(&fields)
}

/// A string column of the chunks, in turn.
pub open spec fn chunk_texts(rows: Seq<ChunkRow>, column: ChunkText) -> Seq<Option<Seq<char>>> {
    rows.map_values(|r: ChunkRow| Some(column.of(r)))
}

/// An integer column of the chunks, in turn.
pub open spec fn chunk_ints(rows: Seq<ChunkRow>, column: ChunkInt) -> Seq<i32> {
    rows.map_values(|r: ChunkRow| column.of(r))
}

/// The embeddings of the chunks, in turn.
pub open spec fn embeddings(rows: Seq<ChunkRow>) -> Seq<Seq<u32>> {
    rows.map_values(|r: ChunkRow| r.embedding)
}

/// What the columns of the chunks table hold of the given chunks.
pub open spec fn chunk_columns(rows: Seq<ChunkRow>, embed_dim: i32) -> Seq<ColumnView> {
    seq![
        text_column_view(chunk_texts(rows, ChunkText::Key)),
        text_column_view(chunk_texts(rows, ChunkText::ResourceName)),
        text_column_view(chunk_texts(rows, ChunkText::FilePath)),
        int_column_view(chunk_ints(rows, ChunkInt::Index)),
        text_column_view(chunk_texts(rows, ChunkText::Content)),
        text_column_view(chunk_texts(rows, ChunkText::ContentHash)),
        int_column_view(chunk_ints(rows, ChunkInt::StartLine)),
        int_column_view(chunk_ints(rows, ChunkInt::EndLine)),
        vector_column_view(embeddings(rows), embed_dim),
        text_column_view(chunk_texts(rows, ChunkText::UpdatedAt)),
    ]
}

/// Whether every embedding is of the given dimension.
pub open spec fn of_dimension(rows: Seq<ChunkRow>, embed_dim: int) -> bool {
    forall|i: int| 0 <= i < rows.len() ==> (#[trigger] rows[i]).embedding.len() == embed_dim
}

/// Whether each string column of the chunks stays within the two gigabytes
/// that an Arrow array of strings can hold.
pub open spec fn chunk_texts_fit(rows: Seq<ChunkRow>) -> bool {
    forall|column: ChunkText| text_size(#[trigger] chunk_texts(rows, column)) <= i32::MAX
}

fn chunk_text_values(chunks: &Vec<ChunkRecord>, column: ChunkText) -> (r: Vec<Option<String>>)
    ensures
        opt_texts(r@) == chunk_texts(chunk_rows(chunks@), column),
{
    let mut r: Vec<Option<String>> = Vec::new();
    for i in 0..chunks.len()
        invariant
            r@.len() == i,
            forall|j: int|
                0 <= j < i ==> opt_text(#[trigger] r@[j]) == Some(column.of(chunks@[j]@)),
    {
        r.push(Some(column.take(&chunks[i])));
    }
    assert(opt_texts(r@) =~= chunk_texts(chunk_rows(chunks@), column));
    r
}

fn chunk_text_column(chunks: &Vec<ChunkRecord>, column: ChunkText) -> (r: ArrowColumn)
    requires
        chunk_texts_fit(chunk_rows(chunks@)),
    ensures
        column_contents(r) == text_column_view(chunk_texts(chunk_rows(chunks@), column)),
{
    let values = chunk_text_values(chunks, column);
    text_column(&values)
}

fn chunk_int_column(chunks: &Vec<ChunkRecord>, column: ChunkInt) -> (r: ArrowColumn)
    ensures
        column_contents(r) == int_column_view(chunk_ints(chunk_rows(chunks@), column)),
{
    let mut values: Vec<i32> = Vec::new();
    for i in 0..chunks.len()
        invariant
            values@.len() == i,
            forall|j: int| 0 <= j < i ==> #[trigger] values@[j] == column.of(chunks@[j]@),
    {
        values.push(column.take(&chunks[i]));
    }
    assert(values@ =~= chunk_ints(chunk_rows(chunks@), column));
    int_column(&values)
}

fn embedding_column(chunks: &Vec<ChunkRecord>, size: i32) -> (r: ArrowColumn)
    requires
        size >= 0,
        of_dimension(chunk_rows(chunks@), size as int),
    ensures
        size > 0 ==> column_contents(r) == vector_column_view(
            embeddings(chunk_rows(chunks@)),
            size,
        ),
        size == 0 ==> column_contents(r) == vector_column_view(seq![], size),
{
    let ghost all = chunk_rows(chunks@);
    let mut rows: Vec<Vec<u32>> = Vec::new();
    for i in 0..chunks.len()
        invariant
            all == chunk_rows(chunks@),
            of_dimension(all, size as int),
            rows@.len() == i,
            forall|j: int| 0 <= j < i ==> (#[trigger] rows@[j])@ == chunks@[j]@.embedding,
            forall|j: int| 0 <= j < i ==> (#[trigger] rows@[j])@.len() == size,
    {
        let row = chunks[i].embedding.clone();
        assert(row@ =~= chunks@[i as int]@.embedding);
        assert(all[i as int] == chunks@[i as int]@);
        rows.push(row);
    }
    assert(bit_rows(rows@) =~= embeddings(all));
    vector_column(&rows, size)
}

/// The chunks as a batch for the chunks table. Chunks of dimension zero make
/// no batch, unless there are none.
pub fn chunks_to_record_batch(chunks: &Vec<ChunkRecord>, embed_dim: usize) -> (r: Result<
    ArrowBatch,
    ArrowError,
>)
    requires
        embed_dim <= i32::MAX,
        of_dimension(chunk_rows(chunks@), embed_dim as int),
        chunk_texts_fit(chunk_rows(chunks@)),
    ensures
        r is Ok <==> embed_dim > 0 || chunks@.len() == 0,
        r matches Ok(batch) ==> {
            &&& batch_columns(batch) == named_columns(
                chunk_fields(embed_dim as i32),
                chunk_columns(chunk_rows(chunks@), embed_dim as i32),
            )
            &&& batch_rows(batch) == chunks@.len()
        },
{
    let schema = chunks_schema(embed_dim);
    let mut columns: Vec<ArrowColumn> = Vec::new();
    columns.push(chunk_text_column(chunks, ChunkText::Key));
    columns.push(chunk_text_column(chunks, ChunkText::ResourceName));
    columns.push(chunk_text_column(chunks, ChunkText::FilePath));
    columns.push(chunk_int_column(chunks, ChunkInt::Index));
    columns.push(chunk_text_column(chunks, ChunkText::Content));
    columns.push(chunk_text_column(chunks, ChunkText::ContentHash));
    columns.push(chunk_int_column(chunks, ChunkInt::StartLine));
    columns.push(chunk_int_column(chunks, ChunkInt::EndLine));
    columns.push(embedding_column(chunks, embed_dim as i32));
    columns.push(chunk_text_column(chunks, ChunkText::UpdatedAt));
    proof {
        let fields = chunk_fields(embed_dim as i32);
        let rows = chunk_rows(chunks@);
        let views = contents(columns@);
        if embed_dim > 0 || chunks@.len() == 0 {
            assert(embeddings(rows).len() == 0 ==> embeddings(rows) =~= seq![]);
            assert(views =~= chunk_columns(rows, embed_dim as i32));
            assert forall|i: int| 0 <= i < views.len() implies (#[trigger] views[i]).is_of(
                fields[i].kind,
            ) by {}
            assert(fit_fields(fields, views));
        } else {
            assert(views[8].len() != views[0].len());
        }
    }
    new_batch(schema, columns)
}

/// Whether all the strings together stay within what an Arrow array of
/// strings can hold.
fn text_fits(values: &Vec<Option<String>>) -> (r: bool)
    ensures
        r == (text_size(opt_texts(values@)) <= i32::MAX),
{
    let ghost all = opt_texts(values@);
    let mut size: u64 = 0;
    for i in 0..values.len()
        invariant
            all == opt_texts(values@),
            size == text_size(all.take(i as int)),
            size <= i32::MAX,
    {
        let ghost next = all.take(i + 1);
        assert(next.drop_last() =~= all.take(i as int));
        assert(next.last() == opt_text(values@[i as int]));
        if let Some(text) = &values[i] {
            let more: usize = text.as_str().as_bytes().len();
            if more > i32::MAX as usize || size + more as u64 > i32::MAX as u64 {
                proof {
                    lemma_text_size_grows(all, i + 1);
                }
                return false;
            }
            size = size + more as u64;
        }
    }
    assert(all.take(all.len() as int) =~= all);
    true
}

proof fn lemma_text_size_grows(values: Seq<Option<Seq<char>>>, n: int)
    requires
        0 <= n <= values.len(),
    ensures
        text_size(values.take(n)) <= text_size(values),
    decreases values.len() - n,
{
    if n == values.len() {
        assert(values.take(n) =~= values);
    } else {
        lemma_text_size_grows(values, n + 1);
        assert(values.take(n + 1).drop_last() =~= values.take(n));
    }
}

/// Whether each string column of the chunks stays within what an Arrow array
/// of strings can hold.
pub fn chunks_fit(chunks: &Vec<ChunkRecord>) -> (r: bool)
    ensures
        r == chunk_texts_fit(chunk_rows(chunks@)),
{
    let key = chunk_text_values(chunks, ChunkText::Key);
    let resource_name = chunk_text_values(chunks, ChunkText::ResourceName);
    let file_path = chunk_text_values(chunks, ChunkText::FilePath);
    let content = chunk_text_values(chunks, ChunkText::Content);
    let content_hash = chunk_text_values(chunks, ChunkText::ContentHash);
    let updated_at = chunk_text_values(chunks, ChunkText::UpdatedAt);
    let r = text_fits(&key) && text_fits(&resource_name) && text_fits(&file_path) && text_fits(
        &content,
    ) && text_fits(&content_hash) && text_fits(&updated_at);
    proof {
        let rows = chunk_rows(chunks@);
        if r {
            assert forall|column: ChunkText| text_size(#[trigger] chunk_texts(rows, column))
                <= i32::MAX by {
                match column {
                    ChunkText::Key => {},
                    ChunkText::ResourceName => {},
                    ChunkText::FilePath => {},
                    ChunkText::Content => {},
                    ChunkText::ContentHash => {},
                    ChunkText::UpdatedAt => {},
                }
            }
        }
    }
    r
}

/// The columns of the resources table.
#[derive(Debug, Clone, Copy, PartialEq, Eq, Structural)]
pub enum ResourceText {
    Uri,
    Name,
    Status,
    IndexingStatus,
    IndexingStatusMessage,
    CreatedAt,
    IndexingStartedAt,
    LastIndexedAt,
    LastError,
}

impl ResourceText {
    /// The name of the column.
    pub open spec fn title(self) -> Seq<char> {
        match self {
            ResourceText::Uri => "uri"@,
            ResourceText::Name => "name"@,
            ResourceText::Status => "status"@,
            ResourceText::IndexingStatus => "indexing_status"@,
            ResourceText::IndexingStatusMessage => "indexing_status_message"@,
            ResourceText::CreatedAt => "created_at"@,
            ResourceText::IndexingStartedAt => "indexing_started_at"@,
            ResourceText::LastIndexedAt => "last_indexed_at"@,
            ResourceText::LastError => "last_error"@,
        }
    }

    /// Whether the column may hold nulls.
    pub open spec fn may_be_null(self) -> bool {
        match self {
            ResourceText::IndexingStatusMessage
            | ResourceText::IndexingStartedAt
            | ResourceText::LastIndexedAt
            | ResourceText::LastError => true,
            _ => false,
        }
    }

    /// What the column holds of a resource.
    pub open spec fn of(self, resource: ResourceView) -> Option<Seq<char>> {
        match self {
            ResourceText::Uri => Some(resource.uri),
            ResourceText::Name => Some(resource.name),
            ResourceText::Status => Some(resource.status.text()),
            ResourceText::IndexingStatus => Some(resource.indexing_status.text()),
            ResourceText::IndexingStatusMessage => resource.indexing_status_message,
            ResourceText::CreatedAt => Some(resource.created_at),
            ResourceText::IndexingStartedAt => resource.indexing_started_at,
            ResourceText::LastIndexedAt => resource.last_indexed_at,
            ResourceText::LastError => resource.last_error,
        }
    }

    /// The name of the column.
    fn name(self) -> (r: &'static str)
        ensures
            r@ == self.title(),
    {
        match self {
            ResourceText::Uri => "uri",
            ResourceText::Name => "name",
            ResourceText::Status => "status",
            ResourceText::IndexingStatus => "indexing_status",
            ResourceText::IndexingStatusMessage => "indexing_status_message",
            ResourceText::CreatedAt => "created_at",
            ResourceText::IndexingStartedAt => "indexing_started_at",
            ResourceText::LastIndexedAt => "last_indexed_at",
            ResourceText::LastError => "last_error",
        }
    }

    /// What the column holds of a resource.
    fn take(self, resource: &ResourceRecord) -> (r: Option<String>)
        ensures
            opt_text(r) == self.of(resource@),
    {
        match self {
            ResourceText::Uri => Some(resource.uri.clone()),
            ResourceText::Name => Some(resource.name.clone()),
            ResourceText::Status => Some(resource.status.as_str().to_owned()),
            ResourceText::IndexingStatus => Some(resource.indexing_status.as_str().to_owned()),
            ResourceText::IndexingStatusMessage => copy_opt(&resource.indexing_status_message),
            ResourceText::CreatedAt => Some(resource.created_at.clone()),
            ResourceText::IndexingStartedAt => copy_opt(&resource.indexing_started_at),
            ResourceText::LastIndexedAt => copy_opt(&resource.last_indexed_at),
            ResourceText::LastError => copy_opt(&resource.last_error),
        }
    }
}

/// The columns of the resources table, in order.
pub open spec fn resource_columns_in_order() -> Seq<ResourceText> {
    seq![
        ResourceText::Uri,
        ResourceText::Name,
        ResourceText::Status,
        ResourceText::IndexingStatus,
        ResourceText::IndexingStatusMessage,
        ResourceText::CreatedAt,
        ResourceText::IndexingStartedAt,
        ResourceText::LastIndexedAt,
        ResourceText::LastError,
    ]
}

/// The fields of the resources table.
pub open spec fn resource_fields() -> Seq<FieldView> {
    resource_columns_in_order().map_values(
        |c: ResourceText| field(c.title(), ColumnKind::Text, c.may_be_null()),
    )
}

/// A column of the resources, in turn.
pub open spec fn resource_texts(resources: Seq<ResourceView>, column: ResourceText) -> Seq<
    Option<Seq<char>>,
> {
    resources.map_values(|r: ResourceView| column.of(r))
}

/// What the columns of the resources table hold of the given resources.
pub open spec fn resource_columns(resources: Seq<ResourceView>) -> Seq<ColumnView> {
    resource_columns_in_order().map_values(
        |c: ResourceText| text_column_view(resource_texts(resources, c)),
    )
}

/// Whether each column of the resources stays within what an Arrow array of
/// strings can hold.
pub open spec fn resource_texts_fit(resources: Seq<ResourceView>) -> bool {
    forall|column: ResourceText|
        text_size(#[trigger] resource_texts(resources, column)) <= i32::MAX
}

fn resource_table_columns() -> (r: Vec<ResourceText>)
    ensures
        r@ == resource_columns_in_order(),
{
    vec![
        ResourceText::Uri,
        ResourceText::Name,
        ResourceText::Status,
        ResourceText::IndexingStatus,
        ResourceText::IndexingStatusMessage,
        ResourceText::CreatedAt,
        ResourceText::IndexingStartedAt,
        ResourceText::LastIndexedAt,
        ResourceText::LastError,
    ]
}

/// The schema of the resources table.
pub fn resources_schema() -> (r: Arc<Schema>)
    ensures
        schema_fields(*r) == Some(resource_fields()),
{
    let columns = resource_table_columns();
    let mut fields: Vec<FieldSpec> = Vec::new();
    for i in 0..columns.len()
        invariant
            columns@ == resource_columns_in_order(),
            fields@.len() == i,
            forall|j: int| 0 <= j < i ==> (#[trigger] fields@[j])@ == resource_fields()[j],
    {
        let column = columns[i];
        let nullable = match column {
            ResourceText::IndexingStatusMessage
            | ResourceText::IndexingStartedAt
            | ResourceText::LastIndexedAt
            | ResourceText::LastError => true,
            _ => false,
        };
        fields.push(text_field(column.name(), nullable));
    }
    assert(field_views(fields@) =~= resource_fields());
    schema_of(&fields)
}

fn resource_text_values(resources: &Vec<ResourceRecord>, column: ResourceText) -> (r: Vec<
    Option<String>,
>)
    ensures
        opt_texts(r@) == resource_texts(resource_views(resources@), column),
{
    let mut r: Vec<Option<String>> = Vec::new();
    for i in 0..resources.len()
        invariant
            r@.len() == i,
            forall|j: int| 0 <= j < i ==> opt_text(#[trigger] r@[j]) == column.of(resources@[j]@),
    {
        r.push(column.take(&resources[i]));
    }
    assert(opt_texts(r@) =~= resource_texts(resource_views(resources@), column));
    r
}

/// Whether each column of the resources stays within what an Arrow array of
/// strings can hold.
pub fn resources_fit(resources: &Vec<ResourceRecord>) -> (r: bool)
    ensures
        r == resource_texts_fit(resource_views(resources@)),
{
    let columns = resource_table_columns();
    let ghost all = resource_views(resources@);
    for i in 0..columns.len()
        invariant
            columns@ == resource_columns_in_order(),
            all == resource_views(resources@),
            forall|j: int|
                0 <= j < i ==> text_size(resource_texts(all, #[trigger] columns@[j])) <= i32::MAX,
    {
        let values = resource_text_values(resources, columns[i]);
        if !text_fits(&values) {
            return false;
        }
    }
    assert forall|column: ResourceText| text_size(#[trigger] resource_texts(all, column))
        <= i32::MAX by {
        let order = resource_columns_in_order();
        let k = match column {
            ResourceText::Uri => 0int,
            ResourceText::Name => 1,
            ResourceText::Status => 2,
            ResourceText::IndexingStatus => 3,
            ResourceText::IndexingStatusMessage => 4,
            ResourceText::CreatedAt => 5,
            ResourceText::IndexingStartedAt => 6,
            ResourceText::LastIndexedAt => 7,
            ResourceText::LastError => 8,
        };
        assert(columns@[k] == column);
    }
    true
}

/// The resources as a batch for the resources table.
pub fn resource_records_to_batch(resources: &Vec<ResourceRecord>) -> (r: Result<
    ArrowBatch,
    ArrowError,
>)
    requires
        resource_texts_fit(resource_views(resources@)),
    ensures
        r matches Ok(batch) && batch_columns(batch) == named_columns(
            resource_fields(),
            resource_columns(resource_views(resources@)),
        ) && batch_rows(batch) == resources@.len(),
{
    let schema = resources_schema();
    let order = resource_table_columns();
    let ghost all = resource_views(resources@);
    let mut columns: Vec<ArrowColumn> = Vec::new();
    for i in 0..order.len()
        invariant
            order@ == resource_columns_in_order(),
            all == resource_views(resources@),
            resource_texts_fit(all),
            columns@.len() == i,
            forall|j: int|
                0 <= j < i ==> column_contents(#[trigger] columns@[j]) == resource_columns(all)[j],
    {
        let values = resource_text_values(resources, order[i]);
        columns.push(text_column(&values));
    }
    proof {
        let fields = resource_fields();
        let views = contents(columns@);
        assert(views =~= resource_columns(all));
        assert forall|i: int|
            0 <= i < views.len() && !fields[i].nullable implies (
        #[trigger] views[i]).has_no_null() by {
            let column = resource_columns_in_order()[i];
            let values = resource_texts(all, column);
            assert(views[i] == text_column_view(values));
            assert forall|j: int| 0 <= j < values.len() implies !(
            #[trigger] views[i].nulls[j]) by {
                assert(values[j] == column.of(all[j]));
            }
        }
        assert(fit_fields(fields, views));
    }
    new_batch(schema, columns)
}

/// Whether the batch has a string column of the given name.
pub open spec fn has_text(columns: Seq<(Seq<char>, ColumnView)>, name: Seq<char>) -> bool {
    named(columns, name) matches Some(view) && view.values is Text
}

/// Whether the batch has an integer column of the given name.
pub open spec fn has_int(columns: Seq<(Seq<char>, ColumnView)>, name: Seq<char>) -> bool {
    named(columns, name) matches Some(view) && view.values is Int
}

/// Whether the batch has a vector column of the given name. In a batch
/// without rows, the elements can be of any type.
pub open spec fn has_vectors(
    columns: Seq<(Seq<char>, ColumnView)>,
    rows: nat,
    name: Seq<char>,
) -> bool {
    named(columns, name) matches Some(view) && (view.values is Vectors || (
    view.values is OtherLists && rows == 0))
}

/// The string in a row of the named column.
pub open spec fn text_at(
    columns: Seq<(Seq<char>, ColumnView)>,
    name: Seq<char>,
    row: int,
) -> Seq<char> {
    named(columns, name)->0.values->Text_0[row]
}

/// The string in a row of the named column, unless it is null.
pub open spec fn opt_text_at(
    columns: Seq<(Seq<char>, ColumnView)>,
    name: Seq<char>,
    row: int,
) -> Option<Seq<char>> {
    if named(columns, name)->0.nulls[row] {
        None
    } else {
        Some(text_at(columns, name, row))
    }
}

/// The integer in a row of the named column.
pub open spec fn int_at(
    columns: Seq<(Seq<char>, ColumnView)>,
    name: Seq<char>,
    row: int,
) -> i32 {
    named(columns, name)->0.values->Int_0[row]
}

/// The vector in a row of the named column.
pub open spec fn vector_at(
    columns: Seq<(Seq<char>, ColumnView)>,
    name: Seq<char>,
    row: int,
) -> Seq<u32> {
    named(columns, name)->0.values->rows[row]
}

/// Whether the batch has the columns of the resources table.
pub open spec fn has_resources(columns: Seq<(Seq<char>, ColumnView)>) -> bool {
    forall|column: ResourceText| has_text(columns, #[trigger] column.title())
}

/// What a row of the resources table says: a resource, or the first of its
/// statuses that is not known.
pub open spec fn resource_at(columns: Seq<(Seq<char>, ColumnView)>, row: int) -> Result<
    ResourceView,
    ErrorView,
> {
    let status = text_at(columns, ResourceText::Status.title(), row);
    let indexing_status = text_at(columns, ResourceText::IndexingStatus.title(), row);
    match (ResourceStatus::named(status), IndexingStatus::named(indexing_status)) {
        (None, _) => Err(ErrorView::Storage("unknown resource status: "@ + status)),
        (_, None) => Err(ErrorView::Storage("unknown indexing status: "@ + indexing_status)),
        (Some(status), Some(indexing_status)) => Ok(
            ResourceView {
                uri: text_at(columns, ResourceText::Uri.title(), row),
                name: text_at(columns, ResourceText::Name.title(), row),
                status,
                indexing_status,
                indexing_status_message: opt_text_at(
                    columns,
                    ResourceText::IndexingStatusMessage.title(),
                    row,
                ),
                created_at: text_at(columns, ResourceText::CreatedAt.title(), row),
                indexing_started_at: opt_text_at(
                    columns,
                    ResourceText::IndexingStartedAt.title(),
                    row,
                ),
                last_indexed_at: opt_text_at(columns, ResourceText::LastIndexedAt.title(), row),
                last_error: opt_text_at(columns, ResourceText::LastError.title(), row),
            },
        ),
    }
}

/// What reading a resource gave.
pub open spec fn read_view(r: Result<ResourceRecord, RagdError>) -> Result<
    ResourceView,
    ErrorView,
> {
    match r {
        Ok(resource) => Ok(resource@),
        Err(e) => Err(e@),
    }
}

fn has_text_column(batch: &ArrowBatch, name: &str) -> (r: bool)
    ensures
        r == has_text(batch_columns(*batch), name@),
{
    match column_by_name(batch, name) {
        Some(column) => is_text(&column),
        None => false,
    }
}

fn has_int_column(batch: &ArrowBatch, name: &str) -> (r: bool)
    ensures
        r == has_int(batch_columns(*batch), name@),
{
    match column_by_name(batch, name) {
        Some(column) => is_int(&column),
        None => false,
    }
}

fn has_vector_column(batch: &ArrowBatch, name: &str) -> (r: bool)
    ensures
        r == has_vectors(batch_columns(*batch), batch_rows(*batch), name@),
{
    match column_by_name(batch, name) {
        Some(column) => is_vectors(&column) || (num_rows(batch) == 0 && is_lists(&column)),
        None => false,
    }
}

/// Whether the batch has the columns of the resources table.
pub fn is_resource_batch(batch: &ArrowBatch) -> (r: bool)
    ensures
        r == has_resources(batch_columns(*batch)),
{
    let order = resource_table_columns();
    let ghost columns = batch_columns(*batch);
    for i in 0..order.len()
        invariant
            order@ == resource_columns_in_order(),
            columns == batch_columns(*batch),
            forall|j: int| 0 <= j < i ==> has_text(columns, (#[trigger] order@[j]).title()),
    {
        if !has_text_column(batch, order[i].name()) {
            return false;
        }
    }
    assert forall|column: ResourceText| has_text(columns, #[trigger] column.title()) by {
        lemma_resource_column_in_order(column);
    }
    true
}

proof fn lemma_resource_column_in_order(column: ResourceText)
    ensures
        exists|k: int| 0 <= k < 9 && #[trigger] resource_columns_in_order()[k] == column,
{
    let order = resource_columns_in_order();
    assert(order[0] is Uri && order[1] is Name && order[2] is Status && order[3] is IndexingStatus
        && order[4] is IndexingStatusMessage && order[5] is CreatedAt
        && order[6] is IndexingStartedAt && order[7] is LastIndexedAt && order[8] is LastError);
}

/// The named column, which the batch is known to have.
fn known_column(batch: &ArrowBatch, name: &str) -> (r: ArrowColumn)
    requires
        named(batch_columns(*batch), name@) is Some,
    ensures
        column_contents(r) == named(batch_columns(*batch), name@)->0,
        column_contents(r).len() == batch_rows(*batch),
        column_contents(r).is_whole(),
{
    column_by_name(batch, name).unwrap()
}

fn opt_value(column: &ArrowColumn, row: usize) -> (r: Option<String>)
    requires
        column_contents(*column).values is Text,
        row < column_contents(*column).len(),
    ensures
        opt_text(r) == if column_contents(*column).nulls[row as int] {
            None
        } else {
            Some(column_contents(*column).values->Text_0[row as int])
        },
{
    if is_null(column, row) {
        None
    } else {
        Some(text_value(column, row))
    }
}

/// A row of the resources table. The columns are those of the table, in
/// order.
fn resource_row(columns: &Vec<ArrowColumn>, row: usize, Ghost(named_as): Ghost<
    Seq<(Seq<char>, ColumnView)>,
>) -> (r: Result<ResourceRecord, RagdError>)
    requires
        columns@.len() == 9,
        has_resources(named_as),
        forall|i: int|
            0 <= i < 9 ==> column_contents(#[trigger] columns@[i]) == named(
                named_as,
                resource_columns_in_order()[i].title(),
            )->0,
        forall|i: int| 0 <= i < 9 ==> row < column_contents(#[trigger] columns@[i]).len(),
    ensures
        read_view(r) == resource_at(named_as, row as int),
{
    proof {
        assert forall|i: int| 0 <= i < 9 implies column_contents(
            #[trigger] columns@[i],
        ).values is Text by {
            let column = resource_columns_in_order()[i];
            assert(has_text(named_as, column.title()));
        }
    }
    let status = match ResourceStatus::from_text(text_value(&columns[2], row).as_str()) {
        Ok(status) => status,
        Err(e) => return Err(e),
    };
    let indexing_status = match IndexingStatus::from_text(text_value(&columns[3], row).as_str()) {
        Ok(status) => status,
        Err(e) => return Err(e),
    };
    Ok(
        ResourceRecord {
            uri: text_value(&columns[0], row),
            name: text_value(&columns[1], row),
            status,
            indexing_status,
            indexing_status_message: opt_value(&columns[4], row),
            created_at: text_value(&columns[5], row),
            indexing_started_at: opt_value(&columns[6], row),
            last_indexed_at: opt_value(&columns[7], row),
            last_error: opt_value(&columns[8], row),
        },
    )
}

/// The columns of the resources table, in order.
fn known_resource_columns(batch: &ArrowBatch) -> (r: Vec<ArrowColumn>)
    requires
        has_resources(batch_columns(*batch)),
    ensures
        r@.len() == 9,
        forall|i: int|
            0 <= i < 9 ==> column_contents(#[trigger] r@[i]) == named(
                batch_columns(*batch),
                resource_columns_in_order()[i].title(),
            )->0,
        forall|i: int|
            0 <= i < 9 ==> column_contents(#[trigger] r@[i]).len() == batch_rows(*batch),
{
    let order = resource_table_columns();
    let mut r: Vec<ArrowColumn> = Vec::new();
    for i in 0..order.len()
        invariant
            order@ == resource_columns_in_order(),
            has_resources(batch_columns(*batch)),
            r@.len() == i,
            forall|j: int|
                0 <= j < i ==> column_contents(#[trigger] r@[j]) == named(
                    batch_columns(*batch),
                    resource_columns_in_order()[j].title(),
                )->0,
            forall|j: int|
                0 <= j < i ==> column_contents(#[trigger] r@[j]).len() == batch_rows(*batch),
    {
        let column = order[i];
        assert(has_text(batch_columns(*batch), column.title()));
        r.push(known_column(batch, column.name()));
    }
    r
}

/// What each row of a batch of resources says.
pub fn resource_records_from_batch(batch: &ArrowBatch) -> (r: Vec<
    Result<ResourceRecord, RagdError>,
>)
    requires
        has_resources(batch_columns(*batch)),
    ensures
        r@.len() == batch_rows(*batch),
        forall|i: int|
            0 <= i < r@.len() ==> read_view(#[trigger] r@[i]) == resource_at(
                batch_columns(*batch),
                i,
            ),
{
    let columns = known_resource_columns(batch);
    let ghost named_as = batch_columns(*batch);
    let rows: usize = num_rows(batch);
    let mut r: Vec<Result<ResourceRecord, RagdError>> = Vec::new();
    for row in 0..rows
        invariant
            rows == batch_rows(*batch),
            named_as == batch_columns(*batch),
            has_resources(named_as),
            columns@.len() == 9,
            forall|i: int|
                0 <= i < 9 ==> column_contents(#[trigger] columns@[i]) == named(
                    named_as,
                    resource_columns_in_order()[i].title(),
                )->0,
            forall|i: int| 0 <= i < 9 ==> column_contents(#[trigger] columns@[i]).len() == rows,
            r@.len() == row,
            forall|i: int| 0 <= i < row ==> read_view(#[trigger] r@[i]) == resource_at(named_as, i),
    {
        r.push(resource_row(&columns, row, Ghost(named_as)));
    }
    r
}

/// What the rows of all the batches say, in turn.
pub open spec fn resources_in(batches: Seq<ArrowBatch>) -> Seq<Result<ResourceView, ErrorView>>
    decreases batches.len(),
{
    if batches.len() == 0 {
        seq![]
    } else {
        let last = batches.last();
        resources_in(batches.drop_last()) + Seq::new(
            batch_rows(last),
            |i: int| resource_at(batch_columns(last), i),
        )
    }
}

/// All the resources, or the first error among them.
pub open spec fn gathered(results: Seq<Result<ResourceView, ErrorView>>) -> Result<
    Seq<ResourceView>,
    ErrorView,
>
    decreases results.len(),
{
    if results.len() == 0 {
        Ok(seq![])
    } else {
        match gathered(results.drop_last()) {
            Err(e) => Err(e),
            Ok(resources) => match results.last() {
                Ok(resource) => Ok(resources.push(resource)),
                Err(e) => Err(e),
            },
        }
    }
}

/// An error decides, whatever follows it.
proof fn lemma_gathered_error(
    results: Seq<Result<ResourceView, ErrorView>>,
    rest: Seq<Result<ResourceView, ErrorView>>,
)
    requires
        gathered(results) is Err,
    ensures
        gathered(results + rest) == gathered(results),
    decreases rest.len(),
{
    if rest.len() == 0 {
        assert(results + rest =~= results);
    } else {
        lemma_gathered_error(results, rest.drop_last());
        assert((results + rest).drop_last() =~= results + rest.drop_last());
    }
}

proof fn lemma_resources_in_prefix(batches: Seq<ArrowBatch>, n: int)
    requires
        0 <= n <= batches.len(),
        gathered(resources_in(batches.take(n))) is Err,
    ensures
        gathered(resources_in(batches)) == gathered(resources_in(batches.take(n))),
    decreases batches.len() - n,
{
    if n == batches.len() {
        assert(batches.take(n) =~= batches);
    } else {
        let next = batches.take(n + 1);
        assert(next.drop_last() =~= batches.take(n));
        let last = next.last();
        lemma_gathered_error(
            resources_in(batches.take(n)),
            Seq::new(batch_rows(last), |i: int| resource_at(batch_columns(last), i)),
        );
        lemma_resources_in_prefix(batches, n + 1);
    }
}

/// The resources that the batches hold, in turn, or the first error. Only the
/// batches that have rows need the columns of the resources table.
pub fn collect_resources(batches: &Vec<ArrowBatch>) -> (r: Result<Vec<ResourceRecord>, RagdError>)
    requires
        forall|i: int|
            0 <= i < batches@.len() && batch_rows(#[trigger] batches@[i]) > 0 ==> has_resources(
                batch_columns(batches@[i]),
            ),
    ensures
        match gathered(resources_in(batches@)) {
            Ok(resources) => r matches Ok(records) && resource_views(records@) == resources,
            Err(e) => r matches Err(error) && error@ == e,
        },
{
    let mut r: Vec<ResourceRecord> = Vec::new();
    assert(resources_in(batches@.take(0)) =~= seq![]);
    assert(resource_views(r@) =~= seq![]);
    for n in 0..batches.len()
        invariant
            forall|i: int|
                0 <= i < batches@.len() && batch_rows(#[trigger] batches@[i]) > 0 ==> has_resources(
                    batch_columns(batches@[i]),
                ),
            gathered(resources_in(batches@.take(n as int))) == Ok::<Seq<ResourceView>, ErrorView>(
                resource_views(r@),
            ),
    {
        let batch = &batches[n];
        let ghost before = resources_in(batches@.take(n as int));
        let ghost columns = batch_columns(*batch);
        let ghost here = Seq::new(batch_rows(*batch), |i: int| resource_at(columns, i));
        proof {
            let next = batches@.take(n + 1);
            assert(next.drop_last() =~= batches@.take(n as int));
            assert(resources_in(next) == before + here);
        }
        if num_rows(batch) > 0 {
            let rows = resource_records_from_batch(batch);
            assert(before + here.take(0) =~= before);
            for row in it: rows
                invariant
                    n < batches@.len(),
                    batch == batches@[n as int],
                    columns == batch_columns(*batch),
                    here == Seq::new(batch_rows(*batch), |i: int| resource_at(columns, i)),
                    it.seq().len() == here.len(),
                    forall|i: int|
                        0 <= i < it.seq().len() ==> read_view(#[trigger] it.seq()[i]) == here[i],
                    resources_in(batches@.take(n + 1)) == before + here,
                    gathered(before + here.take(it.index() as int)) == Ok::<
                        Seq<ResourceView>,
                        ErrorView,
                    >(resource_views(r@)),
            {
                let ghost k = it.index() as int;
                let ghost next = before + here.take(k + 1);
                let ghost held = r@;
                proof {
                    assert(next.drop_last() =~= before + here.take(k));
                    assert(next.last() == here[k]);
                    assert(read_view(row) == here[k]);
                }
                match row {
                    Ok(resource) => {
                        r.push(resource);
                        assert(resource_views(r@) =~= resource_views(held).push(resource@));
                    },
                    Err(e) => {
                        proof {
                            lemma_gathered_error(next, here.skip(k + 1));
                            assert(next + here.skip(k + 1) =~= before + here);
                            lemma_resources_in_prefix(batches@, n + 1);
                        }
                        return Err(e);
                    },
                }
            }
            assert(here.take(here.len() as int) =~= here);
        } else {
            assert(before + here =~= before);
        }
    }
    assert(batches@.take(batches@.len() as int) =~= batches@);
    Ok(r)
}

/// Whether the batch has the columns of the chunks table that a chunk is read
/// from.
pub open spec fn has_chunks(columns: Seq<(Seq<char>, ColumnView)>, rows: nat) -> bool {
    &&& has_text(columns, ChunkText::ResourceName.title())
    &&& has_text(columns, ChunkText::FilePath.title())
    &&& has_int(columns, ChunkInt::Index.title())
    &&& has_text(columns, ChunkText::Content.title())
    &&& has_text(columns, ChunkText::ContentHash.title())
    &&& has_int(columns, ChunkInt::StartLine.title())
    &&& has_int(columns, ChunkInt::EndLine.title())
    &&& has_text(columns, ChunkText::UpdatedAt.title())
    &&& has_vectors(columns, rows, "embedding"@)
}

/// What a row of the chunks table says.
pub open spec fn chunk_at(columns: Seq<(Seq<char>, ColumnView)>, row: int) -> ChunkRow {
    ChunkRow {
        resource_name: text_at(columns, ChunkText::ResourceName.title(), row),
        file_path: text_at(columns, ChunkText::FilePath.title(), row),
        chunk_index: int_at(columns, ChunkInt::Index.title(), row),
        content: text_at(columns, ChunkText::Content.title(), row),
        content_hash: text_at(columns, ChunkText::ContentHash.title(), row),
        start_line: int_at(columns, ChunkInt::StartLine.title(), row),
        end_line: int_at(columns, ChunkInt::EndLine.title(), row),
        embedding: vector_at(columns, "embedding"@, row),
        updated_at: text_at(columns, ChunkText::UpdatedAt.title(), row),
    }
}

/// Whether the batch has the columns of the chunks table that a chunk is read
/// from.
pub fn is_chunk_batch(batch: &ArrowBatch) -> (r: bool)
    ensures
        r == has_chunks(batch_columns(*batch), batch_rows(*batch)),
{
    has_text_column(batch, ChunkText::ResourceName.name()) && has_text_column(
        batch,
        ChunkText::FilePath.name(),
    ) && has_int_column(batch, ChunkInt::Index.name()) && has_text_column(
        batch,
        ChunkText::Content.name(),
    ) && has_text_column(batch, ChunkText::ContentHash.name()) && has_int_column(
        batch,
        ChunkInt::StartLine.name(),
    ) && has_int_column(batch, ChunkInt::EndLine.name()) && has_text_column(
        batch,
        ChunkText::UpdatedAt.name(),
    ) && has_vector_column(batch, "embedding")
}

/// What each row of a batch of chunks says.
pub fn chunk_records_from_batch(batch: &ArrowBatch) -> (r: Vec<ChunkRecord>)
    requires
        has_chunks(batch_columns(*batch), batch_rows(*batch)),
    ensures
        r@.len() == batch_rows(*batch),
        forall|i: int|
            0 <= i < r@.len() ==> (#[trigger] r@[i])@ == chunk_at(batch_columns(*batch), i),
{
    let ghost columns = batch_columns(*batch);
    let resource_name = known_column(batch, ChunkText::ResourceName.name());
    let file_path = known_column(batch, ChunkText::FilePath.name());
    let chunk_index = known_column(batch, ChunkInt::Index.name());
    let content = known_column(batch, ChunkText::Content.name());
    let content_hash = known_column(batch, ChunkText::ContentHash.name());
    let start_line = known_column(batch, ChunkInt::StartLine.name());
    let end_line = known_column(batch, ChunkInt::EndLine.name());
    let updated_at = known_column(batch, ChunkText::UpdatedAt.name());
    let embedding = known_column(batch, "embedding");
    let rows: usize = num_rows(batch);
    let mut r: Vec<ChunkRecord> = Vec::new();
    #[verifier::loop_isolation(false)]
    for row in 0..rows
        invariant
            r@.len() == row,
            forall|i: int| 0 <= i < row ==> (#[trigger] r@[i])@ == chunk_at(columns, i),
    {
        r.push(
            ChunkRecord {
                resource_name: text_value(&resource_name, row),
                file_path: text_value(&file_path, row),
                chunk_index: int_value(&chunk_index, row),
                content: text_value(&content, row),
                content_hash: text_value(&content_hash, row),
                start_line: int_value(&start_line, row),
                end_line: int_value(&end_line, row),
                embedding: vector_value(&embedding, row),
                updated_at: text_value(&updated_at, row),
            },
        );
    }
    r
}

/// Whether the batch has the columns that a fingerprint is read from.
pub open spec fn has_fingerprints(columns: Seq<(Seq<char>, ColumnView)>, rows: nat) -> bool {
    &&& has_int(columns, ChunkInt::Index.title())
    &&& has_text(columns, ChunkText::ContentHash.title())
    &&& has_vectors(columns, rows, "embedding"@)
}

/// What a row of the chunks table says of a chunk's fingerprint.
pub open spec fn fingerprint_at(columns: Seq<(Seq<char>, ColumnView)>, row: int) -> (
    i32,
    FingerprintView,
) {
    (
        int_at(columns, ChunkInt::Index.title(), row),
        FingerprintView {
            content_hash: text_at(columns, ChunkText::ContentHash.title(), row),
            embedding: vector_at(columns, "embedding"@, row),
        },
    )
}

/// Whether the batch has the columns that a fingerprint is read from.
pub fn is_fingerprint_batch(batch: &ArrowBatch) -> (r: bool)
    ensures
        r == has_fingerprints(batch_columns(*batch), batch_rows(*batch)),
{
    has_int_column(batch, ChunkInt::Index.name()) && has_text_column(
        batch,
        ChunkText::ContentHash.name(),
    ) && has_vector_column(batch, "embedding")
}

/// The columns that a fingerprint is read from: just enough to tell whether a
/// chunk changed, and to reuse its embedding.
pub fn fingerprint_columns() -> (r: Vec<&'static str>)
    ensures
        r@.len() == 3,
        r@[0]@ == ChunkInt::Index.title(),
        r@[1]@ == ChunkText::ContentHash.title(),
        r@[2]@ == "embedding"@,
{
    vec![ChunkInt::Index.name(), ChunkText::ContentHash.name(), "embedding"]
}

/// The index and fingerprint of each chunk in a batch.
pub fn chunk_fingerprints_from_batch(batch: &ArrowBatch) -> (r: Vec<(i32, ChunkFingerprint)>)
    requires
        has_fingerprints(batch_columns(*batch), batch_rows(*batch)),
    ensures
        r@.len() == batch_rows(*batch),
        forall|i: int|
            0 <= i < r@.len() ==> ((#[trigger] r@[i]).0, r@[i].1@) == fingerprint_at(
                batch_columns(*batch),
                i,
            ),
{
    let ghost columns = batch_columns(*batch);
    let chunk_index = known_column(batch, ChunkInt::Index.name());
    let content_hash = known_column(batch, ChunkText::ContentHash.name());
    let embedding = known_column(batch, "embedding");
    let rows: usize = num_rows(batch);
    let mut r: Vec<(i32, ChunkFingerprint)> = Vec::new();
    #[verifier::loop_isolation(false)]
    for row in 0..rows
        invariant
            r@.len() == row,
            forall|i: int|
                0 <= i < row ==> ((#[trigger] r@[i]).0, r@[i].1@) == fingerprint_at(columns, i),
    {
        let fingerprint = ChunkFingerprint {
            content_hash: text_value(&content_hash, row),
            embedding: vector_value(&embedding, row),
        };
        r.push((int_value(&chunk_index, row), fingerprint));
    }
    r
}

} // verus!
