//! Arrow columns, schemas and record batches, described over the plain values
//! that they hold.

use arrow_array::types::Float32Type;
use arrow_array::{
    Array, ArrayRef, ArrowPrimitiveType, FixedSizeListArray, Float32Array, Int32Array, RecordBatch,
    StringArray,
};
use arrow_schema::{ArrowError, DataType, Field, Schema};
use crate::text::{byte_len, opt_texts};
use std::sync::Arc;
use vstd::prelude::*;

verus! {

#[verifier::external_type_specification]
#[verifier::external_body]
pub struct ExSchema(arrow_schema::Schema);

#[verifier::external_type_specification]
#[verifier::external_body]
pub struct ExArrowError(arrow_schema::ArrowError);

/// The type of a column: strings, 32-bit integers, or vectors of the given
/// number of single-precision components.
#[derive(Debug, Clone, Copy, PartialEq, Eq, Structural)]
pub enum ColumnKind {
    Text,
    Int,
    Vector(i32),
}

/// A column of a table: its name, its type, and whether it may hold nulls.
#[derive(Debug, Clone, PartialEq, Eq)]
pub struct FieldSpec {
    pub name: String,
    pub kind: ColumnKind,
    pub nullable: bool,
}

/// What a [`FieldSpec`] holds.
pub struct FieldView {
    pub name: Seq<char>,
    pub kind: ColumnKind,
    pub nullable: bool,
}

impl View for FieldSpec {
    type V = FieldView;

    open spec fn view(&self) -> FieldView {
        FieldView { name: self.name@, kind: self.kind, nullable: self.nullable }
    }
}

/// What each field holds, in turn.
pub open spec fn field_views(fields: Seq<FieldSpec>) -> Seq<FieldView> {
    fields.map_values(|f: FieldSpec| f@)
}

/// The slots of a column. A slot that is null has a value all the same, which
/// is of no meaning.
pub enum ColumnValues {
    /// Strings.
    Text(Seq<Seq<char>>),
    /// 32-bit integers.
    Int(Seq<i32>),
    /// Vectors of `size` components, each a bit pattern. `standard` says that
    /// the element field is the one Arrow gives to a list by default: named
    /// `item` and nullable.
    Vectors { standard: bool, size: i32, rows: Seq<Seq<u32>> },
    /// Lists of a fixed size whose elements are not single-precision numbers.
    OtherLists,
    /// Anything else.
    Other,
}

/// What a column holds: its slots, and which of them are null.
pub struct ColumnView {
    pub nulls: Seq<bool>,
    pub values: ColumnValues,
}

impl ColumnView {
    /// The number of slots.
    pub open spec fn len(self) -> nat {
        self.nulls.len()
    }

    /// Whether no slot is null.
    pub open spec fn has_no_null(self) -> bool {
        forall|i: int| 0 <= i < self.nulls.len() ==> !#[trigger] self.nulls[i]
    }

    /// Whether the column is of the given type.
    pub open spec fn is_of(self, kind: ColumnKind) -> bool {
        match (self.values, kind) {
            (ColumnValues::Text(_), ColumnKind::Text) => true,
            (ColumnValues::Int(_), ColumnKind::Int) => true,
            (ColumnValues::Vectors { standard, size, rows }, ColumnKind::Vector(n)) => standard
                && size == n,
            _ => false,
        }
    }

    /// Whether the column is of one of the types that [`ColumnKind`] names.
    pub open spec fn is_known(self) -> bool {
        match self.values {
            ColumnValues::Text(_) => true,
            ColumnValues::Int(_) => true,
            ColumnValues::Vectors { standard, size, rows } => standard,
            _ => false,
        }
    }

    /// Whether there are as many values as slots.
    pub open spec fn is_whole(self) -> bool {
        match self.values {
            ColumnValues::Text(values) => values.len() == self.len(),
            ColumnValues::Int(values) => values.len() == self.len(),
            ColumnValues::Vectors { standard, size, rows } => rows.len() == self.len(),
            _ => true,
        }
    }
}

/// A column of strings: a missing one is null, and its slot empty.
pub open spec fn text_column_view(values: Seq<Option<Seq<char>>>) -> ColumnView {
    ColumnView {
        nulls: values.map_values(|v: Option<Seq<char>>| v is None),
        values: ColumnValues::Text(
            values.map_values(
                |v: Option<Seq<char>>|
                    match v {
                        Some(text) => text,
                        None => seq![],
                    },
            ),
        ),
    }
}

/// A column of integers, none of them null.
pub open spec fn int_column_view(values: Seq<i32>) -> ColumnView {
    ColumnView { nulls: values.map_values(|v: i32| false), values: ColumnValues::Int(values) }
}

/// A column of vectors, none of them null.
pub open spec fn vector_column_view(rows: Seq<Seq<u32>>, size: i32) -> ColumnView {
    ColumnView {
        nulls: rows.map_values(|v: Seq<u32>| false),
        values: ColumnValues::Vectors { standard: true, size, rows },
    }
}

/// The components of each vector in turn.
pub open spec fn bit_rows(rows: Seq<Vec<u32>>) -> Seq<Seq<u32>> {
    rows.map_values(|v: Vec<u32>| v@)
}

/// The number of bytes that all the strings together take in UTF-8.
pub open spec fn text_size(values: Seq<Option<Seq<char>>>) -> nat
    decreases values.len(),
{
    if values.len() == 0 {
        0
    } else {
        text_size(values.drop_last()) + match values.last() {
            Some(text) => byte_len(text),
            None => 0,
        }
    }
}

/// An Arrow array of any type.
#[verifier::external_body]
pub struct ArrowColumn {
    array: ArrayRef,
}

/// An Arrow record batch.
#[verifier::external_body]
pub struct ArrowBatch {
    pub batch: RecordBatch,
}

/// What the column holds.
pub uninterp spec fn column_contents(column: ArrowColumn) -> ColumnView;

/// What the schema's fields are, in order; none if one of them is of a type
/// that [`ColumnKind`] does not name.
pub uninterp spec fn schema_fields(schema: Schema) -> Option<Seq<FieldView>>;

/// What the batch's columns are, in order, each with its name.
pub uninterp spec fn batch_columns(batch: ArrowBatch) -> Seq<(Seq<char>, ColumnView)>;

/// The number of rows of the batch.
pub uninterp spec fn batch_rows(batch: ArrowBatch) -> nat;

/// `StringArray::from_iter` of `arrow_array` builds an array with one slot for
/// each item: a value where there is one; else a null, over an empty slot. It
/// panics where the values take more than `i32::MAX` bytes together.
#[verifier::external_body]
pub(crate) fn text_column(values: &Vec<Option<String>>) -> (r: ArrowColumn)
    requires
        text_size(opt_texts(values@)) <= i32::MAX,
    ensures
        column_contents(r) == text_column_view(opt_texts(values@)),
{
    ArrowColumn { array: Arc::new(StringArray::from_iter(values.iter())) }
}

/// `Int32Array::from_iter_values` of `arrow_array` builds an array of the
/// given values, without nulls.
#[verifier::external_body]
pub(crate) fn int_column(values: &Vec<i32>) -> (r: ArrowColumn)
    ensures
        column_contents(r) == int_column_view(values@),
{
    ArrowColumn { array: Arc::new(Int32Array::from_iter_values(values.iter().copied())) }
}

/// `FixedSizeListArray::from_iter_primitive` of `arrow_array` builds an array
/// of lists of the given size, without nulls, whose element field is the
/// default one. It panics where the values are not as many as the size asks
/// for. An array of lists of size zero comes out with no slot at all, however
/// many lists went in.
#[verifier::external_body]
pub(crate) fn vector_column(rows: &Vec<Vec<u32>>, size: i32) -> (r: ArrowColumn)
    requires
        size >= 0,
        forall|i: int| 0 <= i < rows@.len() ==> (#[trigger] rows@[i])@.len() == size,
    ensures
        size > 0 ==> column_contents(r) == vector_column_view(bit_rows(rows@), size),
        size == 0 ==> column_contents(r) == vector_column_view(seq![], size),
{
    ArrowColumn {
        array: Arc::new(
            FixedSizeListArray::from_iter_primitive::<Float32Type, _, _>(
                rows.iter().map(
                    |row| Some(row.iter().map(
                        |b| Some(<<Float32Type as ArrowPrimitiveType>::Native>::from_bits(*b)),
                    ).collect::<Vec<_>>()),
                ),
                size,
            ),
        ),
    }
}

/// `Schema::new` of `arrow_schema` makes a schema of the given fields, in
/// order. A vector field is a fixed-size list whose element field is the
/// default one.
#[verifier::external_body]
pub(crate) fn schema_of(fields: &Vec<FieldSpec>) -> (r: Arc<Schema>)
    ensures
        schema_fields(*r) == Some(field_views(fields@)),
{
    Arc::new(Schema::new(fields.iter().map(|f| {
        let data_type = match f.kind {
            ColumnKind::Text => DataType::Utf8,
            ColumnKind::Int => DataType::Int32,
            ColumnKind::Vector(n) => DataType::new_fixed_size_list(DataType::Float32, n, true),
        };
        Field::new(f.name.as_str(), data_type, f.nullable)
    }).collect::<Vec<Field>>()))
}

/// What each column holds, in turn.
pub open spec fn contents(columns: Seq<ArrowColumn>) -> Seq<ColumnView> {
    columns.map_values(|c: ArrowColumn| column_contents(c))
}

/// Whether the columns make up a batch with the given fields: there is one of
/// the right type for each field, at least one, all of the same length, and a
/// field that may not hold nulls holds none.
pub open spec fn fit_fields(fields: Seq<FieldView>, columns: Seq<ColumnView>) -> bool {
    &&& columns.len() == fields.len()
    &&& columns.len() > 0
    &&& forall|i: int|
        0 <= i < columns.len() ==> (#[trigger] columns[i]).len() == columns[0].len()
    &&& forall|i: int| 0 <= i < columns.len() ==> (#[trigger] columns[i]).is_of(fields[i].kind)
    &&& forall|i: int|
        0 <= i < columns.len() && !fields[i].nullable ==> (#[trigger] columns[i]).has_no_null()
}

/// The columns, each with the name of its field.
pub open spec fn named_columns(fields: Seq<FieldView>, columns: Seq<ColumnView>) -> Seq<
    (Seq<char>, ColumnView),
> {
    Seq::new(fields.len(), |i: int| (fields[i].name, columns[i]))
}

/// `RecordBatch::try_new` of `arrow_array` puts columns together to a batch,
/// with an error where they do not fit the schema's fields. Of fields and
/// columns of other types than [`ColumnKind`] names, nothing is said.
#[verifier::external_body]
pub(crate) fn new_batch(schema: Arc<Schema>, columns: Vec<ArrowColumn>) -> (r: Result<
    ArrowBatch,
    ArrowError,
>)
    requires
        schema_fields(*schema) is Some,
        forall|i: int| 0 <= i < columns@.len() ==> (#[trigger] contents(columns@)[i]).is_known(),
    ensures
        r is Ok <==> fit_fields(schema_fields(*schema)->0, contents(columns@)),
        r matches Ok(batch) ==> {
            &&& batch_columns(batch) == named_columns(
                schema_fields(*schema)->0,
                contents(columns@),
            )
            &&& batch_rows(batch) == contents(columns@)[0].len()
        },
{
    let arrays = columns.into_iter().map(|c| c.array).collect();
    RecordBatch::try_new(schema, arrays).map(|batch| ArrowBatch { batch })
}

/// `RecordBatch::num_rows` of `arrow_array` gives the number of rows.
#[verifier::external_body]
pub(crate) fn num_rows(batch: &ArrowBatch) -> (r: usize)
    ensures
        r == batch_rows(*batch),
{
    batch.batch.num_rows()
}

/// The first column of the given name.
pub open spec fn named(columns: Seq<(Seq<char>, ColumnView)>, name: Seq<char>) -> Option<
    ColumnView,
>
    decreases columns.len(),
{
    if columns.len() == 0 {
        None
    } else if columns[0].0 == name {
        Some(columns[0].1)
    } else {
        named(columns.drop_first(), name)
    }
}

/// `RecordBatch::column_by_name` of `arrow_array` gives the first column of
/// the given name, if there is one. Each column of a batch has as many slots
/// as the batch has rows, and a value in each slot.
#[verifier::external_body]
pub(crate) fn column_by_name(batch: &ArrowBatch, name: &str) -> (r: Option<ArrowColumn>)
    ensures
        match named(batch_columns(*batch), name@) {
            Some(view) => r matches Some(column) && column_contents(column) == view && view.len()
                == batch_rows(*batch) && view.is_whole(),
            None => r is None,
        },
{
    batch.batch.column_by_name(name).map(|array| ArrowColumn { array: array.clone() })
}

/// `Any::downcast_ref` to a `StringArray` of `arrow_array` tells whether the
/// column is one of strings.
#[verifier::external_body]
pub(crate) fn is_text(column: &ArrowColumn) -> (r: bool)
    ensures
        r == (column_contents(*column).values is Text),
{
    column.array.as_any().downcast_ref::<StringArray>().is_some()
}

/// `Any::downcast_ref` to an `Int32Array` of `arrow_array` tells whether the
/// column is one of integers.
#[verifier::external_body]
pub(crate) fn is_int(column: &ArrowColumn) -> (r: bool)
    ensures
        r == (column_contents(*column).values is Int),
{
    column.array.as_any().downcast_ref::<Int32Array>().is_some()
}

/// `Any::downcast_ref` to a `FixedSizeListArray` of `arrow_array` tells
/// whether the column is one of lists of a fixed size.
#[verifier::external_body]
pub(crate) fn is_lists(column: &ArrowColumn) -> (r: bool)
    ensures
        r == (column_contents(*column).values is Vectors || column_contents(
            *column,
        ).values is OtherLists),
{
    column.array.as_any().downcast_ref::<FixedSizeListArray>().is_some()
}

/// `FixedSizeListArray::values` of `arrow_array` gives the elements of all
/// lists, and `Any::downcast_ref` tells whether they are single-precision
/// numbers.
#[verifier::external_body]
pub(crate) fn is_vectors(column: &ArrowColumn) -> (r: bool)
    ensures
        r == (column_contents(*column).values is Vectors),
{
    match column.array.as_any().downcast_ref::<FixedSizeListArray>() {
        Some(list) => list.values().as_any().downcast_ref::<Float32Array>().is_some(),
        None => false,
    }
}

/// `Array::is_null` of `arrow_array` tells whether a slot is null. It panics
/// beyond the last slot.
#[verifier::external_body]
pub(crate) fn is_null(column: &ArrowColumn, row: usize) -> (r: bool)
    requires
        row < column_contents(*column).len(),
    ensures
        r == column_contents(*column).nulls[row as int],
{
    column.array.is_null(row)
}

/// `StringArray::value` of `arrow_array` gives the string in a slot. It
/// panics beyond the last slot.
#[verifier::external_body]
pub(crate) fn text_value(column: &ArrowColumn, row: usize) -> (r: String)
    requires
        column_contents(*column).values is Text,
        row < column_contents(*column).len(),
    ensures
        column_contents(*column).values matches ColumnValues::Text(values) ==> r@
            == values[row as int],
{
    column.array.as_any().downcast_ref::<StringArray>().unwrap().value(row).to_string()
}

/// `Int32Array::value` of `arrow_array` gives the integer in a slot. It
/// panics beyond the last slot.
#[verifier::external_body]
pub(crate) fn int_value(column: &ArrowColumn, row: usize) -> (r: i32)
    requires
        column_contents(*column).values is Int,
        row < column_contents(*column).len(),
    ensures
        column_contents(*column).values matches ColumnValues::Int(values) ==> r
            == values[row as int],
{
    column.array.as_any().downcast_ref::<Int32Array>().unwrap().value(row)
}

/// `FixedSizeListArray::value` of `arrow_array` gives the list in a slot, and
/// `Float32Array::values` its elements, nulls among them as their slots hold
/// them. It panics beyond the last slot.
#[verifier::external_body]
pub(crate) fn vector_value(column: &ArrowColumn, row: usize) -> (r: Vec<u32>)
    requires
        column_contents(*column).values is Vectors,
        row < column_contents(*column).len(),
    ensures
        column_contents(*column).values matches ColumnValues::Vectors {
            standard,
            size,
            rows,
        } ==> r@ == rows[row as int],
{
    let list = column.array.as_any().downcast_ref::<FixedSizeListArray>().unwrap().value(row);
    let numbers = list.as_any().downcast_ref::<Float32Array>().unwrap();
    numbers.values().iter().map(|v| v.to_bits()).collect()
}

} // verus!
