//! Arrow record batches and columns: what they hold, and the Arrow functions that make, read,
//! select and sort them.

use crate::nested::{column_group, joinable, no_dictionaries, sortable, takeable};
use arrow_array::cast::AsArray;
use arrow_array::types as t;
use arrow_array::{Array, StructArray};
use arrow_schema::{ArrowError, DataType as D, Field, IntervalUnit, Schema, UnionMode};
use std::sync::Arc;
use vstd::prelude::*;

verus! {

/// The schema of a record batch.
#[verifier::external_type_specification]
#[verifier::external_body]
pub struct ExSchema(arrow_schema::Schema);

/// One field of a schema.
#[verifier::external_type_specification]
#[verifier::external_body]
pub struct ExField(arrow_schema::Field);

/// The error of the Arrow functions.
#[verifier::external_type_specification]
#[verifier::external_body]
pub struct ExArrowError(arrow_schema::ArrowError);

/// An `arrow_array::RecordBatch`: named columns of one length. What it holds is known through the
/// names below alone.
#[verifier::external_body]
pub struct RecordBatch {
    pub inner: arrow_array::RecordBatch,
}

/// An `arrow_array::ArrayRef`: one column of a record batch, which batches can share. What it
/// holds is known through the names below alone.
#[verifier::external_body]
pub struct Column {
    array: arrow_array::ArrayRef,
}

/// One value of a column. The variants name the column's Arrow type. What stands inside another
/// value and is null, or stands for one that is, is `Null` there.
pub enum Cell {
    Null,
    Boolean(bool),
    Int8(i8),
    Int16(i16),
    Int32(i32),
    Int64(i64),
    UInt8(u8),
    UInt16(u16),
    UInt32(u32),
    UInt64(u64),
    /// A number with a fractional part, by its place in the total order of such numbers.
    Float16(i16),
    /// A number with a fractional part, by its place in the total order of such numbers.
    Float32(i32),
    /// A number with a fractional part, by its place in the total order of such numbers.
    Float64(i64),
    Utf8(Seq<char>),
    LargeUtf8(Seq<char>),
    Utf8View(Seq<char>),
    Binary(Seq<u8>),
    LargeBinary(Seq<u8>),
    BinaryView(Seq<u8>),
    FixedSizeBinary(Seq<u8>),
    Date32(i32),
    Date64(i64),
    /// The time of day in the unit of the column.
    Time32(i32),
    /// The time of day in the unit of the column.
    Time64(i64),
    /// A span of time in the unit of the column.
    Duration(i64),
    TimestampSeconds(i64),
    TimestampMillis(i64),
    TimestampMicros(i64),
    TimestampNanos(i64),
    /// The unscaled value.
    Decimal32(i32),
    /// The unscaled value.
    Decimal64(i64),
    /// The unscaled value.
    Decimal128(i128),
    /// The unscaled value.
    Decimal256(int),
    /// The months.
    IntervalYearMonth(i32),
    /// The days and the milliseconds.
    IntervalDayTime(i32, i32),
    /// The months, the days and the nanoseconds.
    IntervalMonthDayNano(i32, i32, i64),
    /// The items of a list of any kind, or the entries of a map.
    List(Seq<Cell>),
    /// The fields of a structure.
    Struct(Seq<Cell>),
    /// What a key of a dictionary, or a run, stands for.
    Encoded(Box<Cell>),
    /// The number of a variant and its value.
    Union(int, Box<Cell>),
    /// The one value of a column of nothing but nulls.
    Nothing,
}

/// How a column is laid out.
#[derive(Clone, Copy, Debug, PartialEq, Eq, Structural)]
pub enum ColumnKind {
    /// Without columns inside.
    Leaf,
    /// Lists or maps behind 32-bit offsets.
    List,
    /// Lists behind 64-bit offsets.
    LargeList,
    /// List views with 32-bit offsets.
    ListView,
    /// List views with 64-bit offsets.
    LargeListView,
    FixedSizeList,
    Struct,
    /// Keys into a column of values.
    Dictionary,
    /// The ends of runs, and a value for each.
    RunEnd,
    /// A union whose variants are all as long as the union.
    SparseUnion,
    /// A union with offsets into its variants.
    DenseUnion,
}

/// How a column without columns inside is laid out.
#[derive(Clone, Copy, Debug, PartialEq, Eq, Structural)]
pub enum LeafKind {
    /// Values of one width, aligned to it as far as it goes.
    Primitive,
    /// Intervals of days and milliseconds: values of eight bytes, aligned to four.
    DayTime,
    /// Values of one bit.
    Boolean,
    /// Values of as many bytes as the type says.
    FixedBinary,
    /// No values at all.
    Null,
    /// Runs of bytes behind 32-bit offsets.
    Bytes,
    /// Runs of bytes behind 64-bit offsets.
    LargeBytes,
    /// Runs of bytes behind views, which number the buffers they lie in.
    ByteView,
}

/// The values of a column, row by row.
pub uninterp spec fn column_cells(column: Column) -> Seq<Cell>;

/// The columns of a batch, each with its values row by row.
pub uninterp spec fn batch_columns(batch: RecordBatch) -> Seq<Seq<Cell>>;

/// The number of rows of a batch, which it keeps also without columns.
pub uninterp spec fn batch_rows(batch: RecordBatch) -> nat;

/// The schema of a batch.
pub uninterp spec fn batch_schema(batch: RecordBatch) -> Schema;

/// The fields of a schema, in order.
pub uninterp spec fn schema_fields(schema: Schema) -> Seq<Field>;

/// The schema of the given fields that carries nothing else.
pub uninterp spec fn plain_schema(fields: Seq<Field>) -> Schema;

/// The field of 64-bit integers with the given name.
pub uninterp spec fn int64_field_of(name: Seq<char>, nullable: bool) -> Field;

/// One column of a batch.
pub uninterp spec fn column_at(batch: RecordBatch, j: int) -> Column;

/// The column of the given rows of another, or why it cannot be made.
pub uninterp spec fn take_of(column: Column, rows: Seq<u32>) -> Result<Column, ArrowError>;

/// The batch of the given columns, or why it cannot be made.
pub uninterp spec fn new_batch_of(schema: Schema, columns: Seq<Column>) -> Result<
    RecordBatch,
    ArrowError,
>;

/// The batch of the rows of all batches, or why it cannot be made, where no column has a
/// dictionary.
pub uninterp spec fn concat_of(schema: Schema, batches: Seq<RecordBatch>) -> Result<
    RecordBatch,
    ArrowError,
>;

/// Why the rows of the columns cannot be sorted, if they cannot.
pub uninterp spec fn sort_error(
    columns: Seq<Column>,
    descending: bool,
    nulls_first: bool,
) -> Option<ArrowError>;

/// The column of the given numbers.
pub uninterp spec fn int64_column(values: Seq<i64>) -> Column;

/// How a column is laid out.
pub uninterp spec fn column_kind(column: Column) -> ColumnKind;

/// How a column without columns inside is laid out.
pub uninterp spec fn column_leaf(column: Column) -> LeafKind;

/// The bytes of a value, or the items of a list, that the type of a column fixes.
pub uninterp spec fn column_width(column: Column) -> usize;

/// Whether a structure has no null in a field that is declared to hold none, but where it is null
/// itself.
pub uninterp spec fn struct_sound(column: Column) -> bool;

/// What a column stores in a row, be it null or not. The variant names the column's type.
pub uninterp spec fn stored_cell(column: Column, row: int) -> Cell;

/// The key that a dictionary stores in a row, be it null or not.
pub uninterp spec fn column_key(column: Column, row: int) -> int;

/// The width in bytes of the keys of a dictionary, and whether they have a sign.
pub uninterp spec fn column_key_type(column: Column) -> (usize, bool);

/// The columns inside a column.
pub uninterp spec fn column_children(column: Column) -> Seq<Column>;

/// How many columns deep a column goes.
pub uninterp spec fn column_depth(column: Column) -> nat;

/// The first and the last offset of a column that has offsets.
pub uninterp spec fn column_offsets(column: Column) -> (usize, usize);

/// The number of buffers of a column.
pub uninterp spec fn column_buffers(column: Column) -> usize;

/// The rows of a column from `start` on, `len` of them.
pub uninterp spec fn slice_of(column: Column, start: int, len: int) -> Column;

/// Whether the buffers of a column can be found to use the given number of bytes. More than one
/// number can: it depends on how they were allocated and shared.
pub uninterp spec fn can_measure(column: Column, bytes: usize) -> bool;

/// What an Arrow error says.
pub uninterp spec fn arrow_error_text(error: ArrowError) -> Seq<char>;

/// Whether no value is null.
pub open spec fn no_nulls(cells: Seq<Cell>) -> bool {
    forall|i: int| 0 <= i < cells.len() ==> !(#[trigger] cells[i] is Null)
}

/// The values at the given rows, in the given order.
pub open spec fn select(cells: Seq<Cell>, rows: Seq<int>) -> Seq<Cell> {
    Seq::new(rows.len(), |i: int| cells[rows[i]])
}

/// Every column with the values at the given rows.
pub open spec fn select_rows(columns: Seq<Seq<Cell>>, rows: Seq<int>) -> Seq<Seq<Cell>> {
    Seq::new(columns.len(), |j: int| select(columns[j], rows))
}

/// The rows that a vector of indices names.
pub open spec fn row_numbers(indices: Seq<u32>) -> Seq<int> {
    Seq::new(indices.len(), |i: int| indices[i] as int)
}

/// The values of each column of a sequence of columns.
pub open spec fn cells_of(columns: Seq<Column>) -> Seq<Seq<Cell>> {
    Seq::new(columns.len(), |j: int| column_cells(columns[j]))
}

/// The fields behind shared pointers.
pub open spec fn shared_fields(fields: Seq<Arc<Field>>) -> Seq<Field> {
    Seq::new(fields.len(), |i: int| *fields[i])
}

/// Column `j` of all batches, one after the other.
pub open spec fn concat_column(batches: Seq<RecordBatch>, j: int) -> Seq<Cell>
    decreases batches.len(),
{
    if batches.len() == 0 {
        Seq::empty()
    } else {
        concat_column(batches.drop_last(), j) + batch_columns(batches.last())[j]
    }
}

/// The rows of all batches together.
pub open spec fn total_rows(batches: Seq<RecordBatch>) -> nat
    decreases batches.len(),
{
    if batches.len() == 0 {
        0
    } else {
        total_rows(batches.drop_last()) + batch_rows(batches.last())
    }
}

/// Whether text stands strictly before other text, code point by code point.
pub open spec fn text_less(a: Seq<char>, b: Seq<char>) -> bool
    decreases a.len(),
{
    if a.len() == 0 || b.len() == 0 {
        a.len() < b.len()
    } else if a[0] != b[0] {
        (a[0] as u32) < (b[0] as u32)
    } else {
        text_less(a.drop_first(), b.drop_first())
    }
}

/// Whether bytes stand strictly before other bytes, byte by byte.
pub open spec fn bytes_less(a: Seq<u8>, b: Seq<u8>) -> bool
    decreases a.len(),
{
    if a.len() == 0 || b.len() == 0 {
        a.len() < b.len()
    } else if a[0] != b[0] {
        a[0] < b[0]
    } else {
        bytes_less(a.drop_first(), b.drop_first())
    }
}

/// Where a number stands to another: below zero before it, above zero after it.
pub open spec fn number_order(a: int, b: int) -> int {
    if a < b {
        -1
    } else if a > b {
        1
    } else {
        0
    }
}

/// The first of the two that tells things apart.
pub open spec fn then_order(first: int, second: int) -> int {
    if first != 0 {
        first
    } else {
        second
    }
}

/// Where text stands to other text.
pub open spec fn text_order(a: Seq<char>, b: Seq<char>) -> int {
    if text_less(a, b) {
        -1
    } else if text_less(b, a) {
        1
    } else {
        0
    }
}

/// Where bytes stand to other bytes.
pub open spec fn bytes_order(a: Seq<u8>, b: Seq<u8>) -> int {
    if bytes_less(a, b) {
        -1
    } else if bytes_less(b, a) {
        1
    } else {
        0
    }
}

/// Whether a value is null, or stands for one that is.
pub open spec fn stands_for_null(cell: Cell) -> bool
    decreases cell,
{
    match cell {
        Cell::Null | Cell::Nothing => true,
        Cell::Encoded(value) => stands_for_null(*value),
        Cell::Union(_, value) => stands_for_null(*value),
        _ => false,
    }
}

/// Where a value stands to another of the same type: below zero before it, above zero after it.
/// Nulls are alike, and before or after all others as told. Lists go by their first items that
/// differ, the shorter first where none does, structures by their first fields that differ, and
/// unions by the variant and then by its value.
pub open spec fn cell_order(a: Cell, b: Cell, nulls_low: bool) -> int
    decreases a,
{
    if stands_for_null(a) || stands_for_null(b) {
        if stands_for_null(a) == stands_for_null(b) {
            0
        } else if stands_for_null(a) == nulls_low {
            -1
        } else {
            1
        }
    } else {
        match (a, b) {
            (Cell::Boolean(x), Cell::Boolean(y)) => number_order(
                if x { 1int } else { 0 },
                if y { 1int } else { 0 },
            ),
            (Cell::Int8(x), Cell::Int8(y)) => number_order(x as int, y as int),
            (Cell::Int16(x), Cell::Int16(y)) => number_order(x as int, y as int),
            (Cell::Int32(x), Cell::Int32(y)) => number_order(x as int, y as int),
            (Cell::Int64(x), Cell::Int64(y)) => number_order(x as int, y as int),
            (Cell::UInt8(x), Cell::UInt8(y)) => number_order(x as int, y as int),
            (Cell::UInt16(x), Cell::UInt16(y)) => number_order(x as int, y as int),
            (Cell::UInt32(x), Cell::UInt32(y)) => number_order(x as int, y as int),
            (Cell::UInt64(x), Cell::UInt64(y)) => number_order(x as int, y as int),
            (Cell::Float16(x), Cell::Float16(y)) => number_order(x as int, y as int),
            (Cell::Float32(x), Cell::Float32(y)) => number_order(x as int, y as int),
            (Cell::Float64(x), Cell::Float64(y)) => number_order(x as int, y as int),
            (Cell::Date32(x), Cell::Date32(y)) => number_order(x as int, y as int),
            (Cell::Date64(x), Cell::Date64(y)) => number_order(x as int, y as int),
            (Cell::Time32(x), Cell::Time32(y)) => number_order(x as int, y as int),
            (Cell::Time64(x), Cell::Time64(y)) => number_order(x as int, y as int),
            (Cell::Duration(x), Cell::Duration(y)) => number_order(x as int, y as int),
            (Cell::TimestampSeconds(x), Cell::TimestampSeconds(y)) => number_order(
                x as int,
                y as int,
            ),
            (Cell::TimestampMillis(x), Cell::TimestampMillis(y)) => number_order(
                x as int,
                y as int,
            ),
            (Cell::TimestampMicros(x), Cell::TimestampMicros(y)) => number_order(
                x as int,
                y as int,
            ),
            (Cell::TimestampNanos(x), Cell::TimestampNanos(y)) => number_order(
                x as int,
                y as int,
            ),
            (Cell::Decimal32(x), Cell::Decimal32(y)) => number_order(x as int, y as int),
            (Cell::Decimal64(x), Cell::Decimal64(y)) => number_order(x as int, y as int),
            (Cell::Decimal128(x), Cell::Decimal128(y)) => number_order(x as int, y as int),
            (Cell::IntervalYearMonth(x), Cell::IntervalYearMonth(y)) => number_order(
                x as int,
                y as int,
            ),
            (Cell::Utf8(x), Cell::Utf8(y)) => text_order(x, y),
            (Cell::LargeUtf8(x), Cell::LargeUtf8(y)) => text_order(x, y),
            (Cell::Utf8View(x), Cell::Utf8View(y)) => text_order(x, y),
            (Cell::Binary(x), Cell::Binary(y)) => bytes_order(x, y),
            (Cell::LargeBinary(x), Cell::LargeBinary(y)) => bytes_order(x, y),
            (Cell::BinaryView(x), Cell::BinaryView(y)) => bytes_order(x, y),
            (Cell::FixedSizeBinary(x), Cell::FixedSizeBinary(y)) => bytes_order(x, y),
            (Cell::Decimal256(x), Cell::Decimal256(y)) => number_order(x, y),
            (Cell::IntervalDayTime(x, y), Cell::IntervalDayTime(u, v)) => then_order(
                number_order(x as int, u as int),
                number_order(y as int, v as int),
            ),
            (
                Cell::IntervalMonthDayNano(x, y, z),
                Cell::IntervalMonthDayNano(u, v, w),
            ) => then_order(
                number_order(x as int, u as int),
                then_order(number_order(y as int, v as int), number_order(z as int, w as int)),
            ),
            (Cell::List(x), Cell::List(y)) => cells_order(x, y, nulls_low),
            (Cell::Struct(x), Cell::Struct(y)) => cells_order(x, y, nulls_low),
            (Cell::Encoded(x), Cell::Encoded(y)) => cell_order(*x, *y, nulls_low),
            (Cell::Union(i, x), Cell::Union(j, y)) => then_order(
                number_order(i, j),
                cell_order(*x, *y, nulls_low),
            ),
            _ => 0,
        }
    }
}

/// Where a run of values stands to another: the first values that differ decide, and the shorter
/// comes first where none does.
pub open spec fn cells_order(a: Seq<Cell>, b: Seq<Cell>, nulls_low: bool) -> int
    decreases a,
{
    if a.len() == 0 || b.len() == 0 {
        number_order(a.len() as int, b.len() as int)
    } else {
        then_order(
            cell_order(a[0], b[0], nulls_low),
            cells_order(a.subrange(1, a.len() as int), b.subrange(1, b.len() as int), nulls_low),
        )
    }
}

/// Whether a value must stand before another in a sorted column.
pub open spec fn cell_before(a: Cell, b: Cell, descending: bool, nulls_first: bool) -> bool {
    if stands_for_null(a) || stands_for_null(b) {
        if nulls_first {
            stands_for_null(a) && !stands_for_null(b)
        } else {
            stands_for_null(b) && !stands_for_null(a)
        }
    } else if descending {
        cell_order(a, b, !nulls_first) > 0
    } else {
        cell_order(a, b, nulls_first) < 0
    }
}

/// Whether row `r` must stand before row `s`: the first column that tells them apart decides.
pub open spec fn row_before(
    columns: Seq<Seq<Cell>>,
    r: int,
    s: int,
    descending: bool,
    nulls_first: bool,
) -> bool
    decreases columns.len(),
{
    if columns.len() == 0 {
        false
    } else {
        let a = columns[0][r];
        let b = columns[0][s];
        cell_before(a, b, descending, nulls_first) || (!cell_before(b, a, descending, nulls_first)
            && row_before(columns.drop_first(), r, s, descending, nulls_first))
    }
}

/// Whether `rows` lists the rows of the columns in sorted order.
pub open spec fn in_order(
    columns: Seq<Seq<Cell>>,
    rows: Seq<int>,
    descending: bool,
    nulls_first: bool,
) -> bool {
    forall|i: int, j: int|
        #![trigger rows[i], rows[j]]
        0 <= i < j < rows.len() ==> !row_before(
            columns,
            rows[j],
            rows[i],
            descending,
            nulls_first,
        )
}

/// Whether `rows` lists each of the rows `0..n` exactly once.
pub open spec fn is_permutation(rows: Seq<int>, n: nat) -> bool {
    &&& rows.len() == n
    &&& rows.no_duplicates()
    &&& forall|i: int| 0 <= i < n ==> 0 <= #[trigger] rows[i] < n
}

impl RecordBatch {
    /// The number of rows.
    pub fn rows(&self) -> (n: usize)
        ensures
            n == batch_rows(*self),
            forall|j: int|
                0 <= j < batch_columns(*self).len() ==> (#[trigger] batch_columns(*self)[j]).len()
                    == n,
    {
        self.num_rows()
    }

    /// The number of columns.
    pub fn columns(&self) -> (n: usize)
        ensures
            n == batch_columns(*self).len(),
            n == schema_fields(batch_schema(*self)).len(),
    {
        self.num_columns()
    }

    /// `RecordBatch::num_rows`: the number of rows, which is the length of every column.
    #[verifier::external_body]
    pub(crate) fn num_rows(&self) -> (n: usize)
        ensures
            n == batch_rows(*self),
            forall|j: int|
                0 <= j < batch_columns(*self).len() ==> (#[trigger] batch_columns(*self)[j]).len()
                    == n,
    {
        self.inner.num_rows()
    }

    /// `RecordBatch::num_columns`: the number of columns, which is the number of fields.
    #[verifier::external_body]
    pub(crate) fn num_columns(&self) -> (n: usize)
        ensures
            n == batch_columns(*self).len(),
            n == schema_fields(batch_schema(*self)).len(),
    {
        self.inner.num_columns()
    }

    /// `RecordBatch::column`: one column, which the batch then shares.
    #[verifier::external_body]
    pub(crate) fn column(&self, j: usize) -> (r: Column)
        requires
            j < batch_columns(*self).len(),
        ensures
            r == column_at(*self, j as int),
            column_cells(r) == batch_columns(*self)[j as int],
    {
        Column { array: self.inner.column(j).clone() }
    }

    /// `RecordBatch::schema`: the schema.
    #[verifier::external_body]
    pub(crate) fn schema(&self) -> (r: Arc<Schema>)
        ensures
            *r == batch_schema(*self),
    {
        self.inner.schema()
    }

    /// `RecordBatch::clone`: the same batch again, its columns shared.
    #[verifier::external_body]
    pub(crate) fn share(&self) -> (r: RecordBatch)
        ensures
            r == *self,
    {
        RecordBatch { inner: self.inner.clone() }
    }

    /// `RecordBatch::try_new`: a batch of the given columns, at least one, all of one length and
    /// as many as the schema has fields. An error otherwise, or where a column's type or nulls
    /// are not what its field declares.
    #[verifier::external_body]
    pub(crate) fn try_new(schema: &Arc<Schema>, columns: Vec<Column>) -> (r: Result<
        RecordBatch,
        ArrowError,
    >)
        ensures
            r == new_batch_of(**schema, columns@),
            r matches Ok(batch) ==> {
                &&& batch_schema(batch) == **schema
                &&& batch_columns(batch) == cells_of(columns@)
                &&& columns@.len() == schema_fields(**schema).len()
                &&& columns@.len() > 0
                &&& forall|j: int|
                    0 <= j < columns@.len() ==> column_cells(#[trigger] columns@[j]).len()
                        == batch_rows(batch)
            },
    {
        let arrays = columns.into_iter().map(|c| c.array).collect();
        arrow_array::RecordBatch::try_new(schema.clone(), arrays).map(|inner| RecordBatch { inner })
    }

    /// `concat_batches`: the rows of all batches in order, under the given schema. Columns beyond
    /// the schema's fields are left out. How dictionaries are merged, and so what the joined batch
    /// is beyond its values and whether it can be made, depends also on whether they share memory:
    /// with dictionaries nothing more is said of the result. The columns are handed over as
    /// `StructArray::from` makes them anew of their data, without bytes beyond their rows.
    #[verifier::external_body]
    pub(crate) fn concat(schema: &Arc<Schema>, batches: &Vec<RecordBatch>) -> (r: Result<
        RecordBatch,
        ArrowError,
    >)
        requires
            batches@.len() > 0,
            total_rows(batches@) <= usize::MAX,
            forall|i: int|
                0 <= i < batches@.len() ==> batch_columns(#[trigger] batches@[i]).len()
                    >= schema_fields(**schema).len(),
            forall|j: int|
                0 <= j < schema_fields(**schema).len() ==> joinable(
                    #[trigger] column_group(batches@, j),
                ),
        ensures
            no_dictionaries(batches@, schema_fields(**schema).len()) ==> r == concat_of(
                **schema,
                batches@,
            ),
            r matches Ok(batch) ==> {
                &&& batch_schema(batch) == **schema
                &&& batch_rows(batch) == total_rows(batches@)
                &&& batch_columns(batch) == Seq::new(
                    schema_fields(**schema).len(),
                    |j: int| concat_column(batches@, j),
                )
            },
    {
        let trimmed: Vec<arrow_array::RecordBatch> = batches.iter().map(
            |b| StructArray::from(StructArray::from(b.inner.clone()).to_data()).into(),
        ).collect();
        arrow_select::concat::concat_batches(schema, &trimmed).map(|inner| RecordBatch { inner })
    }
}

impl Column {
    /// `Array::is_null`: whether the value is null.
    #[verifier::external_body]
    pub(crate) fn is_null(&self, row: usize) -> (r: bool)
        requires
            row < column_cells(*self).len(),
        ensures
            r == (column_cells(*self)[row as int] is Null),
    {
        self.array.is_null(row)
    }

    /// `Array::data_type`: how the column is laid out.
    #[verifier::external_body]
    pub(crate) fn kind(&self) -> (r: ColumnKind)
        ensures
            r == column_kind(*self),
    {
        match self.array.data_type() {
            D::List(_) | D::Map(_, _) => ColumnKind::List,
            D::LargeList(_) => ColumnKind::LargeList,
            D::ListView(_) => ColumnKind::ListView,
            D::LargeListView(_) => ColumnKind::LargeListView,
            D::FixedSizeList(_, _) => ColumnKind::FixedSizeList,
            D::Struct(_) => ColumnKind::Struct,
            D::Dictionary(_, _) => ColumnKind::Dictionary,
            D::RunEndEncoded(_, _) => ColumnKind::RunEnd,
            D::Union(_, UnionMode::Sparse) => ColumnKind::SparseUnion,
            D::Union(_, UnionMode::Dense) => ColumnKind::DenseUnion,
            _ => ColumnKind::Leaf,
        }
    }

    /// `Array::data_type`: how a column without columns inside is laid out.
    #[verifier::external_body]
    pub(crate) fn leaf(&self) -> (r: LeafKind)
        ensures
            r == column_leaf(*self),
    {
        match self.array.data_type() {
            D::Interval(IntervalUnit::DayTime) => LeafKind::DayTime,
            D::Boolean => LeafKind::Boolean,
            D::FixedSizeBinary(_) => LeafKind::FixedBinary,
            D::Null => LeafKind::Null,
            D::Utf8 | D::Binary => LeafKind::Bytes,
            D::LargeUtf8 | D::LargeBinary => LeafKind::LargeBytes,
            D::Utf8View | D::BinaryView => LeafKind::ByteView,
            _ => LeafKind::Primitive,
        }
    }

    /// `Array::data_type`: the bytes of a value of fixed-size binary, or the items of a
    /// fixed-size list.
    #[verifier::external_body]
    pub(crate) fn width(&self) -> (r: usize)
        ensures
            r == column_width(*self),
    {
        match self.array.data_type() {
            D::FixedSizeBinary(width) | D::FixedSizeList(_, width) => *width as usize,
            _ => 0,
        }
    }

    /// `StructArray::try_new_with_length`: whether a structure can be made anew of its parts. It
    /// cannot where a field that is declared to hold no nulls has one in a row in which the
    /// structure itself is not null.
    #[verifier::external_body]
    pub(crate) fn is_sound_struct(&self) -> (r: bool)
        requires
            column_kind(*self) is Struct,
        ensures
            r == struct_sound(*self),
    {
        let (fields, columns, nulls) = self.array.as_struct().clone().into_parts();
        StructArray::try_new_with_length(fields, columns, nulls, self.array.len()).is_ok()
    }

    /// `PrimitiveArray::value` of the keys of a dictionary that have a sign.
    #[verifier::external_body]
    pub(crate) fn signed_key(&self, row: usize) -> (r: i64)
        requires
            column_kind(*self) is Dictionary,
            column_key_type(*self).1,
            row < column_cells(*self).len(),
        ensures
            r == column_key(*self, row as int),
    {
        let keys = self.array.as_any_dictionary().keys();
        let narrow = keys.as_primitive_opt::<t::Int8Type>().map(|k| k.value(row) as i64);
        let short = keys.as_primitive_opt::<t::Int16Type>().map(|k| k.value(row) as i64);
        let middle = keys.as_primitive_opt::<t::Int32Type>().map(|k| k.value(row) as i64);
        let wide = keys.as_primitive_opt::<t::Int64Type>().map(|k| k.value(row));
        narrow.or(short).or(middle).or(wide).unwrap_or_default()
    }

    /// `PrimitiveArray::value` of the keys of a dictionary that have no sign.
    #[verifier::external_body]
    pub(crate) fn unsigned_key(&self, row: usize) -> (r: u64)
        requires
            column_kind(*self) is Dictionary,
            !column_key_type(*self).1,
            row < column_cells(*self).len(),
        ensures
            r == column_key(*self, row as int),
    {
        let keys = self.array.as_any_dictionary().keys();
        let narrow = keys.as_primitive_opt::<t::UInt8Type>().map(|k| k.value(row) as u64);
        let short = keys.as_primitive_opt::<t::UInt16Type>().map(|k| k.value(row) as u64);
        let middle = keys.as_primitive_opt::<t::UInt32Type>().map(|k| k.value(row) as u64);
        let wide = keys.as_primitive_opt::<t::UInt64Type>().map(|k| k.value(row));
        narrow.or(short).or(middle).or(wide).unwrap_or_default()
    }

    /// `DataType::primitive_width` and `DataType::is_signed_integer` of the keys of a dictionary:
    /// their width in bytes, and whether they have a sign.
    #[verifier::external_body]
    pub(crate) fn key_type(&self) -> (r: (usize, bool))
        requires
            column_kind(*self) is Dictionary,
        ensures
            r == column_key_type(*self),
    {
        match self.array.data_type() {
            D::Dictionary(k, _) => (k.primitive_width().unwrap_or_default(), k.is_signed_integer()),
            _ => (0, false),
        }
    }

    /// `ArrayData::child_data`: the columns inside the column, each of which goes less deep: the
    /// values of a list or a dictionary, the entries of a map, the fields of a structure or a
    /// union, the run ends and the values of a run-end encoding.
    #[verifier::external_body]
    pub(crate) fn nested(&self) -> (r: Vec<Column>)
        ensures
            r@ == column_children(*self),
            forall|i: int|
                0 <= i < r@.len() ==> column_depth(#[trigger] r@[i]) < column_depth(*self),
    {
        let data = self.array.to_data();
        let children = data.child_data().iter();
        children.map(|d| Column { array: arrow_array::make_array(d.clone()) }).collect()
    }

    /// `Array::len`: the number of values.
    #[verifier::external_body]
    pub(crate) fn len(&self) -> (r: usize)
        ensures
            r == column_cells(*self).len(),
    {
        self.array.len()
    }

    /// `Array::null_count`: the number of values that are null.
    #[verifier::external_body]
    pub(crate) fn null_count(&self) -> (r: usize)
        ensures
            r == 0 <==> no_nulls(column_cells(*self)),
    {
        self.array.null_count()
    }

    /// `GenericListArray::offsets`, `MapArray::offsets` and `GenericByteArray::offsets`: the first
    /// and the last of the 32-bit offsets. Those of a list lie within its values.
    #[verifier::external_body]
    pub(crate) fn offsets(&self) -> (r: (usize, usize))
        requires
            column_kind(*self) is List || (column_kind(*self) is Leaf && column_leaf(
                *self,
            ) is Bytes),
        ensures
            r == column_offsets(*self),
            r.0 <= r.1,
            column_kind(*self) is List ==> r.1 <= column_cells(column_children(*self)[0]).len(),
    {
        let a = &self.array;
        let lists = a.as_list_opt::<i32>().map(|x| x.offsets());
        let maps = a.as_map_opt().map(|x| x.offsets());
        let texts = a.as_string_opt::<i32>().map(|x| x.offsets());
        let bytes = a.as_binary_opt::<i32>().map(|x| x.offsets());
        let ends = lists.or(maps).or(texts).or(bytes).map(|x| (x.first(), x.last()));
        ends.map(|(first, last)| (first as usize, last as usize)).unwrap_or_default()
    }

    /// `GenericListArray::offsets` and `GenericByteArray::offsets`: the first and the last of the
    /// 64-bit offsets. Those of a list lie within its values.
    #[verifier::external_body]
    pub(crate) fn large_offsets(&self) -> (r: (usize, usize))
        requires
            column_kind(*self) is LargeList || (column_kind(*self) is Leaf && column_leaf(
                *self,
            ) is LargeBytes),
        ensures
            r == column_offsets(*self),
            r.0 <= r.1,
            column_kind(*self) is LargeList ==> r.1 <= column_cells(
                column_children(*self)[0],
            ).len(),
    {
        let a = &self.array;
        let lists = a.as_list_opt::<i64>().map(|x| x.offsets());
        let texts = a.as_string_opt::<i64>().map(|x| x.offsets());
        let bytes = a.as_binary_opt::<i64>().map(|x| x.offsets());
        let ends = lists.or(texts).or(bytes).map(|x| (x.first(), x.last()));
        ends.map(|(first, last)| (first as usize, last as usize)).unwrap_or_default()
    }

    /// `ArrayData::buffers`: the number of buffers.
    #[verifier::external_body]
    pub(crate) fn buffers(&self) -> (r: usize)
        ensures
            r == column_buffers(*self),
    {
        self.array.to_data().buffers().len()
    }

    /// `Array::slice`: the rows from `start` on, `len` of them.
    #[verifier::external_body]
    pub(crate) fn slice(&self, start: usize, len: usize) -> (r: Column)
        requires
            start + len <= column_cells(*self).len(),
        ensures
            r == slice_of(*self, start as int, len as int),
            column_cells(r) == column_cells(*self).subrange(start as int, start + len),
            column_depth(r) == column_depth(*self),
    {
        Column { array: self.array.slice(start, len) }
    }

    /// `Array::get_buffer_memory_size`: the bytes of the buffers that the column uses, which
    /// depend on how they were allocated and shared.
    #[verifier::external_body]
    pub(crate) fn memory_size(&self) -> (r: usize)
        ensures
            can_measure(*self, r),
    {
        self.array.get_buffer_memory_size()
    }

    /// `BooleanArray::value`: the value of a column of truth values.
    #[verifier::external_body]
    pub(crate) fn boolean_at(&self, row: usize) -> (r: Option<bool>)
        requires
            row < column_cells(*self).len(),
            !(column_cells(*self)[row as int] is Null),
        ensures
            r == (match column_cells(*self)[row as int] {
                Cell::Boolean(v) => Some(v),
                _ => None,
            }),
    {
        self.array.as_any().downcast_ref::<arrow_array::BooleanArray>().map(|a| a.value(row))
    }

    /// `PrimitiveArray::value` of a column of 8-bit integers.
    #[verifier::external_body]
    pub(crate) fn int8_at(&self, row: usize) -> (r: Option<i8>)
        requires
            row < column_cells(*self).len(),
        ensures
            r == (match stored_cell(*self, row as int) {
                Cell::Int8(v) => Some(v),
                _ => None,
            }),
            !(column_cells(*self)[row as int] is Null) ==> r == (match column_cells(
                *self,
            )[row as int] {
                Cell::Int8(v) => Some(v),
                _ => None,
            }),
    {
        self.array.as_any().downcast_ref::<arrow_array::Int8Array>().map(|a| a.value(row))
    }

    /// `PrimitiveArray::value` of a column of 16-bit integers.
    #[verifier::external_body]
    pub(crate) fn int16_at(&self, row: usize) -> (r: Option<i16>)
        requires
            row < column_cells(*self).len(),
        ensures
            r == (match stored_cell(*self, row as int) {
                Cell::Int16(v) => Some(v),
                _ => None,
            }),
            !(column_cells(*self)[row as int] is Null) ==> r == (match column_cells(
                *self,
            )[row as int] {
                Cell::Int16(v) => Some(v),
                _ => None,
            }),
    {
        self.array.as_any().downcast_ref::<arrow_array::Int16Array>().map(|a| a.value(row))
    }

    /// `PrimitiveArray::value` of a column of 32-bit integers.
    #[verifier::external_body]
    pub(crate) fn int32_at(&self, row: usize) -> (r: Option<i32>)
        requires
            row < column_cells(*self).len(),
        ensures
            r == (match stored_cell(*self, row as int) {
                Cell::Int32(v) => Some(v),
                _ => None,
            }),
            !(column_cells(*self)[row as int] is Null) ==> r == (match column_cells(
                *self,
            )[row as int] {
                Cell::Int32(v) => Some(v),
                _ => None,
            }),
    {
        self.array.as_any().downcast_ref::<arrow_array::Int32Array>().map(|a| a.value(row))
    }

    /// `PrimitiveArray::value` of a column of 64-bit integers.
    #[verifier::external_body]
    pub(crate) fn int64_at(&self, row: usize) -> (r: Option<i64>)
        requires
            row < column_cells(*self).len(),
        ensures
            r == (match stored_cell(*self, row as int) {
                Cell::Int64(v) => Some(v),
                _ => None,
            }),
            !(column_cells(*self)[row as int] is Null) ==> r == (match column_cells(
                *self,
            )[row as int] {
                Cell::Int64(v) => Some(v),
                _ => None,
            }),
    {
        self.array.as_any().downcast_ref::<arrow_array::Int64Array>().map(|a| a.value(row))
    }

    /// `GenericByteArray::value` of a column of text with 32-bit offsets.
    #[verifier::external_body]
    pub(crate) fn utf8_at(&self, row: usize) -> (r: Option<String>)
        requires
            row < column_cells(*self).len(),
        ensures
            match stored_cell(*self, row as int) {
                Cell::Utf8(v) => r matches Some(s) && s@ == v,
                _ => r is None,
            },
            !(column_cells(*self)[row as int] is Null) ==> match column_cells(
                *self,
            )[row as int] {
                Cell::Utf8(v) => r matches Some(s) && s@ == v,
                _ => r is None,
            },
    {
        self.array.as_any().downcast_ref::<arrow_array::StringArray>().map(
            |a| a.value(row).to_string(),
        )
    }

    /// `GenericByteArray::value` of a column of text with 64-bit offsets.
    #[verifier::external_body]
    pub(crate) fn large_utf8_at(&self, row: usize) -> (r: Option<String>)
        requires
            row < column_cells(*self).len(),
        ensures
            match stored_cell(*self, row as int) {
                Cell::LargeUtf8(v) => r matches Some(s) && s@ == v,
                _ => r is None,
            },
            !(column_cells(*self)[row as int] is Null) ==> match column_cells(
                *self,
            )[row as int] {
                Cell::LargeUtf8(v) => r matches Some(s) && s@ == v,
                _ => r is None,
            },
    {
        self.array.as_any().downcast_ref::<arrow_array::LargeStringArray>().map(
            |a| a.value(row).to_string(),
        )
    }

    /// `PrimitiveArray::value` of a column of days.
    #[verifier::external_body]
    pub(crate) fn date32_at(&self, row: usize) -> (r: Option<i32>)
        requires
            row < column_cells(*self).len(),
            !(column_cells(*self)[row as int] is Null),
        ensures
            r == (match column_cells(*self)[row as int] {
                Cell::Date32(v) => Some(v),
                _ => None,
            }),
    {
        self.array.as_any().downcast_ref::<arrow_array::Date32Array>().map(|a| a.value(row))
    }

    /// `PrimitiveArray::value` of a column of instants in milliseconds.
    #[verifier::external_body]
    pub(crate) fn timestamp_millis_at(&self, row: usize) -> (r: Option<i64>)
        requires
            row < column_cells(*self).len(),
            !(column_cells(*self)[row as int] is Null),
        ensures
            r == (match column_cells(*self)[row as int] {
                Cell::TimestampMillis(v) => Some(v),
                _ => None,
            }),
    {
        self.array.as_any().downcast_ref::<arrow_array::TimestampMillisecondArray>().map(
            |a| a.value(row),
        )
    }

    /// `PrimitiveArray::value` of a column of instants in microseconds.
    #[verifier::external_body]
    pub(crate) fn timestamp_micros_at(&self, row: usize) -> (r: Option<i64>)
        requires
            row < column_cells(*self).len(),
            !(column_cells(*self)[row as int] is Null),
        ensures
            r == (match column_cells(*self)[row as int] {
                Cell::TimestampMicros(v) => Some(v),
                _ => None,
            }),
    {
        self.array.as_any().downcast_ref::<arrow_array::TimestampMicrosecondArray>().map(
            |a| a.value(row),
        )
    }

    /// `PrimitiveArray::value` of a column of decimals: the unscaled value.
    #[verifier::external_body]
    pub(crate) fn decimal128_at(&self, row: usize) -> (r: Option<i128>)
        requires
            row < column_cells(*self).len(),
            !(column_cells(*self)[row as int] is Null),
        ensures
            r == (match column_cells(*self)[row as int] {
                Cell::Decimal128(v) => Some(v),
                _ => None,
            }),
    {
        self.array.as_any().downcast_ref::<arrow_array::Decimal128Array>().map(|a| a.value(row))
    }

    /// `take`: the values at the given rows, each taken once, in the given order. The column is
    /// handed over as `make_array` makes it anew of its data, without bytes beyond its rows.
    #[verifier::external_body]
    pub(crate) fn take(&self, indices: &Vec<u32>) -> (r: Result<Column, ArrowError>)
        requires
            forall|i: int|
                0 <= i < indices@.len() ==> (#[trigger] indices@[i]) < column_cells(*self).len(),
            row_numbers(indices@).no_duplicates(),
            takeable(*self, indices@.len() as int, true),
        ensures
            r == take_of(*self, indices@),
            r matches Ok(column) ==> column_cells(column) == select(
                column_cells(*self),
                row_numbers(indices@),
            ),
    {
        let rows = arrow_array::UInt32Array::from(indices.clone());
        let trimmed = arrow_array::make_array(self.array.to_data());
        arrow_select::take::take(&trimmed, &rows, None).map(|array| Column { array })
    }

    /// `Int64Array::from`: a column of the given numbers.
    #[verifier::external_body]
    pub(crate) fn from_int64(values: Vec<i64>) -> (r: Column)
        ensures
            r == int64_column(values@),
            column_cells(r) == Seq::new(values@.len(), |i: int| Cell::Int64(values@[i])),
    {
        Column { array: Arc::new(arrow_array::Int64Array::from(values)) }
    }
}

/// `lexsort_to_indices`: every row number once, in an order in which no row stands before one
/// that must precede it by the first column that tells the two apart. The order of rows that no
/// column tells apart is left open. An error where there is no column.
#[verifier::external_body]
pub(crate) fn lexsort(columns: &Vec<Column>, descending: bool, nulls_first: bool) -> (r: Result<
    Vec<u32>,
    ArrowError,
>)
    requires
        columns@.len() > 0 ==> column_cells(columns@[0]).len() <= u32::MAX,
        columns@.len() == 1 ==> sortable(columns@[0]),
    ensures
        match r {
            Ok(_) => sort_error(columns@, descending, nulls_first) is None,
            Err(error) => sort_error(columns@, descending, nulls_first) == Some(error),
        },
        r matches Ok(rows) ==> {
            &&& columns@.len() > 0
            &&& is_permutation(row_numbers(rows@), column_cells(columns@[0]).len())
            &&& in_order(
                cells_of(columns@),
                row_numbers(rows@),
                descending,
                nulls_first,
            )
        },
{
    let options = Some(arrow_ord::sort::SortOptions { descending, nulls_first });
    let keys: Vec<arrow_ord::sort::SortColumn> = columns.iter().map(
        |c| arrow_ord::sort::SortColumn { values: c.array.clone(), options },
    ).collect();
    arrow_ord::sort::lexsort_to_indices(&keys, None).map(|rows| rows.values().to_vec())
}

/// `Schema::fields`: one field of a schema.
#[verifier::external_body]
pub(crate) fn schema_field(schema: &Arc<Schema>, i: usize) -> (r: Arc<Field>)
    requires
        i < schema_fields(**schema).len(),
    ensures
        *r == schema_fields(**schema)[i as int],
{
    schema.fields()[i].clone()
}

/// `Field::new`: a field of 64-bit integers.
#[verifier::external_body]
pub(crate) fn int64_field(name: &str, nullable: bool) -> (r: Arc<Field>)
    ensures
        *r == int64_field_of(name@, nullable),
{
    Arc::new(Field::new(name, arrow_schema::DataType::Int64, nullable))
}

/// `Schema::new`: a schema of the given fields, without metadata.
#[verifier::external_body]
pub(crate) fn schema_of(fields: Vec<Arc<Field>>) -> (r: Arc<Schema>)
    ensures
        *r == plain_schema(shared_fields(fields@)),
        schema_fields(*r) == shared_fields(fields@),
{
    Arc::new(Schema::new(fields))
}

/// `ArrowError::to_string`: what went wrong, in words.
#[verifier::external_body]
pub(crate) fn error_text(error: &ArrowError) -> (r: String)
    ensures
        r@ == arrow_error_text(*error),
{
    error.to_string()
}

} // verus!
