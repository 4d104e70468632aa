//! The content of a data file of a primary-key table: the buffered rows sorted by primary key,
//! with the key columns first, then the sequence number, then the other columns.

use crate::arrow::{
    batch_columns, batch_rows, batch_schema, cells_of, column_at, column_cells, concat_column,
    concat_of, in_order, int64_column, int64_field, int64_field_of, is_permutation, lexsort,
    new_batch_of, plain_schema, row_numbers, schema_field, schema_fields, schema_of,
    select_rows, shared_fields, sort_error, stored_cell, total_rows, Cell, Column, RecordBatch,
};
use crate::binary_row::{partial_row, serialized_row, BinaryRowBuilder, RowCell, write_cell};
use crate::error::{arrow_failed, arrow_failure, Error};
use crate::nested::{
    column_group, find_unjoinable, first_unjoinable, is_sortable, joinable, no_dictionaries,
    sortable,
};
use crate::selection::{reports, select_batch, selection};
use arrow_schema::{ArrowError, Field, Schema};
use std::sync::Arc;
use vstd::prelude::*;
use vstd::string::*;
use vstd::utf8::*;

verus! {

/// The columns at the given positions.
pub open spec fn columns_at(columns: Seq<Seq<Cell>>, positions: Seq<usize>) -> Seq<Seq<Cell>> {
    Seq::new(positions.len(), |k: int| columns[positions[k] as int])
}

/// The columns of all batches, one batch after the other; as many as the first batch has.
pub open spec fn concatenated(batches: Seq<RecordBatch>) -> Seq<Seq<Cell>> {
    Seq::new(batch_columns(batches[0]).len(), |j: int| concat_column(batches, j))
}

/// Whether every batch has at least the columns of the first, among which the keys are.
pub open spec fn complete(batches: Seq<RecordBatch>, keys: Seq<usize>) -> bool {
    &&& forall|i: int|
        0 <= i < batches.len() ==> batch_columns(#[trigger] batches[i]).len() >= batch_columns(
            batches[0],
        ).len()
    &&& forall|k: int|
        0 <= k < keys.len() ==> (#[trigger] keys[k]) < batch_columns(batches[0]).len()
}

/// Whether a batch holds the rows of all batches in the given order, an order that goes by the
/// key columns, smallest first and nulls before anything else.
pub open spec fn sorted_by(
    batches: Seq<RecordBatch>,
    keys: Seq<usize>,
    rows: Seq<int>,
    sorted: RecordBatch,
) -> bool {
    let key_columns = columns_at(concatenated(batches), keys);
    &&& complete(batches, keys)
    &&& is_permutation(rows, total_rows(batches))
    &&& in_order(key_columns, rows, false, true)
    &&& batch_schema(sorted) == batch_schema(batches[0])
    &&& batch_rows(sorted) == total_rows(batches)
    &&& batch_columns(sorted) == select_rows(concatenated(batches), rows)
}

/// Whether a batch holds the rows of all batches, sorted by the key columns.
pub open spec fn is_sorted(
    batches: Seq<RecordBatch>,
    keys: Seq<usize>,
    sorted: RecordBatch,
) -> bool {
    exists|rows: Seq<int>| #[trigger] sorted_by(batches, keys, rows, sorted)
}

/// Whether row numbers list the rows of all batches in an order that goes by the key columns.
pub open spec fn is_key_order(
    batches: Seq<RecordBatch>,
    keys: Seq<usize>,
    order: Seq<u32>,
) -> bool {
    let key_columns = columns_at(concatenated(batches), keys);
    &&& is_permutation(row_numbers(order), total_rows(batches))
    &&& in_order(key_columns, row_numbers(order), false, true)
}

/// The columns of a batch at the given positions.
pub open spec fn chosen_columns(batch: RecordBatch, positions: Seq<usize>) -> Seq<Column> {
    Seq::new(positions.len(), |k: int| column_at(batch, positions[k] as int))
}

/// The number of columns of the narrowest batch.
pub open spec fn narrowest(batches: Seq<RecordBatch>) -> nat
    decreases batches.len(),
{
    let last = batch_columns(batches.last()).len();
    if batches.len() <= 1 || last < narrowest(batches.drop_last()) {
        last
    } else {
        narrowest(batches.drop_last())
    }
}

/// The first of the positions that is not below `count`.
pub open spec fn first_beyond(positions: Seq<usize>, count: nat) -> Option<usize>
    decreases positions.len(),
{
    if positions.len() == 0 {
        None
    } else if positions[0] >= count {
        Some(positions[0])
    } else {
        first_beyond(positions.drop_first(), count)
    }
}

/// The schema of the first `n` columns of the first batch: its own where it has no more.
pub open spec fn shared_schema(batches: Seq<RecordBatch>, n: nat) -> Schema {
    let fields = schema_fields(batch_schema(batches[0]));
    if n == batch_columns(batches[0]).len() {
        batch_schema(batches[0])
    } else {
        plain_schema(fields.take(n as int))
    }
}

/// What joining the first `n` columns of the batches can come to. Where a column has a
/// dictionary, all that holds of every outcome is what a joined batch holds.
pub open spec fn joins(
    batches: Seq<RecordBatch>,
    n: nat,
    joined: Result<RecordBatch, ArrowError>,
) -> bool {
    &&& no_dictionaries(batches, n) ==> joined == concat_of(shared_schema(batches, n), batches)
    &&& joined matches Ok(combined) ==> {
        &&& batch_schema(combined) == shared_schema(batches, n)
        &&& batch_rows(combined) == total_rows(batches)
        &&& batch_columns(combined) == concatenated(batches).take(n as int)
    }
}

/// What concatenating the batches and sorting their rows comes to. The columns that all batches
/// have are joined before a missing one is told. The order of rows with equal keys is left open.
pub open spec fn sorts(
    batches: Seq<RecordBatch>,
    keys: Seq<usize>,
    r: Result<RecordBatch, Error>,
) -> bool {
    match first_unjoinable(batches, narrowest(batches)) {
        Some(j) => r matches Err(Error::ColumnRefused { column }) && column == j,
        None => exists|joined: Result<RecordBatch, ArrowError>| #[trigger]
            joins(batches, narrowest(batches), joined) && sorts_joined(batches, keys, joined, r),
    }
}

/// The column that is missing from the batches, if any: the one after the last of the narrowest
/// batch where the first has more, or a key column that the first does not have.
pub open spec fn missing_column(batches: Seq<RecordBatch>, keys: Seq<usize>) -> Option<usize> {
    if narrowest(batches) < batch_columns(batches[0]).len() {
        Some(narrowest(batches) as usize)
    } else {
        first_beyond(keys, batch_columns(batches[0]).len())
    }
}

/// What sorting the rows of the joined batches comes to.
pub open spec fn sorts_joined(
    batches: Seq<RecordBatch>,
    keys: Seq<usize>,
    joined: Result<RecordBatch, ArrowError>,
    r: Result<RecordBatch, Error>,
) -> bool {
    match joined {
        Err(cause) => r matches Err(error) && arrow_failed(
            error,
            "Failed to concat batches: "@,
            cause,
        ),
        Ok(combined) => match missing_column(batches, keys) {
            Some(column) => r == Err::<RecordBatch, Error>(Error::MissingColumn { column }),
            None => sorts_rows(batches, keys, combined, r),
        },
    }
}

/// What sorting the joined rows comes to. Rows are sorted by one key column only where Arrow can
/// number the values inside it.
pub open spec fn sorts_rows(
    batches: Seq<RecordBatch>,
    keys: Seq<usize>,
    combined: RecordBatch,
    r: Result<RecordBatch, Error>,
) -> bool {
    if keys.len() == 1 && !sortable(column_at(combined, keys[0] as int)) {
        r == Err::<RecordBatch, Error>(Error::ColumnRefused { column: keys[0] })
    } else {
        match sort_error(chosen_columns(combined, keys), false, true) {
            Some(cause) => r matches Err(error) && arrow_failed(
                error,
                "Failed to sort by primary key: "@,
                cause,
            ),
            None => exists|order: Seq<u32>|
                {
                    &&& #[trigger] is_key_order(batches, keys, order)
                    &&& reports(
                        selection(combined, order),
                        "Failed to reorder by sort indices: "@,
                        "Failed to create sorted batch: "@,
                        r,
                    )
                },
        }
    }
}

/// The positions below `count` that are not among the keys, in ascending order.
pub open spec fn value_positions(count: nat, keys: Seq<usize>) -> Seq<usize>
    decreases count,
{
    if count == 0 {
        Seq::empty()
    } else {
        let rest = value_positions((count - 1) as nat, keys);
        let last = (count - 1) as usize;
        if keys.contains(last) {
            rest
        } else {
            rest.push(last)
        }
    }
}

/// Items in the order of the file: those of the keys, the extra one, and the others.
pub open spec fn laid_out<T>(items: Seq<T>, keys: Seq<usize>, extra: T) -> Seq<T> {
    let values = value_positions(items.len(), keys);
    Seq::new(keys.len(), |k: int| items[keys[k] as int]) + seq![extra] + Seq::new(
        values.len(),
        |i: int| items[values[i] as int],
    )
}

/// The column that numbers `count` rows from `start` on.
pub open spec fn sequence_column(start: int, count: nat) -> Seq<Cell> {
    Seq::new(count, |i: int| Cell::Int64((start + i) as i64))
}

/// The field of the sequence numbers.
pub open spec fn sequence_field() -> Field {
    int64_field_of("_SEQUENCE_NUMBER"@, false)
}

/// The `count` numbers from `start` on.
pub open spec fn numbers_from(start: int, count: nat) -> Seq<i64> {
    Seq::new(count, |i: int| (start + i) as i64)
}

/// All columns of a batch.
pub open spec fn all_columns(batch: RecordBatch) -> Seq<Column> {
    Seq::new(batch_columns(batch).len(), |j: int| column_at(batch, j))
}

/// The batch that the file holds for sorted rows that are numbered from `start` on, or why it
/// cannot be made.
pub open spec fn physical_of(sorted: RecordBatch, keys: Seq<usize>, start: int) -> Result<
    RecordBatch,
    ArrowError,
> {
    new_batch_of(
        plain_schema(laid_out(schema_fields(batch_schema(sorted)), keys, sequence_field())),
        laid_out(
            all_columns(sorted),
            keys,
            int64_column(numbers_from(start, batch_rows(sorted))),
        ),
    )
}

/// Whether a batch is what the file holds for sorted rows that are numbered from `start` on.
pub open spec fn is_physical(
    sorted: RecordBatch,
    keys: Seq<usize>,
    start: int,
    physical: RecordBatch,
) -> bool {
    &&& batch_schema(physical) == plain_schema(
        laid_out(schema_fields(batch_schema(sorted)), keys, sequence_field()),
    )
    &&& schema_fields(batch_schema(physical)) == laid_out(
        schema_fields(batch_schema(sorted)),
        keys,
        sequence_field(),
    )
    &&& batch_columns(physical) == laid_out(
        batch_columns(sorted),
        keys,
        sequence_column(start, batch_rows(sorted)),
    )
    &&& batch_rows(physical) == batch_rows(sorted)
}

/// What the key row stores for a value of a primary key column. A value of a type that key rows
/// have no form for is stored as null.
pub open spec fn key_cell(cell: Cell) -> RowCell {
    match cell {
        Cell::Int8(v) => RowCell::Fixed { value: v as int, width: 1 },
        Cell::Int16(v) => RowCell::Fixed { value: v as int, width: 2 },
        Cell::Int32(v) => RowCell::Fixed { value: v as int, width: 4 },
        Cell::Int64(v) => RowCell::Fixed { value: v as int, width: 8 },
        Cell::Utf8(v) => RowCell::Bytes { bytes: encode_utf8(v) },
        Cell::LargeUtf8(v) => RowCell::Bytes { bytes: encode_utf8(v) },
        _ => RowCell::Null,
    }
}

/// The fields of the key row of one row.
pub open spec fn key_cells(columns: Seq<Seq<Cell>>, keys: Seq<usize>, row: int) -> Seq<RowCell> {
    Seq::new(keys.len(), |k: int| key_cell(columns[keys[k] as int][row]))
}

/// The serialized key of one row.
pub open spec fn key_row(columns: Seq<Seq<Cell>>, keys: Seq<usize>, row: int) -> Seq<u8> {
    serialized_row(key_cells(columns, keys, row))
}

/// The first of the positions that is not below `count`.
fn find_beyond(positions: &Vec<usize>, count: usize) -> (r: Option<usize>)
    ensures
        r == first_beyond(positions@, count as nat),
        r is None ==> forall|i: int|
            0 <= i < positions@.len() ==> (#[trigger] positions@[i]) < count,
{
    let mut i: usize = 0;
    assert(positions@.skip(0) =~= positions@);
    while i < positions.len()
        invariant
            i <= positions@.len(),
            first_beyond(positions@, count as nat) == first_beyond(
                positions@.skip(i as int),
                count as nat,
            ),
            forall|k: int| 0 <= k < i ==> (#[trigger] positions@[k]) < count,
        decreases positions@.len() - i,
    {
        if positions[i] >= count {
            return Some(positions[i]);
        }
        assert(positions@.skip(i as int).drop_first() =~= positions@.skip(i + 1));
        i += 1;
    }
    None
}

/// The number of columns of the narrowest batch.
fn find_narrowest(batches: &Vec<RecordBatch>) -> (r: usize)
    requires
        batches@.len() > 0,
    ensures
        r == narrowest(batches@),
        forall|i: int| 0 <= i < batches@.len() ==> batch_columns(#[trigger] batches@[i]).len() >= r,
{
    let mut least: usize = batches[0].num_columns();
    let mut i: usize = 1;
    assert(batches@.take(1).last() == batches@[0]);
    while i < batches.len()
        invariant
            1 <= i <= batches@.len(),
            least == narrowest(batches@.take(i as int)),
            forall|k: int| 0 <= k < i ==> batch_columns(#[trigger] batches@[k]).len() >= least,
        decreases batches@.len() - i,
    {
        let count: usize = batches[i].num_columns();
        assert(batches@.take(i + 1).drop_last() =~= batches@.take(i as int));
        assert(batches@.take(i + 1).last() == batches@[i as int]);
        if count < least {
            least = count;
        }
        i += 1;
    }
    assert(batches@.take(i as int) =~= batches@);
    least
}

/// The schema of the first `n` columns of the first batch.
fn make_shared_schema(batches: &Vec<RecordBatch>, n: usize) -> (r: Arc<Schema>)
    requires
        batches@.len() > 0,
        n <= batch_columns(batches@[0]).len(),
    ensures
        *r == shared_schema(batches@, n as nat),
        schema_fields(*r).len() == n,
{
    let schema: Arc<Schema> = batches[0].schema();
    if n == batches[0].num_columns() {
        return schema;
    }
    let mut fields: Vec<Arc<Field>> = Vec::new();
    let mut i: usize = 0;
    while i < n
        invariant
            i <= n <= schema_fields(*schema).len(),
            fields@.len() == i,
            forall|k: int| 0 <= k < i ==> *(#[trigger] fields@[k]) == schema_fields(*schema)[k],
        decreases n - i,
    {
        fields.push(schema_field(&schema, i));
        i += 1;
    }
    assert(shared_fields(fields@) =~= schema_fields(*schema).take(n as int));
    schema_of(fields)
}

/// Joins the columns that all batches have.
fn join_batches(batches: &Vec<RecordBatch>, n: usize) -> (r: Result<RecordBatch, ArrowError>)
    requires
        batches@.len() > 0,
        total_rows(batches@) <= u32::MAX,
        forall|i: int| 0 <= i < batches@.len() ==> batch_columns(#[trigger] batches@[i]).len() >= n,
        forall|j: int| 0 <= j < n ==> joinable(#[trigger] column_group(batches@, j)),
    ensures
        joins(batches@, n as nat, r),
{
    assert(batch_columns(batches@[0]).len() >= n);
    let schema: Arc<Schema> = make_shared_schema(batches, n);
    let joined: Result<RecordBatch, ArrowError> = RecordBatch::concat(&schema, batches);
    assert(joined matches Ok(combined) ==> batch_columns(combined) =~= concatenated(
        batches@,
    ).take(n as int));
    joined
}

/// The columns of a batch at the given positions.
fn choose_columns(batch: &RecordBatch, positions: &Vec<usize>) -> (r: Vec<Column>)
    requires
        forall|k: int|
            0 <= k < positions@.len() ==> (#[trigger] positions@[k]) < batch_columns(*batch).len(),
    ensures
        r@ == chosen_columns(*batch, positions@),
        cells_of(r@) == columns_at(batch_columns(*batch), positions@),
{
    let mut columns: Vec<Column> = Vec::new();
    let mut k: usize = 0;
    while k < positions.len()
        invariant
            k <= positions@.len(),
            forall|i: int|
                0 <= i < positions@.len() ==> (#[trigger] positions@[i]) < batch_columns(
                    *batch,
                ).len(),
            columns@.len() == k,
            forall|i: int|
                #![trigger columns@[i]]
                0 <= i < k ==> {
                    &&& columns@[i] == column_at(*batch, positions@[i] as int)
                    &&& column_cells(columns@[i]) == batch_columns(*batch)[positions@[i] as int]
                },
        decreases positions@.len() - k,
    {
        columns.push(batch.column(positions[k]));
        k += 1;
    }
    assert(columns@ =~= chosen_columns(*batch, positions@));
    assert(cells_of(columns@) =~= columns_at(batch_columns(*batch), positions@));
    columns
}

/// Sorts the joined rows by the key columns.
fn sort_rows(combined: &RecordBatch, keys: &Vec<usize>, batches: &Vec<RecordBatch>) -> (r: Result<
    RecordBatch,
    Error,
>)
    requires
        total_rows(batches@) <= u32::MAX,
        batch_schema(*combined) == batch_schema(batches@[0]),
        batch_rows(*combined) == total_rows(batches@),
        batch_columns(*combined) == concatenated(batches@),
        complete(batches@, keys@),
    ensures
        sorts_rows(batches@, keys@, *combined, r),
        r matches Ok(sorted) ==> is_sorted(batches@, keys@, sorted),
{
    let columns: Vec<Column> = choose_columns(combined, keys);
    let total: usize = combined.num_rows();
    if columns.len() == 1 && !is_sortable(&columns[0]) {
        return Err(Error::ColumnRefused { column: keys[0] });
    }
    assert(columns@.len() > 0 ==> cells_of(columns@)[0] == batch_columns(
        *combined,
    )[keys@[0] as int]);
    let rows: Vec<u32> = match lexsort(&columns, false, true) {
        Ok(rows) => rows,
        Err(error) => return Err(arrow_failure("Failed to sort by primary key: ", error)),
    };
    let ghost order = row_numbers(rows@);
    assert forall|i: int| 0 <= i < rows@.len() implies (#[trigger] rows@[i]) < total by {
        assert(order[i] == rows@[i]);
    }
    assert(is_key_order(batches@, keys@, rows@));
    let r: Result<RecordBatch, Error> = select_batch(
        combined,
        &rows,
        "Failed to reorder by sort indices: ",
        "Failed to create sorted batch: ",
    );
    assert(r matches Ok(sorted) ==> sorted_by(batches@, keys@, order, sorted));
    r
}

/// Concatenates the batches and sorts their rows by the key columns.
pub fn sort_batches(batches: &Vec<RecordBatch>, keys: &Vec<usize>) -> (r: Result<
    RecordBatch,
    Error,
>)
    requires
        batches@.len() > 0,
        total_rows(batches@) <= u32::MAX,
    ensures
        sorts(batches@, keys@, r),
        r matches Ok(sorted) ==> is_sorted(batches@, keys@, sorted),
{
    let shared: usize = find_narrowest(batches);
    let count: usize = batches[0].num_columns();
    if let Some(column) = find_unjoinable(batches, shared) {
        return Err(Error::ColumnRefused { column });
    }
    let joined: Result<RecordBatch, ArrowError> = join_batches(batches, shared);
    assert(joins(batches@, narrowest(batches@), joined));
    let combined: RecordBatch = match joined {
        Ok(combined) => combined,
        Err(error) => return Err(arrow_failure("Failed to concat batches: ", error)),
    };
    if shared < count {
        return Err(Error::MissingColumn { column: shared });
    }
    assert(concatenated(batches@).take(shared as int) =~= concatenated(batches@));
    if let Some(column) = find_beyond(keys, count) {
        return Err(Error::MissingColumn { column });
    }
    let r: Result<RecordBatch, Error> = sort_rows(&combined, keys, batches);
    assert(sorts_joined(batches@, keys@, joined, r));
    r
}

/// Whether the position is among the keys.
fn is_key(keys: &Vec<usize>, position: usize) -> (r: bool)
    ensures
        r == keys@.contains(position),
{
    let mut k: usize = 0;
    while k < keys.len()
        invariant
            k <= keys@.len(),
            forall|i: int| 0 <= i < k ==> (#[trigger] keys@[i]) != position,
        decreases keys@.len() - k,
    {
        if keys[k] == position {
            return true;
        }
        k += 1;
    }
    false
}

/// The positions below `count` that are not among the keys.
fn value_indices(count: usize, keys: &Vec<usize>) -> (r: Vec<usize>)
    ensures
        r@ == value_positions(count as nat, keys@),
        forall|i: int| 0 <= i < r@.len() ==> (#[trigger] r@[i]) < count,
{
    let mut r: Vec<usize> = Vec::new();
    let mut i: usize = 0;
    while i < count
        invariant
            i <= count,
            r@ == value_positions(i as nat, keys@),
            forall|j: int| 0 <= j < r@.len() ==> (#[trigger] r@[j]) < i,
        decreases count - i,
    {
        if !is_key(keys, i) {
            r.push(i);
        }
        i += 1;
    }
    r
}

/// The fields of the file.
fn physical_fields(schema: &Arc<Schema>, keys: &Vec<usize>, values: &Vec<usize>) -> (r: Vec<
    Arc<Field>,
>)
    requires
        forall|k: int|
            0 <= k < keys@.len() ==> (#[trigger] keys@[k]) < schema_fields(**schema).len(),
        values@ == value_positions(schema_fields(**schema).len(), keys@),
        forall|i: int|
            0 <= i < values@.len() ==> (#[trigger] values@[i]) < schema_fields(**schema).len(),
    ensures
        shared_fields(r@) == laid_out(schema_fields(**schema), keys@, sequence_field()),
{
    let mut r: Vec<Arc<Field>> = Vec::new();
    let mut k: usize = 0;
    while k < keys.len()
        invariant
            k <= keys@.len(),
            forall|i: int|
                0 <= i < keys@.len() ==> (#[trigger] keys@[i]) < schema_fields(**schema).len(),
            r@.len() == k,
            forall|i: int|
                0 <= i < k ==> *(#[trigger] r@[i]) == schema_fields(**schema)[keys@[i] as int],
        decreases keys@.len() - k,
    {
        r.push(schema_field(schema, keys[k]));
        k += 1;
    }
    r.push(int64_field("_SEQUENCE_NUMBER", false));
    let mut i: usize = 0;
    while i < values.len()
        invariant
            i <= values@.len(),
            forall|j: int|
                0 <= j < values@.len() ==> (#[trigger] values@[j]) < schema_fields(**schema).len(),
            r@.len() == keys@.len() + 1 + i,
            forall|j: int|
                0 <= j < keys@.len() ==> *(#[trigger] r@[j]) == schema_fields(
                    **schema,
                )[keys@[j] as int],
            *r@[keys@.len() as int] == sequence_field(),
            forall|j: int|
                keys@.len() < j < r@.len() ==> *(#[trigger] r@[j]) == schema_fields(
                    **schema,
                )[values@[j - keys@.len() - 1] as int],
        decreases values@.len() - i,
    {
        r.push(schema_field(schema, values[i]));
        i += 1;
    }
    assert(shared_fields(r@) =~= laid_out(schema_fields(**schema), keys@, sequence_field()));
    r
}

/// The column of `count` sequence numbers from `start` on.
fn sequence_numbers(start: i64, count: usize) -> (r: Column)
    requires
        start + count <= i64::MAX,
    ensures
        r == int64_column(numbers_from(start as int, count as nat)),
        column_cells(r) == sequence_column(start as int, count as nat),
{
    let mut numbers: Vec<i64> = Vec::new();
    let mut i: usize = 0;
    while i < count
        invariant
            i <= count,
            start + count <= i64::MAX,
            numbers@.len() == i,
            forall|j: int| 0 <= j < i ==> (#[trigger] numbers@[j]) == start + j,
        decreases count - i,
    {
        numbers.push((start as i128 + i as i128) as i64);
        i += 1;
    }
    assert(numbers@ =~= numbers_from(start as int, count as nat));
    let column: Column = Column::from_int64(numbers);
    assert(column_cells(column) =~= sequence_column(start as int, count as nat));
    column
}

/// The columns of the file.
fn physical_columns(
    sorted: &RecordBatch,
    keys: &Vec<usize>,
    values: &Vec<usize>,
    sequence: Column,
) -> (r: Vec<Column>)
    requires
        forall|k: int|
            0 <= k < keys@.len() ==> (#[trigger] keys@[k]) < batch_columns(*sorted).len(),
        values@ == value_positions(batch_columns(*sorted).len(), keys@),
        forall|i: int|
            0 <= i < values@.len() ==> (#[trigger] values@[i]) < batch_columns(*sorted).len(),
    ensures
        r@ == laid_out(all_columns(*sorted), keys@, sequence),
        cells_of(r@) == laid_out(batch_columns(*sorted), keys@, column_cells(sequence)),
{
    let ghost all = batch_columns(*sorted);
    let ghost last = sequence;
    let mut r: Vec<Column> = Vec::new();
    let mut k: usize = 0;
    while k < keys.len()
        invariant
            k <= keys@.len(),
            all == batch_columns(*sorted),
            forall|i: int| 0 <= i < keys@.len() ==> (#[trigger] keys@[i]) < all.len(),
            r@.len() == k,
            forall|i: int|
                #![trigger r@[i]]
                0 <= i < k ==> {
                    &&& r@[i] == column_at(*sorted, keys@[i] as int)
                    &&& column_cells(r@[i]) == all[keys@[i] as int]
                },
        decreases keys@.len() - k,
    {
        r.push(sorted.column(keys[k]));
        k += 1;
    }
    r.push(sequence);
    let mut i: usize = 0;
    while i < values.len()
        invariant
            i <= values@.len(),
            all == batch_columns(*sorted),
            forall|j: int| 0 <= j < values@.len() ==> (#[trigger] values@[j]) < all.len(),
            r@.len() == keys@.len() + 1 + i,
            forall|j: int|
                #![trigger r@[j]]
                0 <= j < keys@.len() ==> {
                    &&& r@[j] == column_at(*sorted, keys@[j] as int)
                    &&& column_cells(r@[j]) == all[keys@[j] as int]
                },
            r@[keys@.len() as int] == last,
            forall|j: int|
                #![trigger r@[j]]
                keys@.len() < j < r@.len() ==> {
                    &&& r@[j] == column_at(*sorted, values@[j - keys@.len() - 1] as int)
                    &&& column_cells(r@[j]) == all[values@[j - keys@.len() - 1] as int]
                },
        decreases values@.len() - i,
    {
        r.push(sorted.column(values[i]));
        i += 1;
    }
    assert(r@ =~= laid_out(all_columns(*sorted), keys@, last));
    assert(cells_of(r@) =~= laid_out(all, keys@, column_cells(last)));
    r
}

/// The batch that the file holds for sorted rows that are numbered from `start` on.
pub fn physical_batch(sorted: &RecordBatch, keys: &Vec<usize>, start: i64) -> (r: Result<
    RecordBatch,
    Error,
>)
    requires
        start + batch_rows(*sorted) <= i64::MAX,
        forall|k: int|
            0 <= k < keys@.len() ==> (#[trigger] keys@[k]) < batch_columns(*sorted).len(),
    ensures
        match physical_of(*sorted, keys@, start as int) {
            Ok(physical) => {
                &&& r == Ok::<RecordBatch, Error>(physical)
                &&& is_physical(*sorted, keys@, start as int, physical)
            },
            Err(cause) => r matches Err(error) && arrow_failed(
                error,
                "Failed to create physical batch: "@,
                cause,
            ),
        },
{
    let schema: Arc<Schema> = sorted.schema();
    let count: usize = sorted.num_columns();
    let rows: usize = sorted.num_rows();
    let values: Vec<usize> = value_indices(count, keys);
    let fields: Vec<Arc<Field>> = physical_fields(&schema, keys, &values);
    let physical_schema: Arc<Schema> = schema_of(fields);
    let sequence: Column = sequence_numbers(start, rows);
    let columns: Vec<Column> = physical_columns(sorted, keys, &values, sequence);
    match RecordBatch::try_new(&physical_schema, columns) {
        Ok(physical) => {
            let ghost cells = cells_of(columns@);
            assert(cells[keys@.len() as int] == sequence_column(start as int, rows as nat));
            assert(column_cells(columns@[keys@.len() as int]) == cells[keys@.len() as int]);
            Ok(physical)
        },
        Err(error) => Err(arrow_failure("Failed to create physical batch: ", error)),
    }
}

/// What a key row stores for a row of a column: its value, or what the column keeps in the row
/// where it is null.
pub open spec fn kept_cell(column: Column, row: int) -> Cell {
    if column_cells(column)[row] is Null {
        stored_cell(column, row)
    } else {
        column_cells(column)[row]
    }
}

/// Writes what a column keeps in a row into field `pos` of a key row.
pub(crate) fn write_arrow_value_to_builder(
    builder: &mut BinaryRowBuilder,
    pos: usize,
    column: &Column,
    row: usize,
)
    requires
        old(builder).wf(),
        pos < old(builder).arity,
        row < column_cells(*column).len(),
    ensures
        final(builder).wf(),
        final(builder).arity == old(builder).arity,
        final(builder).data@ == write_cell(
            old(builder).data@,
            old(builder).arity as nat,
            pos as int,
            key_cell(kept_cell(*column, row as int)),
        ),
{
    if let Some(value) = column.int32_at(row) {
        builder.write_int(pos, value);
    } else if let Some(value) = column.int64_at(row) {
        builder.write_long(pos, value);
    } else if let Some(value) = column.int16_at(row) {
        builder.write_short(pos, value);
    } else if let Some(value) = column.int8_at(row) {
        builder.write_byte(pos, value);
    } else if let Some(value) = column.utf8_at(row) {
        let bytes: Vec<u8> = value.as_str().as_bytes_vec();
        builder.write_bytes(pos, &bytes);
    } else if let Some(value) = column.large_utf8_at(row) {
        let bytes: Vec<u8> = value.as_str().as_bytes_vec();
        builder.write_bytes(pos, &bytes);
    } else {
        builder.set_null_at(pos);
    }
}

/// The serialized key of one row.
pub fn extract_key_binary_row(batch: &RecordBatch, keys: &Vec<usize>, row: usize) -> (r: Vec<u8>)
    requires
        row < batch_rows(*batch),
        keys@.len() <= crate::binary_row::MAX_ARITY,
        forall|k: int|
            0 <= k < keys@.len() ==> (#[trigger] keys@[k]) < batch_columns(*batch).len(),
    ensures
        r@ == key_row(batch_columns(*batch), keys@, row as int),
{
    let total: usize = batch.num_rows();
    let ghost cells = key_cells(batch_columns(*batch), keys@, row as int);
    let mut builder: BinaryRowBuilder = BinaryRowBuilder::new(keys.len());
    assert(cells.take(0) =~= Seq::<RowCell>::empty());
    let mut pos: usize = 0;
    while pos < keys.len()
        invariant
            pos <= keys@.len(),
            row < total,
            forall|j: int|
                0 <= j < batch_columns(*batch).len() ==> (#[trigger] batch_columns(*batch)[j]).len()
                    == total,
            forall|k: int|
                0 <= k < keys@.len() ==> (#[trigger] keys@[k]) < batch_columns(*batch).len(),
            cells == key_cells(batch_columns(*batch), keys@, row as int),
            builder.wf(),
            builder.arity == keys@.len(),
            builder.data@ == partial_row(keys@.len(), cells.take(pos as int)),
        decreases keys@.len() - pos,
    {
        let column: Column = batch.column(keys[pos]);
        assert(cells.take(pos + 1).drop_last() =~= cells.take(pos as int));
        if column.is_null(row) {
            builder.set_null_at(pos);
        } else {
            write_arrow_value_to_builder(&mut builder, pos, &column, row);
        }
        pos += 1;
    }
    assert(cells.take(pos as int) =~= cells);
    builder.build_serialized()
}

} // verus!
