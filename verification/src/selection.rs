//! Batches made of chosen rows of another batch.

use crate::arrow::{
    batch_columns, batch_rows, batch_schema, cells_of, column_at, column_cells, new_batch_of,
    row_numbers, select, select_rows, take_of, Column, RecordBatch,
};
use crate::error::{arrow_failed, arrow_failure, Error};
use crate::nested::{is_takeable, takeable};
use arrow_schema::{ArrowError, Schema};
use std::sync::Arc;
use vstd::prelude::*;

verus! {

/// Why the rows of a column are not taken.
pub enum TakeFailure {
    /// The column cannot be taken from.
    Refused(int),
    /// Taking failed.
    Failed(ArrowError),
}

/// What choosing rows of a batch comes to.
pub enum Selection {
    /// The batch of the rows.
    Made(RecordBatch),
    /// A column's rows cannot be taken.
    NotTaken(TakeFailure),
    /// The taken columns do not make a batch.
    NotMade(ArrowError),
}

/// The given rows of each of the first `n` columns, or why the first of them that cannot be taken
/// cannot.
pub open spec fn taken(batch: RecordBatch, rows: Seq<u32>, n: nat) -> Result<
    Seq<Column>,
    TakeFailure,
>
    decreases n,
{
    if n == 0 {
        Ok(Seq::empty())
    } else {
        match taken(batch, rows, (n - 1) as nat) {
            Ok(columns) => if !takeable(column_at(batch, n - 1), rows.len() as int, true) {
                Err(TakeFailure::Refused(n - 1))
            } else {
                match take_of(column_at(batch, n - 1), rows) {
                    Ok(column) => Ok(columns.push(column)),
                    Err(error) => Err(TakeFailure::Failed(error)),
                }
            },
            Err(failure) => Err(failure),
        }
    }
}

/// What choosing the given rows of a batch comes to.
pub open spec fn selection(batch: RecordBatch, rows: Seq<u32>) -> Selection {
    match taken(batch, rows, batch_columns(batch).len()) {
        Ok(columns) => match new_batch_of(batch_schema(batch), columns) {
            Ok(part) => Selection::Made(part),
            Err(error) => Selection::NotMade(error),
        },
        Err(error) => Selection::NotTaken(error),
    }
}

/// Whether the error says why the rows of a column are not taken, in the given words.
pub open spec fn take_failed(error: Error, words: Seq<char>, failure: TakeFailure) -> bool {
    match failure {
        TakeFailure::Refused(j) => error matches Error::ColumnRefused { column } && column == j,
        TakeFailure::Failed(cause) => arrow_failed(error, words, cause),
    }
}

/// Whether the result reports what choosing rows came to, in the given words.
pub open spec fn reports(
    selection: Selection,
    take_words: Seq<char>,
    create_words: Seq<char>,
    r: Result<RecordBatch, Error>,
) -> bool {
    match selection {
        Selection::Made(part) => r == Ok::<RecordBatch, Error>(part),
        Selection::NotTaken(failure) => r matches Err(error) && take_failed(
            error,
            take_words,
            failure,
        ),
        Selection::NotMade(cause) => r matches Err(error) && arrow_failed(
            error,
            create_words,
            cause,
        ),
    }
}

/// Whether a batch consists of the given rows of another, in the given order.
pub open spec fn is_selection(part: RecordBatch, batch: RecordBatch, rows: Seq<int>) -> bool {
    &&& batch_schema(part) == batch_schema(batch)
    &&& batch_columns(part) == select_rows(batch_columns(batch), rows)
    &&& batch_rows(part) == rows.len()
}

proof fn lemma_taken_fails(batch: RecordBatch, rows: Seq<u32>, k: nat, n: nat)
    requires
        k <= n,
        taken(batch, rows, k) is Err,
    ensures
        taken(batch, rows, n) == taken(batch, rows, k),
    decreases n - k,
{
    if k < n {
        lemma_taken_fails(batch, rows, k, (n - 1) as nat);
    }
}

/// Takes the given rows of every column.
fn take_columns(batch: &RecordBatch, rows: &Vec<u32>, words: &str) -> (r: Result<
    Vec<Column>,
    Error,
>)
    requires
        forall|i: int| 0 <= i < rows@.len() ==> (#[trigger] rows@[i]) < batch_rows(*batch),
        row_numbers(rows@).no_duplicates(),
    ensures
        match taken(*batch, rows@, batch_columns(*batch).len()) {
            Ok(columns) => {
                &&& r matches Ok(made)
                &&& made@ == columns
                &&& cells_of(made@) == select_rows(batch_columns(*batch), row_numbers(rows@))
            },
            Err(failure) => r matches Err(error) && take_failed(error, words@, failure),
        },
{
    let count: usize = batch.num_columns();
    let total: usize = batch.num_rows();
    let mut columns: Vec<Column> = Vec::new();
    let mut j: usize = 0;
    while j < count
        invariant
            j <= count,
            count == batch_columns(*batch).len(),
            total == batch_rows(*batch),
            forall|i: int|
                0 <= i < count ==> (#[trigger] batch_columns(*batch)[i]).len() == total,
            forall|i: int| 0 <= i < rows@.len() ==> (#[trigger] rows@[i]) < total,
            row_numbers(rows@).no_duplicates(),
            taken(*batch, rows@, j as nat) == Ok::<Seq<Column>, TakeFailure>(columns@),
            columns@.len() == j,
            forall|i: int|
                0 <= i < j ==> column_cells(#[trigger] columns@[i]) == select(
                    batch_columns(*batch)[i],
                    row_numbers(rows@),
                ),
        decreases count - j,
    {
        let column: Column = batch.column(j);
        if !is_takeable(&column, rows.len(), true) {
            proof {
                lemma_taken_fails(*batch, rows@, (j + 1) as nat, count as nat);
            }
            return Err(Error::ColumnRefused { column: j });
        }
        match column.take(rows) {
            Ok(part) => columns.push(part),
            Err(error) => {
                proof {
                    lemma_taken_fails(*batch, rows@, (j + 1) as nat, count as nat);
                }
                return Err(arrow_failure(words, error));
            },
        }
        j += 1;
    }
    assert(cells_of(columns@) =~= select_rows(batch_columns(*batch), row_numbers(rows@)));
    Ok(columns)
}

/// The batch of the given rows. The words begin the message of the error where a column cannot
/// be taken, and where the batch cannot be made.
pub(crate) fn select_batch(
    batch: &RecordBatch,
    rows: &Vec<u32>,
    take_words: &str,
    create_words: &str,
) -> (r: Result<RecordBatch, Error>)
    requires
        forall|i: int| 0 <= i < rows@.len() ==> (#[trigger] rows@[i]) < batch_rows(*batch),
        row_numbers(rows@).no_duplicates(),
    ensures
        reports(selection(*batch, rows@), take_words@, create_words@, r),
        r matches Ok(part) ==> is_selection(part, *batch, row_numbers(rows@)),
{
    let count: usize = batch.num_columns();
    let columns: Vec<Column> = match take_columns(batch, rows, take_words) {
        Ok(columns) => columns,
        Err(error) => return Err(error),
    };
    let schema: Arc<Schema> = batch.schema();
    match RecordBatch::try_new(&schema, columns) {
        Ok(part) => {
            assert(cells_of(columns@)[0] == column_cells(columns@[0]));
            assert(cells_of(columns@).len() == columns@.len());
            assert(select_rows(batch_columns(*batch), row_numbers(rows@))[0].len() == rows@.len());
            Ok(part)
        },
        Err(error) => Err(arrow_failure(create_words, error)),
    }
}

} // verus!
