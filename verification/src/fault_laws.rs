//! Which rows are refused, and for what.

use crate::arrow::Cell;
use crate::datum::DataType;
use crate::error::Error;
use crate::route::Router;
use vstd::prelude::*;

verus! {

/// A key column is refused exactly where the batch does not have it, or where it holds, in the
/// row, a value that is not null and not of the type that the table declares. Instants of up to
/// three digits are milliseconds, of four to six digits microseconds; others are not read.
pub proof fn law_fault_of_a_column(
    router: Router,
    columns: Seq<Seq<Cell>>,
    row: int,
    column: usize,
)
    ensures
        ({
            let fault = router.fault_at(columns, row, column);
            let cell = columns[column as int][row];
            let fits = match router.fields@[column as int].data_type {
                DataType::Boolean => cell is Boolean,
                DataType::TinyInt => cell is Int8,
                DataType::SmallInt => cell is Int16,
                DataType::Int => cell is Int32,
                DataType::BigInt => cell is Int64,
                DataType::Char => cell is Utf8,
                DataType::VarChar => cell is Utf8,
                DataType::Date => cell is Date32,
                DataType::Decimal { .. } => cell is Decimal128,
                DataType::Timestamp { precision } => {
                    ||| precision <= 3 && cell is TimestampMillis
                    ||| 4 <= precision <= 6 && cell is TimestampMicros
                },
                DataType::LocalZonedTimestamp { precision } => {
                    ||| precision <= 3 && cell is TimestampMillis
                    ||| 4 <= precision <= 6 && cell is TimestampMicros
                },
                DataType::Other => false,
            };
            if column >= columns.len() {
                fault == Some(Error::MissingColumn { column })
            } else if cell is Null || fits {
                fault is None
            } else {
                fault == Some(Error::TypeMismatch { column })
            }
        }),
{
}

proof fn lemma_first_fault(router: Router, columns: Seq<Seq<Cell>>, row: int, indices: Seq<usize>)
    ensures
        match router.first_fault(columns, row, indices) {
            None => forall|k: int|
                0 <= k < indices.len() ==> router.fault_at(columns, row, #[trigger] indices[k])
                    is None,
            Some(error) => exists|k: int|
                {
                    &&& 0 <= k < indices.len()
                    &&& router.fault_at(columns, row, #[trigger] indices[k]) == Some(error)
                    &&& forall|m: int|
                        0 <= m < k ==> router.fault_at(columns, row, #[trigger] indices[m]) is None
                },
        },
    decreases indices.len(),
{
    if indices.len() > 0 {
        let rest = indices.drop_last();
        lemma_first_fault(router, columns, row, rest);
        match router.first_fault(columns, row, rest) {
            None => {
                assert forall|k: int| 0 <= k < indices.len() - 1 implies router.fault_at(
                    columns,
                    row,
                    #[trigger] indices[k],
                ) is None by {
                    assert(rest[k] == indices[k]);
                }
                assert(indices[indices.len() - 1] == indices.last());
            },
            Some(error) => {
                let k = choose|k: int|
                    {
                        &&& 0 <= k < rest.len()
                        &&& router.fault_at(columns, row, #[trigger] rest[k]) == Some(error)
                        &&& forall|m: int|
                            0 <= m < k ==> router.fault_at(columns, row, #[trigger] rest[m]) is None
                    };
                assert(indices[k] == rest[k]);
                assert forall|m: int| 0 <= m < k implies router.fault_at(
                    columns,
                    row,
                    #[trigger] indices[m],
                ) is None by {
                    assert(rest[m] == indices[m]);
                }
            },
        }
    }
}

/// A row is refused exactly where one of its partition columns is, or one of its bucket columns
/// where the table has more than one bucket; the first of them, partition columns before bucket
/// columns, is what it is refused for.
pub proof fn law_fault_of_a_row(router: Router, columns: Seq<Seq<Cell>>, row: int)
    ensures
        ({
            let partition = router.partition_field_indices@;
            let bucket = router.bucket_key_indices@;
            match router.row_fault(columns, row) {
                None => {
                    &&& forall|k: int|
                        0 <= k < partition.len() ==> router.fault_at(
                            columns,
                            row,
                            #[trigger] partition[k],
                        ) is None
                    &&& router.total_buckets > 1 ==> forall|k: int|
                        0 <= k < bucket.len() ==> router.fault_at(
                            columns,
                            row,
                            #[trigger] bucket[k],
                        ) is None
                },
                Some(error) => {
                    ||| exists|k: int|
                        {
                            &&& 0 <= k < partition.len()
                            &&& router.fault_at(columns, row, #[trigger] partition[k]) == Some(
                                error,
                            )
                            &&& forall|m: int|
                                0 <= m < k ==> router.fault_at(columns, row, #[trigger] partition[m])
                                    is None
                        }
                    ||| {
                        &&& router.total_buckets > 1
                        &&& forall|m: int|
                            0 <= m < partition.len() ==> router.fault_at(
                                columns,
                                row,
                                #[trigger] partition[m],
                            ) is None
                        &&& exists|k: int|
                            {
                                &&& 0 <= k < bucket.len()
                                &&& router.fault_at(columns, row, #[trigger] bucket[k]) == Some(
                                    error,
                                )
                                &&& forall|m: int|
                                    0 <= m < k ==> router.fault_at(columns, row, #[trigger] bucket[m])
                                        is None
                            }
                    }
                },
            }
        }),
{
    lemma_first_fault(router, columns, row, router.partition_field_indices@);
    lemma_first_fault(router, columns, row, router.bucket_key_indices@);
}

/// A batch is refused exactly where one of its rows is, and for what its first such row is.
pub proof fn law_fault_of_a_batch(router: Router, columns: Seq<Seq<Cell>>, n: nat)
    ensures
        match router.batch_fault(columns, n) {
            None => forall|row: int|
                0 <= row < n ==> #[trigger] router.row_fault(columns, row) is None,
            Some(error) => exists|row: int|
                {
                    &&& 0 <= row < n
                    &&& #[trigger] router.row_fault(columns, row) == Some(error)
                    &&& forall|r: int|
                        0 <= r < row ==> #[trigger] router.row_fault(columns, r) is None
                },
        },
    decreases n,
{
    if n > 0 {
        law_fault_of_a_batch(router, columns, (n - 1) as nat);
        if router.batch_fault(columns, (n - 1) as nat) is None && router.row_fault(columns, n - 1)
            is Some {
            let row = n - 1;
            assert(router.row_fault(columns, row) == router.batch_fault(columns, n));
        }
    }
}

} // verus!
