//! What rows, batches and answers are refused for, and that nothing else is.

use crate::arrow::{
    arrow_error_text, batch_columns, batch_rows, column_at, row_numbers, sort_error, take_of,
    total_rows, Column, RecordBatch,
};
use crate::data_file_writer::{is_first_named, DataFileWriter, Phase};
use crate::error::Error;
use crate::key_value_file::{
    chosen_columns, first_beyond, is_key_order, is_sorted, joins, missing_column, narrowest,
    sorted_by, sorts, sorts_joined, sorts_rows,
};
use crate::key_value_writer::KeyValueFileWriter;
use crate::nested::{column_group, first_unjoinable, joinable, sortable, takeable};
use crate::protocol::{Action, Event};
use crate::route::{as_indices, Route, RoutedBatch, Router};
use crate::selection::{reports, selection, taken, Selection, TakeFailure};
use arrow_schema::ArrowError;
use vstd::prelude::*;

verus! {

proof fn lemma_narrowest(batches: Seq<RecordBatch>)
    requires
        batches.len() > 0,
    ensures
        forall|i: int|
            0 <= i < batches.len() ==> narrowest(batches) <= batch_columns(
                #[trigger] batches[i],
            ).len(),
        exists|i: int|
            0 <= i < batches.len() && narrowest(batches) == batch_columns(
                #[trigger] batches[i],
            ).len(),
    decreases batches.len(),
{
    let last = batches.len() - 1;
    if batches.len() > 1 {
        let rest = batches.drop_last();
        lemma_narrowest(rest);
        assert forall|i: int| 0 <= i < batches.len() implies narrowest(batches) <= batch_columns(
            #[trigger] batches[i],
        ).len() by {
            if i < last {
                assert(rest[i] == batches[i]);
            }
        }
        if batch_columns(batches.last()).len() < narrowest(rest) {
            assert(narrowest(batches) == batch_columns(batches[last]).len());
        } else {
            let i = choose|i: int|
                0 <= i < rest.len() && narrowest(rest) == batch_columns(#[trigger] rest[i]).len();
            assert(narrowest(batches) == batch_columns(batches[i]).len());
        }
    } else {
        assert(narrowest(batches) == batch_columns(batches[last]).len());
    }
}

proof fn lemma_first_beyond(positions: Seq<usize>, count: nat)
    ensures
        match first_beyond(positions, count) {
            None => forall|k: int| 0 <= k < positions.len() ==> (#[trigger] positions[k]) < count,
            Some(p) => p >= count && exists|k: int|
                {
                    &&& 0 <= k < positions.len()
                    &&& #[trigger] positions[k] == p
                    &&& forall|m: int| 0 <= m < k ==> (#[trigger] positions[m]) < count
                },
        },
    decreases positions.len(),
{
    if positions.len() > 0 {
        let rest = positions.drop_first();
        if positions[0] >= count {
            assert(first_beyond(positions, count) == Some(positions[0]));
        } else {
            lemma_first_beyond(rest, count);
            match first_beyond(rest, count) {
                None => {
                    assert forall|k: int| 0 <= k < positions.len() implies (#[trigger] positions[k])
                        < count by {
                        if k > 0 {
                            assert(positions[k] == rest[k - 1]);
                        }
                    }
                },
                Some(p) => {
                    let k = choose|k: int|
                        {
                            &&& 0 <= k < rest.len()
                            &&& #[trigger] rest[k] == p
                            &&& forall|m: int| 0 <= m < k ==> (#[trigger] rest[m]) < count
                        };
                    assert(positions[k + 1] == p);
                    assert forall|m: int| 0 <= m < k + 1 implies (#[trigger] positions[m])
                        < count by {
                        if m > 0 {
                            assert(positions[m] == rest[m - 1]);
                        }
                    }
                },
            }
        }
    }
}

/// A column is missing exactly where a batch has fewer columns than the first, or the first does
/// not have a key column: the column that is told is the first that some batch lacks, or else the
/// first key column that is not there.
pub proof fn law_missing_column(batches: Seq<RecordBatch>, keys: Seq<usize>)
    requires
        batches.len() > 0,
        batch_columns(batches[0]).len() <= usize::MAX,
    ensures
        match missing_column(batches, keys) {
            None => {
                &&& forall|i: int|
                    0 <= i < batches.len() ==> batch_columns(#[trigger] batches[i]).len()
                        >= batch_columns(batches[0]).len()
                &&& forall|k: int|
                    0 <= k < keys.len() ==> (#[trigger] keys[k]) < batch_columns(batches[0]).len()
            },
            Some(column) => {
                ||| {
                    &&& column < batch_columns(batches[0]).len()
                    &&& forall|i: int|
                        0 <= i < batches.len() ==> column <= batch_columns(
                            #[trigger] batches[i],
                        ).len()
                    &&& exists|i: int|
                        0 <= i < batches.len() && column == batch_columns(
                            #[trigger] batches[i],
                        ).len()
                }
                ||| {
                    &&& column >= batch_columns(batches[0]).len()
                    &&& forall|i: int|
                        0 <= i < batches.len() ==> batch_columns(#[trigger] batches[i]).len()
                            >= batch_columns(batches[0]).len()
                    &&& exists|k: int|
                        {
                            &&& 0 <= k < keys.len()
                            &&& #[trigger] keys[k] == column
                            &&& forall|m: int|
                                0 <= m < k ==> (#[trigger] keys[m]) < batch_columns(
                                    batches[0],
                                ).len()
                        }
                }
            },
        },
{
    lemma_narrowest(batches);
    lemma_first_beyond(keys, batch_columns(batches[0]).len());
}

/// Whether the writer, on taking the last of the batches or at the start of a commit, tries to
/// write the batches to a file, and fails.
pub open spec fn fails_to_write(
    pre: KeyValueFileWriter,
    batches: Seq<RecordBatch>,
    post: KeyValueFileWriter,
    error: Error,
) -> bool {
    &&& batches.len() > 0
    &&& {
        ||| {
            &&& batches.drop_last() == pre.buffer@
            &&& KeyValueFileWriter::writes(pre, batches.last(), post, Err::<Action, Error>(error))
        }
        ||| {
            &&& batches == pre.buffer@
            &&& KeyValueFileWriter::commits(pre, post, Err::<Action, Error>(error))
        }
    }
}

/// A primary-key writer refuses rows only for cause: there are more than row numbers tell apart,
/// the sequence numbers are used up, a column is missing, or Arrow does not take a column or the
/// batch. The writer then waits for nothing, and its files stay as they are.
#[verifier::rlimit(50)]
pub proof fn law_flush_fails_for_cause(
    pre: KeyValueFileWriter,
    batches: Seq<RecordBatch>,
    post: KeyValueFileWriter,
    error: Error,
)
    requires
        pre.phase is Idle,
        fails_to_write(pre, batches, post, error),
    ensures
        error is TooManyRows || error is SequenceOverflow || error is MissingColumn
            || error is ColumnRefused || error is DataInvalid,
        error is TooManyRows <==> total_rows(batches) > u32::MAX,
        error is SequenceOverflow ==> pre.next_sequence_number + total_rows(batches) > i64::MAX,
        error is MissingColumn ==> missing_column(batches, pre.primary_key_indices@) is Some,
        post.phase is Idle,
        post.written_files == pre.written_files,
        post.buffer@.len() == 0,
        post.next_sequence_number == pre.next_sequence_number || post.next_sequence_number
            == pre.next_sequence_number + total_rows(batches),
{
    let r = Err::<Action, Error>(error);
    let keys = pre.primary_key_indices@;
    assert(batches.drop_last().push(batches.last()) =~= batches);
    let committing = if KeyValueFileWriter::flushes(pre, batches, false, post, r) {
        false
    } else {
        true
    };
    assert(KeyValueFileWriter::flushes(pre, batches, committing, post, r));
    if total_rows(batches) <= u32::MAX {
        let sorting = choose|sorting: Result<RecordBatch, Error>|
            {
                &&& #[trigger] sorts(batches, keys, sorting)
                &&& match sorting {
                    Ok(sorted) => {
                        &&& is_sorted(batches, keys, sorted)
                        &&& KeyValueFileWriter::stores(pre, sorted, committing, post, r)
                    },
                    Err(error) => {
                        &&& r == Err::<Action, Error>(error)
                        &&& KeyValueFileWriter::gives_up(pre, pre.next_sequence_number as int, post)
                    },
                }
            };
        if let Ok(sorted) = sorting {
            let rows = choose|rows: Seq<int>| #[trigger] sorted_by(batches, keys, rows, sorted);
            assert(batch_rows(sorted) == total_rows(batches));
        }
    }
}

/// A primary-key writer that fails has used up the sequence numbers of its rows exactly where the
/// sorted and numbered rows could not be made into a batch, which the error then says.
#[verifier::rlimit(50)]
pub proof fn law_failed_flush_uses_numbers(
    pre: KeyValueFileWriter,
    batches: Seq<RecordBatch>,
    post: KeyValueFileWriter,
    error: Error,
)
    requires
        pre.phase is Idle,
        fails_to_write(pre, batches, post, error),
    ensures
        ({
            let words = "Failed to create physical batch: "@;
            let laid_out = error matches Error::DataInvalid { message } && words.len()
                <= message@.len() && message@.take(words.len() as int) == words;
            post.next_sequence_number == if laid_out {
                pre.next_sequence_number + total_rows(batches)
            } else {
                pre.next_sequence_number as int
            }
        }),
{
    let r = Err::<Action, Error>(error);
    let keys = pre.primary_key_indices@;
    let words = "Failed to create physical batch: "@;
    assert(batches.drop_last().push(batches.last()) =~= batches);
    let committing = if KeyValueFileWriter::flushes(pre, batches, false, post, r) {
        false
    } else {
        true
    };
    assert(KeyValueFileWriter::flushes(pre, batches, committing, post, r));
    if total_rows(batches) <= u32::MAX {
        let sorting = choose|sorting: Result<RecordBatch, Error>|
            {
                &&& #[trigger] sorts(batches, keys, sorting)
                &&& match sorting {
                    Ok(sorted) => {
                        &&& is_sorted(batches, keys, sorted)
                        &&& KeyValueFileWriter::stores(pre, sorted, committing, post, r)
                    },
                    Err(error) => {
                        &&& r == Err::<Action, Error>(error)
                        &&& KeyValueFileWriter::gives_up(pre, pre.next_sequence_number as int, post)
                    },
                }
            };
        match sorting {
            Ok(sorted) => {
                let rows = choose|rows: Seq<int>| #[trigger] sorted_by(batches, keys, rows, sorted);
                assert(batch_rows(sorted) == total_rows(batches));
                if let Error::DataInvalid { message } = error {
                    assert(message@.take(words.len() as int) =~= words);
                }
            },
            Err(_) => {
                law_sort_fails_for_cause(batches, keys, error);
                if let Error::DataInvalid { message } = error {
                    lemma_other_words(message@);
                }
            },
        }
    }
}

proof fn lemma_other_words(message: Seq<char>)
    requires
        exists|cause: ArrowError|
            {
                ||| message == "Failed to concat batches: "@ + #[trigger] arrow_error_text(cause)
                ||| message == "Failed to sort by primary key: "@ + arrow_error_text(cause)
                ||| message == "Failed to reorder by sort indices: "@ + arrow_error_text(cause)
                ||| message == "Failed to create sorted batch: "@ + arrow_error_text(cause)
            },
    ensures
        ({
            let words = "Failed to create physical batch: "@;
            !(words.len() <= message.len() && message.take(words.len() as int) == words)
        }),
{
    reveal_strlit("Failed to create physical batch: ");
    reveal_strlit("Failed to concat batches: ");
    reveal_strlit("Failed to sort by primary key: ");
    reveal_strlit("Failed to reorder by sort indices: ");
    reveal_strlit("Failed to create sorted batch: ");
    let words = "Failed to create physical batch: "@;
    if words.len() <= message.len() && message.take(words.len() as int) == words {
        assert(message.take(words.len() as int)[10] == words[10]);
        assert(message.take(words.len() as int)[11] == words[11]);
        assert(message.take(words.len() as int)[17] == words[17]);
    }
}

/// An append-only writer refuses a batch only where its file would count more rows than its
/// counter holds.
pub proof fn law_append_fails_for_cause(
    pre: DataFileWriter,
    batch: RecordBatch,
    post: DataFileWriter,
    error: Error,
)
    requires
        DataFileWriter::writes(pre, batch, post, Err::<Action, Error>(error)),
    ensures
        error is RowCountOverflow,
        pre.current_row_count + batch_rows(batch) > i64::MAX,
        post.phase is Idle,
        post.current_row_count == pre.current_row_count,
        post.current_file_name == pre.current_file_name,
        post.written_files == pre.written_files,
{
}

/// A batch is not divided only for cause: a row of it is refused, there are more rows than row
/// numbers tell apart, or Arrow does not take a column or a part.
pub proof fn law_division_fails_for_cause(router: Router, batch: RecordBatch, error: Error)
    requires
        router.division(batch, Err::<Vec<RoutedBatch>, Error>(error)),
    ensures
        error is TypeMismatch || error is MissingColumn || error is TooManyRows
            || error is ColumnRefused || error is DataInvalid || router.batch_fault(
            batch_columns(batch),
            batch_rows(batch),
        ) == Some(error),
        error is TooManyRows && router.batch_fault(batch_columns(batch), batch_rows(batch)) is None
            ==> batch_rows(batch) > u32::MAX,
        router.batch_fault(batch_columns(batch), batch_rows(batch)) is None ==> !(
        error is TypeMismatch) && !(error is MissingColumn),
{
}

/// An append-only writer takes every answer to what it asked for.
#[verifier::rlimit(50)]
pub proof fn law_append_takes_expected_answers(
    pre: DataFileWriter,
    event: Event,
    post: DataFileWriter,
    r: Result<Action, Error>,
)
    requires
        DataFileWriter::resumes(pre, event, post, r),
    ensures
        event matches Event::Failed { error } ==> r == Err::<Action, Error>(error)
            && post.phase is Idle && post.current_file_name == pre.current_file_name
            && post.written_files == pre.written_files && post.in_flight == pre.in_flight,
        pre.phase is Writing && event is Written ==> r is Ok,
        (pre.phase is Rolling || pre.phase is Flushing) && event is Done ==> r == Ok::<
            Action,
            Error,
        >(Action::Done) && post.phase is Idle,
        pre.phase is Closing && event is Closed ==> r is Ok,
        pre.phase is Opening && event is Done && batch_rows(pre.phase->Opening_batch) <= i64::MAX
            ==> r is Ok,
        pre.phase is Joining ==> (event matches Event::ClosedInBackground { file_name, .. } ==> (
        forall|i: int|
            0 <= i < pre.in_flight@.len() ==> (#[trigger] pre.in_flight@[i]).file_name@
                != file_name@) || r is Ok),
        pre.phase is Joining ==> (event matches Event::CloseFailed { file_name, error } ==> (
        forall|i: int|
            0 <= i < pre.in_flight@.len() ==> (#[trigger] pre.in_flight@[i]).file_name@
                != file_name@) || (r == Err::<Action, Error>(error) && post.phase is Idle
            && post.written_files == pre.written_files && exists|i: int|
            {
                &&& 0 <= i < pre.in_flight@.len()
                &&& (#[trigger] pre.in_flight@[i]).file_name@ == file_name@
                &&& post.in_flight@ == pre.in_flight@.remove(i)
            })),
{
    if pre.phase is Joining {
        if let Event::ClosedInBackground { file_name, .. } = event {
            lemma_first_named(pre, file_name@);
        }
        if let Event::CloseFailed { file_name, error } = event {
            lemma_first_named(pre, file_name@);
            if exists|i: int| is_first_named(pre.in_flight@, file_name@, i) {
                let i = choose|i: int|
                    {
                        &&& #[trigger] is_first_named(pre.in_flight@, file_name@, i)
                        &&& r == Err::<Action, Error>(error)
                        &&& post.in_flight@ == pre.in_flight@.remove(i)
                        &&& post == (DataFileWriter {
                            in_flight: post.in_flight,
                            phase: Phase::Idle,
                            ..pre
                        })
                    };
                assert(pre.in_flight@[i].file_name@ == file_name@);
            }
        }
    }
}

proof fn lemma_first_named(pre: DataFileWriter, name: Seq<char>)
    ensures
        (exists|i: int| is_first_named(pre.in_flight@, name, i)) || forall|i: int|
            0 <= i < pre.in_flight@.len() ==> (#[trigger] pre.in_flight@[i]).file_name@ != name,
{
    if exists|i: int|
        0 <= i < pre.in_flight@.len() && (#[trigger] pre.in_flight@[i]).file_name@ == name {
        let i = choose|i: int|
            0 <= i < pre.in_flight@.len() && (#[trigger] pre.in_flight@[i]).file_name@ == name;
        lemma_first_named_up_to(pre, name, i);
    }
}

proof fn lemma_first_named_up_to(pre: DataFileWriter, name: Seq<char>, n: int)
    requires
        0 <= n < pre.in_flight@.len(),
        pre.in_flight@[n].file_name@ == name,
    ensures
        exists|i: int| is_first_named(pre.in_flight@, name, i),
    decreases n,
{
    if exists|k: int| 0 <= k < n && (#[trigger] pre.in_flight@[k]).file_name@ == name {
        let k = choose|k: int|
            0 <= k < n && (#[trigger] pre.in_flight@[k]).file_name@ == name;
        lemma_first_named_up_to(pre, name, k);
    } else {
        assert(is_first_named(pre.in_flight@, name, n));
    }
}

/// A primary-key writer takes every answer to what it asked for, and refuses every other answer
/// without a change.
pub proof fn law_key_value_takes_expected_answers(
    pre: KeyValueFileWriter,
    event: Event,
    post: KeyValueFileWriter,
    r: Result<Action, Error>,
)
    requires
        KeyValueFileWriter::resumes(pre, event, post, r),
    ensures
        ({
            let expected = {
                ||| pre.phase is Opening && event is Done
                ||| pre.phase is Writing && event is Written
                ||| pre.phase is Closing && event is Closed
            };
            &&& expected ==> r is Ok
            &&& !expected && !(event is Failed) ==> r == Err::<Action, Error>(
                Error::UnexpectedEvent,
            ) && post == pre
        }),
{
}

proof fn lemma_not_taken(batch: RecordBatch, rows: Seq<u32>, n: nat)
    ensures
        taken(batch, rows, n) matches Err(TakeFailure::Refused(j)) ==> 0 <= j < n && !takeable(
            column_at(batch, j),
            rows.len() as int,
            true,
        ),
        taken(batch, rows, n) matches Err(TakeFailure::Failed(cause)) ==> exists|j: int|
            0 <= j < n && #[trigger] take_of(column_at(batch, j), rows) == Err::<
                Column,
                ArrowError,
            >(cause),
    decreases n,
{
    if n > 0 {
        lemma_not_taken(batch, rows, (n - 1) as nat);
    }
}

/// Whether the error says that rows of a batch cannot be chosen, and why: a column is refused that
/// rows cannot be taken from, or the words before and after tell what Arrow said.
pub open spec fn tells_selection(
    error: Error,
    batch: RecordBatch,
    rows: Seq<u32>,
    take_words: Seq<char>,
    create_words: Seq<char>,
) -> bool {
    match error {
        Error::ColumnRefused { column } => column < batch_columns(batch).len() && !takeable(
            column_at(batch, column as int),
            rows.len() as int,
            true,
        ),
        Error::DataInvalid { message } => exists|cause: ArrowError|
            {
                ||| message@ == take_words + #[trigger] arrow_error_text(cause)
                ||| message@ == create_words + arrow_error_text(cause)
            },
        _ => false,
    }
}

proof fn lemma_tells_selection(
    batch: RecordBatch,
    rows: Seq<u32>,
    take_words: Seq<char>,
    create_words: Seq<char>,
    error: Error,
)
    requires
        reports(
            selection(batch, rows),
            take_words,
            create_words,
            Err::<RecordBatch, Error>(error),
        ),
    ensures
        tells_selection(error, batch, rows, take_words, create_words),
{
    lemma_not_taken(batch, rows, batch_columns(batch).len());
    match selection(batch, rows) {
        Selection::Made(_) => {},
        Selection::NotTaken(TakeFailure::Refused(_)) => {},
        Selection::NotTaken(TakeFailure::Failed(cause)) => {
            assert(error->DataInvalid_message@ == take_words + arrow_error_text(cause));
        },
        Selection::NotMade(cause) => {
            assert(error->DataInvalid_message@ == create_words + arrow_error_text(cause));
        },
    }
}

/// Rows are not sorted only for cause: a column of the batches cannot be joined, a column is
/// missing, the one key column cannot be sorted by, rows of a column cannot be taken, or Arrow
/// fails, and then the error says at which step and how.
#[verifier::rlimit(50)]
pub proof fn law_sort_fails_for_cause(batches: Seq<RecordBatch>, keys: Seq<usize>, error: Error)
    requires
        batches.len() > 0,
        sorts(batches, keys, Err::<RecordBatch, Error>(error)),
    ensures
        match error {
            Error::ColumnRefused { column } => {
                ||| !joinable(Seq::new(batches.len(), |i: int| column_at(batches[i], column as int)))
                ||| exists|combined: RecordBatch|
                    {
                        &&& #[trigger] joins(
                            batches,
                            narrowest(batches),
                            Ok::<RecordBatch, ArrowError>(combined),
                        )
                        &&& {
                            ||| keys.len() == 1 && column == keys[0] && !sortable(
                                column_at(combined, column as int),
                            )
                            ||| !takeable(
                                column_at(combined, column as int),
                                total_rows(batches) as int,
                                true,
                            )
                        }
                    }
            },
            Error::MissingColumn { column } => missing_column(batches, keys) == Some(column),
            Error::DataInvalid { message } => exists|cause: ArrowError|
                {
                    ||| message@ == "Failed to concat batches: "@ + #[trigger] arrow_error_text(
                        cause,
                    )
                    ||| message@ == "Failed to sort by primary key: "@ + arrow_error_text(cause)
                    ||| message@ == "Failed to reorder by sort indices: "@ + arrow_error_text(cause)
                    ||| message@ == "Failed to create sorted batch: "@ + arrow_error_text(cause)
                },
            _ => false,
        },
{
    let r = Err::<RecordBatch, Error>(error);
    match first_unjoinable(batches, narrowest(batches)) {
        Some(j) => {
            lemma_unjoinable(batches, narrowest(batches));
            assert(column_group(batches, j) =~= Seq::new(
                batches.len(),
                |i: int| column_at(batches[i], j),
            ));
        },
        None => {
            let joined = choose|joined: Result<RecordBatch, ArrowError>| #[trigger]
                joins(batches, narrowest(batches), joined) && sorts_joined(
                    batches,
                    keys,
                    joined,
                    r,
                );
            match joined {
                Err(cause) => {
                    assert(error->DataInvalid_message@ == "Failed to concat batches: "@ + arrow_error_text(
                        cause,
                    ));
                },
                Ok(combined) => {
                    if missing_column(batches, keys) is None {
                        lemma_rows_not_sorted(batches, keys, combined, error);
                    }
                },
            }
        },
    }
}

proof fn lemma_unjoinable(batches: Seq<RecordBatch>, n: nat)
    ensures
        first_unjoinable(batches, n) matches Some(j) ==> 0 <= j < n && !joinable(
            column_group(batches, j),
        ),
    decreases n,
{
    if n > 0 {
        lemma_unjoinable(batches, (n - 1) as nat);
    }
}

proof fn lemma_rows_not_sorted(
    batches: Seq<RecordBatch>,
    keys: Seq<usize>,
    combined: RecordBatch,
    error: Error,
)
    requires
        sorts_rows(batches, keys, combined, Err::<RecordBatch, Error>(error)),
    ensures
        match error {
            Error::ColumnRefused { column } => {
                ||| keys.len() == 1 && column == keys[0] && !sortable(
                    column_at(combined, column as int),
                )
                ||| !takeable(
                    column_at(combined, column as int),
                    total_rows(batches) as int,
                    true,
                )
            },
            Error::DataInvalid { message } => exists|cause: ArrowError|
                {
                    ||| message@ == "Failed to sort by primary key: "@ + #[trigger]
                    arrow_error_text(cause)
                    ||| message@ == "Failed to reorder by sort indices: "@ + arrow_error_text(cause)
                    ||| message@ == "Failed to create sorted batch: "@ + arrow_error_text(cause)
                },
            _ => false,
        },
{
    let r = Err::<RecordBatch, Error>(error);
    if !(keys.len() == 1 && !sortable(column_at(combined, keys[0] as int))) {
        match sort_error(chosen_columns(combined, keys), false, true) {
            Some(cause) => {
                assert(error->DataInvalid_message@ == "Failed to sort by primary key: "@ + arrow_error_text(
                    cause,
                ));
            },
            None => {
                let order = choose|order: Seq<u32>|
                    {
                        &&& #[trigger] is_key_order(batches, keys, order)
                        &&& reports(
                            selection(combined, order),
                            "Failed to reorder by sort indices: "@,
                            "Failed to create sorted batch: "@,
                            r,
                        )
                    };
                lemma_tells_selection(
                    combined,
                    order,
                    "Failed to reorder by sort indices: "@,
                    "Failed to create sorted batch: "@,
                    error,
                );
                assert(row_numbers(order).len() == order.len());
            },
        }
    }
}

proof fn lemma_refused(router: Router, batch: RecordBatch, routes: Seq<Route>)
    ensures
        router.first_refused(batch, routes) matches Some(refused) ==> exists|i: int|
            0 <= i < routes.len() && router.part_of(batch, #[trigger] routes[i]) == refused,
    decreases routes.len(),
{
    if routes.len() > 0 {
        let rest = routes.drop_last();
        lemma_refused(router, batch, rest);
        match router.first_refused(batch, rest) {
            Some(refused) => {
                let i = choose|i: int|
                    0 <= i < rest.len() && router.part_of(batch, #[trigger] rest[i]) == refused;
                assert(routes[i] == rest[i]);
            },
            None => {
                assert(routes[routes.len() - 1] == routes.last());
            },
        }
    }
}

/// A batch without faults is not divided only where rows of one of its columns cannot be taken, or
/// where Arrow fails, and then the error says at which step and how.
pub proof fn law_division_of_sound_rows_fails_for_cause(
    router: Router,
    batch: RecordBatch,
    error: Error,
)
    requires
        router.division(batch, Err::<Vec<RoutedBatch>, Error>(error)),
        router.batch_fault(batch_columns(batch), batch_rows(batch)) is None,
        batch_rows(batch) <= u32::MAX,
    ensures
        match error {
            Error::ColumnRefused { column } => column < batch_columns(batch).len() && exists|n: int|
                0 <= n <= batch_rows(batch) && !(#[trigger] takeable(
                    column_at(batch, column as int),
                    n,
                    true,
                )),
            Error::DataInvalid { message } => exists|cause: ArrowError|
                {
                    ||| message@ == "Failed to take rows: "@ + #[trigger] arrow_error_text(cause)
                    ||| message@ == "Failed to create sub-batch: "@ + arrow_error_text(cause)
                },
            _ => false,
        },
{
    let columns = batch_columns(batch);
    let n = batch_rows(batch);
    let routes = router.routes(columns, n);
    lemma_refused(router, batch, routes);
    let refused = router.first_refused(batch, routes)->Some_0;
    let i = choose|i: int|
        0 <= i < routes.len() && router.part_of(batch, #[trigger] routes[i]) == refused;
    let rows = as_indices(router.rows_of(columns, n, routes[i]));
    lemma_tells_selection(
        batch,
        rows,
        "Failed to take rows: "@,
        "Failed to create sub-batch: "@,
        error,
    );
    router.lemma_rows_below(columns, n, routes[i]);
    assert(rows.len() <= n);
}

} // verus!
