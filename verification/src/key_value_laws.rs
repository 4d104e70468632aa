//! What the writer of a primary-key bucket keeps: every row that it took, in key order within a
//! file, under sequence numbers that only grow.

use crate::append_laws::lemma_push_file;
use crate::arrow::{
    batch_columns, batch_rows, row_before, select, select_rows, total_rows, Cell,
    RecordBatch,
};
use crate::error::Error;
use crate::key_value_file::{columns_at, concatenated, is_physical, is_sorted, sorted_by};
use crate::key_value_writer::{buffer_wf, KeyValueFileWriter, KeyValuePhase};
use crate::meta::{rows_in_files, DataFileMeta};
use crate::protocol::{rows_handed_over, Action, Event};
use vstd::prelude::*;

verus! {

proof fn lemma_push_batch(batches: Seq<RecordBatch>, batch: RecordBatch)
    ensures
        total_rows(batches.push(batch)) == total_rows(batches) + batch_rows(batch),
{
    assert(batches.push(batch).drop_last() =~= batches);
}

proof fn lemma_has_rows(batches: Seq<RecordBatch>)
    requires
        batches.len() > 0,
        forall|i: int| 0 <= i < batches.len() ==> batch_rows(#[trigger] batches[i]) > 0,
    ensures
        total_rows(batches) > 0,
{
}

/// A batch that is taken adds its rows, and no other rows come or go.
pub proof fn law_key_value_write_keeps_rows(
    pre: KeyValueFileWriter,
    batch: RecordBatch,
    post: KeyValueFileWriter,
    action: Action,
)
    requires
        pre.wf(),
        pre.phase is Idle,
        KeyValueFileWriter::writes(pre, batch, post, Ok::<Action, Error>(action)),
    ensures
        post.rows() + rows_handed_over(action) == pre.rows() + batch_rows(batch),
{
    lemma_push_batch(pre.buffer@, batch);
}

/// No answer of storage that the writer accepts makes rows come or go: what leaves the writer
/// stands in the files that it hands over.
pub proof fn law_key_value_resume_keeps_rows(
    pre: KeyValueFileWriter,
    event: Event,
    post: KeyValueFileWriter,
    action: Action,
)
    requires
        pre.wf(),
        KeyValueFileWriter::resumes(pre, event, post, Ok::<Action, Error>(action)),
    ensures
        post.rows() + rows_handed_over(action) == pre.rows(),
{
    match (pre.phase, event) {
        (_, Event::Failed { error }) => {},
        (KeyValuePhase::Closing { file }, Event::Closed { receipt }) => {
            let meta = choose|meta: DataFileMeta|
                {
                    &&& #[trigger] KeyValueFileWriter::records(pre, file, receipt, meta)
                    &&& if pre.committing {
                        KeyValueFileWriter::settles(
                            pre,
                            pre.written_files@.push(meta),
                            post,
                            Ok(action),
                        )
                    } else {
                        action is Done && post.written_files@ == pre.written_files@.push(meta)
                    }
                };
            lemma_push_file(pre.written_files@, meta);
        },
        _ => {},
    }
}

/// The start of a commit makes no rows come or go.
pub proof fn law_key_value_commit_keeps_rows(
    pre: KeyValueFileWriter,
    post: KeyValueFileWriter,
    action: Action,
)
    requires
        pre.wf(),
        pre.phase is Idle,
        KeyValueFileWriter::commits(pre, post, Ok::<Action, Error>(action)),
    ensures
        post.rows() + rows_handed_over(action) == pre.rows(),
{
}

/// Whether a writer that is part of a commit has nothing left in its buffer.
pub open spec fn flushed_for_commit(writer: KeyValueFileWriter) -> bool {
    writer.committing ==> writer.buffer@.len() == 0
}

/// A commit empties the buffer before its last file is written, and the buffer stays empty until
/// the files are handed over.
pub proof fn law_key_value_commit_flushes(
    pre: KeyValueFileWriter,
    event: Event,
    post: KeyValueFileWriter,
    r: Result<Action, Error>,
)
    requires
        pre.wf(),
        flushed_for_commit(pre),
        KeyValueFileWriter::resumes(pre, event, post, r) || (pre.phase is Idle
            && KeyValueFileWriter::commits(pre, post, r)),
    ensures
        flushed_for_commit(post),
{
}

/// A commit hands everything over: once the files are out, no rows are left behind.
pub proof fn law_key_value_commit_leaves_nothing(
    pre: KeyValueFileWriter,
    event: Event,
    post: KeyValueFileWriter,
    files: Vec<DataFileMeta>,
)
    requires
        pre.wf(),
        flushed_for_commit(pre),
        KeyValueFileWriter::resumes(pre, event, post, Ok::<Action, Error>(Action::Files { files }))
            || (pre.phase is Idle && KeyValueFileWriter::commits(
            pre,
            post,
            Ok::<Action, Error>(Action::Files { files }),
        )),
    ensures
        rows_in_files(files@) == pre.rows(),
        post.rows() == 0,
{
    if KeyValueFileWriter::resumes(pre, event, post, Ok::<Action, Error>(Action::Files { files })) {
        law_key_value_resume_keeps_rows(pre, event, post, Action::Files { files });
    } else {
        law_key_value_commit_keeps_rows(pre, post, Action::Files { files });
    }
}

proof fn lemma_row_before_same(
    a: Seq<Seq<Cell>>,
    b: Seq<Seq<Cell>>,
    r: int,
    s: int,
    r2: int,
    s2: int,
    descending: bool,
    nulls_first: bool,
)
    requires
        a.len() == b.len(),
        forall|k: int|
            #![trigger a[k]]
            0 <= k < a.len() ==> a[k][r] == b[k][r2] && a[k][s] == b[k][s2],
    ensures
        row_before(a, r, s, descending, nulls_first) == row_before(
            b,
            r2,
            s2,
            descending,
            nulls_first,
        ),
    decreases a.len(),
{
    if a.len() > 0 {
        assert(a[0][r] == b[0][r2]);
        assert forall|k: int| #![trigger a.drop_first()[k]] 0 <= k < a.drop_first().len() implies {
            &&& a.drop_first()[k][r] == b.drop_first()[k][r2]
            &&& a.drop_first()[k][s] == b.drop_first()[k][s2]
        } by {
            assert(a[k + 1][r] == b[k + 1][r2]);
        }
        lemma_row_before_same(
            a.drop_first(),
            b.drop_first(),
            r,
            s,
            r2,
            s2,
            descending,
            nulls_first,
        );
    }
}

/// The sorted rows are in key order: no row stands after one that must follow it.
pub proof fn law_sorted_rows_in_key_order(
    batches: Seq<RecordBatch>,
    keys: Seq<usize>,
    sorted: RecordBatch,
    i: int,
    j: int,
)
    requires
        is_sorted(batches, keys, sorted),
        0 <= i < j < batch_rows(sorted),
    ensures
        !row_before(columns_at(batch_columns(sorted), keys), j, i, false, true),
{
    let rows = choose|rows: Seq<int>| #[trigger] sorted_by(batches, keys, rows, sorted);
    let before = columns_at(concatenated(batches), keys);
    let after = columns_at(batch_columns(sorted), keys);
    assert forall|k: int| #![trigger after[k]] 0 <= k < after.len() implies {
        &&& after[k][j] == before[k][rows[j]]
        &&& after[k][i] == before[k][rows[i]]
    } by {
        assert(keys[k] < batch_columns(batches[0]).len());
        assert(batch_columns(sorted)[keys[k] as int] == select(
            concatenated(batches)[keys[k] as int],
            rows,
        ));
    }
    lemma_row_before_same(after, before, j, i, rows[j], rows[i], false, true);
}

/// Sorting loses no row and invents none: each row of the result is one of the given rows, no two
/// are the same one, and there are as many.
pub proof fn law_sorted_rows_are_the_rows(
    batches: Seq<RecordBatch>,
    keys: Seq<usize>,
    sorted: RecordBatch,
)
    requires
        is_sorted(batches, keys, sorted),
    ensures
        exists|rows: Seq<int>|
            {
                &&& #[trigger] rows.no_duplicates()
                &&& rows.len() == total_rows(batches)
                &&& forall|i: int|
                    0 <= i < rows.len() ==> 0 <= #[trigger] rows[i] < total_rows(batches)
                &&& batch_columns(sorted) == select_rows(concatenated(batches), rows)
            },
{
    let rows = choose|rows: Seq<int>| #[trigger] sorted_by(batches, keys, rows, sorted);
    assert(rows.no_duplicates());
}

/// In the file the key columns come first, in key order, and the sequence number right after
/// them; row `i` of the file carries the `i`-th number of the file's range.
pub proof fn law_file_columns(
    sorted: RecordBatch,
    keys: Seq<usize>,
    start: int,
    physical: RecordBatch,
    i: int,
)
    requires
        is_physical(sorted, keys, start, physical),
        0 <= i < batch_rows(sorted),
    ensures
        forall|k: int|
            0 <= k < keys.len() ==> #[trigger] batch_columns(physical)[k] == batch_columns(
                sorted,
            )[keys[k] as int],
        batch_columns(physical)[keys.len() as int][i] == Cell::Int64((start + i) as i64),
{
}

/// Whether the files cover ranges of sequence numbers as long as their rows, each range above the
/// one before, all from `floor` on and below `limit`.
pub open spec fn numbered(files: Seq<DataFileMeta>, floor: int, limit: int) -> bool {
    &&& forall|i: int|
        #![trigger files[i]]
        0 <= i < files.len() ==> {
            &&& floor <= files[i].min_sequence_number <= files[i].max_sequence_number < limit
            &&& files[i].row_count == files[i].max_sequence_number - files[i].min_sequence_number
                + 1
        }
    &&& forall|i: int, j: int|
        #![trigger files[i], files[j]]
        0 <= i < j < files.len() ==> files[i].max_sequence_number < files[j].min_sequence_number
}

/// Whether the files of a writer, the one being written included, are numbered in order, from
/// `floor` on and below the number to assign next.
pub open spec fn writer_numbered(writer: KeyValueFileWriter, floor: int) -> bool {
    &&& floor <= writer.next_sequence_number
    &&& match writer.pending() {
        None => numbered(writer.written_files@, floor, writer.next_sequence_number as int),
        Some(file) => {
            &&& floor <= file.min_sequence_number
            &&& numbered(writer.written_files@, floor, file.min_sequence_number as int)
            &&& file.min_sequence_number <= file.max_sequence_number < writer.next_sequence_number
            &&& file.row_count == file.max_sequence_number - file.min_sequence_number + 1
        },
    }
}

/// The files that an action hands over are numbered in order, from `floor` on and below `limit`.
pub open spec fn handed_over_numbered(r: Result<Action, Error>, floor: int, limit: int) -> bool {
    r matches Ok(Action::Files { files }) ==> numbered(files@, floor, limit)
}

proof fn lemma_flush_numbers(
    pre: KeyValueFileWriter,
    batches: Seq<RecordBatch>,
    committing: bool,
    post: KeyValueFileWriter,
    r: Result<Action, Error>,
    floor: int,
)
    requires
        pre.phase is Idle,
        batches.len() > 0,
        forall|i: int| 0 <= i < batches.len() ==> batch_rows(#[trigger] batches[i]) > 0,
        writer_numbered(pre, floor),
        KeyValueFileWriter::flushes(pre, batches, committing, post, r),
    ensures
        writer_numbered(post, floor),
        handed_over_numbered(r, floor, post.next_sequence_number as int),
{
    lemma_has_rows(batches);
}

/// Taking a batch keeps the sequence numbers of the files in order.
pub proof fn law_write_keeps_numbers(
    pre: KeyValueFileWriter,
    batch: RecordBatch,
    post: KeyValueFileWriter,
    r: Result<Action, Error>,
    floor: int,
)
    requires
        pre.wf(),
        pre.phase is Idle,
        writer_numbered(pre, floor),
        KeyValueFileWriter::writes(pre, batch, post, r),
    ensures
        writer_numbered(post, floor),
        pre.next_sequence_number <= post.next_sequence_number,
        handed_over_numbered(r, floor, post.next_sequence_number as int),
{
    let batches = pre.buffer@.push(batch);
    if batch_rows(batch) > 0 {
        assert forall|i: int| 0 <= i < batches.len() implies batch_rows(#[trigger] batches[i])
            > 0 by {
            if i < pre.buffer@.len() {
                assert(batches[i] == pre.buffer@[i]);
            }
        }
        if KeyValueFileWriter::flushes(pre, batches, false, post, r) {
            lemma_flush_numbers(pre, batches, false, post, r, floor);
        }
    }
}

/// Every answer of storage keeps the sequence numbers of the files in order.
pub proof fn law_resume_keeps_numbers(
    pre: KeyValueFileWriter,
    event: Event,
    post: KeyValueFileWriter,
    r: Result<Action, Error>,
    floor: int,
)
    requires
        pre.wf(),
        writer_numbered(pre, floor),
        KeyValueFileWriter::resumes(pre, event, post, r),
    ensures
        writer_numbered(post, floor),
        pre.next_sequence_number == post.next_sequence_number,
        handed_over_numbered(r, floor, post.next_sequence_number as int),
{
}

/// The start of a commit keeps the sequence numbers of the files in order.
pub proof fn law_commit_keeps_numbers(
    pre: KeyValueFileWriter,
    post: KeyValueFileWriter,
    r: Result<Action, Error>,
    floor: int,
)
    requires
        pre.wf(),
        pre.phase is Idle,
        writer_numbered(pre, floor),
        KeyValueFileWriter::commits(pre, post, r),
    ensures
        writer_numbered(post, floor),
        pre.next_sequence_number <= post.next_sequence_number,
        handed_over_numbered(r, floor, post.next_sequence_number as int),
{
    if pre.buffer@.len() > 0 {
        assert(buffer_wf(pre.buffer@));
        lemma_flush_numbers(pre, pre.buffer@, true, post, r, floor);
    }
}

} // verus!
