//! What a commit of a primary-key bucket hands over: its files number the rows without a gap.

use crate::arrow::{batch_rows, total_rows, RecordBatch};
use crate::error::Error;
use crate::key_value_laws::{flushed_for_commit, law_key_value_commit_leaves_nothing};
use crate::key_value_writer::{KeyValueFileWriter, KeyValuePhase};
use crate::meta::{rows_in_files, DataFileMeta};
use crate::protocol::{Action, Event};
use vstd::prelude::*;

verus! {

/// Whether the files number their rows from `start` on and up to `end`, without a gap: each file
/// has rows, as many as its range of numbers is long, and begins where the one before ends.
pub open spec fn gapless(files: Seq<DataFileMeta>, start: int, end: int) -> bool
    decreases files.len(),
{
    if files.len() == 0 {
        start == end
    } else {
        let last = files.last();
        &&& last.min_sequence_number <= last.max_sequence_number
        &&& last.max_sequence_number + 1 == end
        &&& last.row_count == end - last.min_sequence_number
        &&& gapless(files.drop_last(), start, last.min_sequence_number as int)
    }
}

/// Whether the files of a writer, the one being written included, number their rows from `start`
/// on without a gap, up to the number to assign next.
pub open spec fn writer_gapless(writer: KeyValueFileWriter, start: int) -> bool {
    match writer.pending() {
        None => gapless(writer.written_files@, start, writer.next_sequence_number as int),
        Some(file) => {
            &&& file.min_sequence_number <= file.max_sequence_number
            &&& file.max_sequence_number + 1 == writer.next_sequence_number
            &&& file.row_count == writer.next_sequence_number - file.min_sequence_number
            &&& gapless(writer.written_files@, start, file.min_sequence_number as int)
        },
    }
}

/// Where the numbers of the files begin that a writer has after an action: at `start`, or at the
/// next number where the action handed the files over.
pub open spec fn start_after(writer: KeyValueFileWriter, action: Action, start: int) -> int {
    if action is Files {
        writer.next_sequence_number as int
    } else {
        start
    }
}

/// The files that an action hands over number their rows from `start` up to `end` without a gap.
pub open spec fn handed_over_gapless(action: Action, start: int, end: int) -> bool {
    action matches Action::Files { files } ==> gapless(files@, start, end)
}

proof fn lemma_push_gapless(files: Seq<DataFileMeta>, file: DataFileMeta, start: int, end: int)
    requires
        gapless(files, start, file.min_sequence_number as int),
        file.min_sequence_number <= file.max_sequence_number,
        file.max_sequence_number + 1 == end,
        file.row_count == end - file.min_sequence_number,
    ensures
        gapless(files.push(file), start, end),
{
    assert(files.push(file).drop_last() =~= files);
}

proof fn lemma_some_rows(batches: Seq<RecordBatch>)
    requires
        batches.len() > 0,
        batch_rows(batches.last()) > 0,
    ensures
        total_rows(batches) > 0,
{
}

/// A writer that has written nothing numbers without a gap from its first number on.
pub proof fn law_new_writer_is_gapless(writer: KeyValueFileWriter)
    requires
        writer.phase is Idle,
        writer.written_files@.len() == 0,
    ensures
        writer_gapless(writer, writer.next_sequence_number as int),
{
}

/// Taking a batch leaves no gap in the numbers.
pub proof fn law_write_leaves_no_gap(
    pre: KeyValueFileWriter,
    batch: RecordBatch,
    post: KeyValueFileWriter,
    action: Action,
    start: int,
)
    requires
        pre.wf(),
        pre.phase is Idle,
        writer_gapless(pre, start),
        KeyValueFileWriter::writes(pre, batch, post, Ok::<Action, Error>(action)),
    ensures
        writer_gapless(post, start),
        !(action is Files),
{
    if batch_rows(batch) > 0 {
        lemma_some_rows(pre.buffer@.push(batch));
    }
}

/// No answer of storage that the writer accepts makes a gap in the numbers.
pub proof fn law_resume_leaves_no_gap(
    pre: KeyValueFileWriter,
    event: Event,
    post: KeyValueFileWriter,
    action: Action,
    start: int,
)
    requires
        pre.wf(),
        writer_gapless(pre, start),
        KeyValueFileWriter::resumes(pre, event, post, Ok::<Action, Error>(action)),
    ensures
        writer_gapless(post, start_after(post, action, start)),
        post.next_sequence_number == pre.next_sequence_number,
        handed_over_gapless(action, start, post.next_sequence_number as int),
{
    match (pre.phase, event) {
        (_, Event::Failed { error }) => {},
        (KeyValuePhase::Closing { file }, Event::Closed { receipt }) => {
            let meta = choose|meta: DataFileMeta|
                {
                    &&& #[trigger] KeyValueFileWriter::records(pre, file, receipt, meta)
                    &&& if pre.committing {
                        KeyValueFileWriter::settles(
                            pre,
                            pre.written_files@.push(meta),
                            post,
                            Ok(action),
                        )
                    } else {
                        action is Done && post.written_files@ == pre.written_files@.push(meta)
                    }
                };
            lemma_push_gapless(
                pre.written_files@,
                meta,
                start,
                pre.next_sequence_number as int,
            );
        },
        _ => {},
    }
}

/// The start of a commit leaves no gap in the numbers.
pub proof fn law_commit_leaves_no_gap(
    pre: KeyValueFileWriter,
    post: KeyValueFileWriter,
    action: Action,
    start: int,
)
    requires
        pre.wf(),
        pre.phase is Idle,
        writer_gapless(pre, start),
        KeyValueFileWriter::commits(pre, post, Ok::<Action, Error>(action)),
    ensures
        writer_gapless(post, start_after(post, action, start)),
        handed_over_gapless(action, start, post.next_sequence_number as int),
{
    if pre.buffer@.len() > 0 {
        lemma_some_rows(pre.buffer@);
    }
}

/// Files that number their rows without a gap: the first begins at `start`, each begins right
/// after the one before it, the last ends right before `end`, and they have as many rows as there
/// are numbers between.
pub proof fn law_gapless_files(files: Seq<DataFileMeta>, start: int, end: int)
    requires
        gapless(files, start, end),
    ensures
        start <= end,
        rows_in_files(files) == end - start,
        files.len() == 0 <==> start == end,
        files.len() > 0 ==> files[0].min_sequence_number == start
            && files.last().max_sequence_number == end - 1,
        forall|i: int|
            #![trigger files[i]]
            0 <= i < files.len() ==> {
                &&& files[i].row_count > 0
                &&& files[i].row_count == files[i].max_sequence_number
                    - files[i].min_sequence_number + 1
            },
        forall|i: int, j: int|
            #![trigger files[i], files[j]]
            0 <= i < files.len() && j == i + 1 && j < files.len() ==> files[j].min_sequence_number
                == files[i].max_sequence_number + 1,
    decreases files.len(),
{
    if files.len() > 0 {
        let rest = files.drop_last();
        law_gapless_files(rest, start, files.last().min_sequence_number as int);
        assert forall|i: int| #![trigger files[i]] 0 <= i < files.len() implies {
            &&& files[i].row_count > 0
            &&& files[i].row_count == files[i].max_sequence_number - files[i].min_sequence_number
                + 1
        } by {
            if i < rest.len() {
                assert(rest[i] == files[i]);
            }
        }
        assert forall|i: int, j: int|
            #![trigger files[i], files[j]]
            0 <= i < files.len() && j == i + 1 && j < files.len() implies
            files[j].min_sequence_number == files[i].max_sequence_number + 1 by {
            assert(rest[i] == files[i]);
            if j < rest.len() {
                assert(rest[j] == files[j]);
            } else {
                assert(rest.last() == files[i]);
            }
        }
        if rest.len() > 0 {
            assert(files[0] == rest[0]);
        }
    }
}

/// A commit numbers every row that was written since `start`, and no other number is used: with
/// `n` rows, the files carry the numbers from `start` up to `start + n`, each file right after the
/// one before it, and there is no file exactly where there is no row. Nothing stays behind.
pub proof fn law_commit_numbers_every_row(
    pre: KeyValueFileWriter,
    event: Event,
    post: KeyValueFileWriter,
    files: Vec<DataFileMeta>,
    start: int,
)
    requires
        pre.wf(),
        flushed_for_commit(pre),
        writer_gapless(pre, start),
        KeyValueFileWriter::resumes(pre, event, post, Ok::<Action, Error>(Action::Files { files }))
            || (pre.phase is Idle && KeyValueFileWriter::commits(
            pre,
            post,
            Ok::<Action, Error>(Action::Files { files }),
        )),
    ensures
        gapless(files@, start, start + pre.rows()),
        post.next_sequence_number == start + pre.rows(),
        files@.len() == 0 <==> pre.rows() == 0,
        post.rows() == 0,
        post.phase is Idle,
        post.buffer@.len() == 0,
        post.written_files@.len() == 0,
{
    let action = Action::Files { files };
    if KeyValueFileWriter::resumes(pre, event, post, Ok::<Action, Error>(action)) {
        law_resume_leaves_no_gap(pre, event, post, action, start);
    } else {
        law_commit_leaves_no_gap(pre, post, action, start);
    }
    law_key_value_commit_leaves_nothing(pre, event, post, files);
    law_gapless_files(files@, start, post.next_sequence_number as int);
}

} // verus!
