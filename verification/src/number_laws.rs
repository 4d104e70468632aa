//! What a write of a primary-key table keeps of its sequence numbers: every file that it commits
//! carries numbers from the first one of the write on.

use crate::arrow::RecordBatch;
use crate::bucket_writer::BucketWriter;
use crate::error::Error;
use crate::key_value_laws::{
    law_commit_keeps_numbers, law_resume_keeps_numbers, law_write_keeps_numbers, numbered,
    writer_numbered,
};
use crate::meta::{CommitMessage, DataFileMeta};
use crate::protocol::{Action, Event, Step};
use crate::route::RoutedBatch;
use crate::schema::Table;
use crate::table_laws::{lemma_drains_all_ready, lemma_ready_with_writer};
use crate::table_write::{writer_places, PartitionWriter, TableWrite, Task};
use vstd::prelude::*;

verus! {

/// Whether the writer sorts by primary key and numbers its files from `floor` on.
pub open spec fn bucket_numbered(writer: BucketWriter, floor: int) -> bool {
    writer matches BucketWriter::KeyValue(w) && writer_numbered(w, floor)
}

/// Whether the files are numbered in order, from `floor` on.
pub open spec fn files_numbered(files: Seq<DataFileMeta>, floor: int) -> bool {
    numbered(files, floor, i64::MAX + 1)
}

/// Whether the files of each message are numbered in order, from `floor` on.
pub open spec fn messages_numbered(messages: Seq<CommitMessage>, floor: int) -> bool {
    forall|i: int|
        #![trigger messages[i]]
        0 <= i < messages.len() ==> files_numbered(messages[i].new_files@, floor)
}

/// Whether each writer numbers its files from `floor` on.
pub open spec fn writers_numbered(writers: Seq<PartitionWriter>, floor: int) -> bool {
    forall|i: int|
        #![trigger writers[i]]
        0 <= i < writers.len() ==> bucket_numbered(writers[i].writer, floor)
}

/// Whether a write of a primary-key table numbers everything from its first sequence number on.
pub open spec fn write_numbered(write: TableWrite) -> bool {
    let floor = write.settings.next_sequence_number as int;
    &&& write.settings.primary_key_indices@.len() > 0
    &&& writers_numbered(write.partition_writers@, floor)
    &&& writers_numbered(write.drained@, floor)
    &&& messages_numbered(write.messages@, floor)
    &&& write.task matches Task::Closing { entry } ==> bucket_numbered(entry.writer, floor)
}

/// Whether the messages that a step hands over are numbered in order, from `floor` on.
pub open spec fn committed_numbered(r: Result<Step, Error>, floor: int) -> bool {
    r matches Ok(Step::Committed { messages }) ==> messages_numbered(messages@, floor)
}

proof fn lemma_write_goes_on_numbers(
    pre: TableWrite,
    index: int,
    writer: BucketWriter,
    result: Result<Action, Error>,
    post: TableWrite,
    r: Result<Step, Error>,
)
    requires
        write_numbered(TableWrite { task: Task::Idle, ..pre }),
        0 <= index < pre.partition_writers@.len(),
        bucket_numbered(writer, pre.settings.next_sequence_number as int),
        !(pre.task is Closing),
        TableWrite::write_goes_on(pre, index, writer, result, post, r),
    ensures
        write_numbered(post),
        !(r matches Ok(Step::Committed { .. })),
{
}

proof fn lemma_writes_at_numbers(
    pre: TableWrite,
    index: int,
    batch: RecordBatch,
    post: TableWrite,
    r: Result<Step, Error>,
)
    requires
        pre.ready(),
        !(pre.task is Closing),
        write_numbered(pre),
        0 <= index < pre.partition_writers@.len(),
        TableWrite::writes_at(pre, index, batch, post, r),
    ensures
        write_numbered(post),
        !(r matches Ok(Step::Committed { .. })),
{
    let floor = pre.settings.next_sequence_number as int;
    let before = pre.partition_writers@[index].writer;
    let (writer, result) = choose|writer: BucketWriter, result: Result<Action, Error>|
        {
            &&& #[trigger] BucketWriter::writes(before, batch, writer, result)
            &&& TableWrite::write_goes_on(pre, index, writer, result, post, r)
        };
    match (before, writer) {
        (BucketWriter::KeyValue(a), BucketWriter::KeyValue(b)) => {
            law_write_keeps_numbers(a, batch, b, result, floor);
        },
        _ => {},
    }
    lemma_write_goes_on_numbers(pre, index, writer, result, post, r);
}

proof fn lemma_writes_new_numbers(
    pre: TableWrite,
    path: Seq<char>,
    part: RoutedBatch,
    post: TableWrite,
    r: Result<Step, Error>,
)
    requires
        pre.ready(),
        !writer_places(pre.partition_writers@).contains(part.place()),
        !(pre.task is Closing),
        write_numbered(pre),
        TableWrite::writes_new(pre, path, part, post, r),
    ensures
        write_numbered(post),
        !(r matches Ok(Step::Committed { .. })),
{
    let count = pre.partition_writers@.len() as int;
    let mid = choose|mid: TableWrite|
        {
            &&& #[trigger] pre.adds_writer(path, part, mid)
            &&& TableWrite::writes_at(mid, count, part.batch, post, r)
        };
    lemma_ready_with_writer(pre, path, part, mid);
    let writers = mid.partition_writers@;
    assert forall|i: int| #![trigger writers[i]] 0 <= i < writers.len() implies bucket_numbered(
        writers[i].writer,
        pre.settings.next_sequence_number as int,
    ) by {
        if i < count {
            assert(writers.drop_last()[i] == pre.partition_writers@[i]);
        } else {
            assert(writers[i] == writers.last());
        }
    }
    lemma_writes_at_numbers(mid, count, part.batch, post, r);
}

proof fn lemma_advances_numbers(pre: TableWrite, post: TableWrite, r: Result<Step, Error>)
    requires
        pre.ready(),
        !pre.queues_empty(),
        !(pre.task is Closing),
        write_numbered(pre),
        TableWrite::advances(pre, post, r),
    ensures
        write_numbered(post),
        !(r matches Ok(Step::Committed { .. })),
{
    if pre.parts@.len() > 0 {
        let part = pre.parts@[0];
        let mid = choose|mid: TableWrite|
            {
                &&& #[trigger] pre.drops_part(mid)
                &&& TableWrite::places(mid, part, post, r)
            };
        let place = part.place();
        if writer_places(mid.partition_writers@).contains(place) {
            let i = choose|i: int|
                {
                    &&& 0 <= i < mid.partition_writers@.len()
                    &&& (#[trigger] mid.partition_writers@[i]).place() == place
                    &&& TableWrite::writes_at(mid, i, part.batch, post, r)
                };
            lemma_writes_at_numbers(mid, i, part.batch, post, r);
        } else if mid.settings.partition_keys@.len() == 0 {
            lemma_writes_new_numbers(mid, Seq::empty(), part, post, r);
        }
    }
}

proof fn lemma_commit_goes_on_numbers(
    pre: TableWrite,
    entry: PartitionWriter,
    result: Result<Action, Error>,
    post: TableWrite,
    r: Result<Step, Error>,
)
    requires
        write_numbered(pre),
        bucket_numbered(entry.writer, pre.settings.next_sequence_number as int),
        result matches Ok(Action::Files { files }) ==> files_numbered(
            files@,
            pre.settings.next_sequence_number as int,
        ),
        TableWrite::commit_goes_on(pre, entry, result, post, r),
    ensures
        write_numbered(post),
        committed_numbered(r, pre.settings.next_sequence_number as int),
{
    match result {
        Ok(Action::Files { files }) => {
            let mid = choose|mid: TableWrite|
                {
                    &&& #[trigger] pre.adds_message(entry, files, mid)
                    &&& TableWrite::collects(mid, post, r)
                };
            if files@.len() > 0 {
                let messages = mid.messages@;
                assert forall|i: int| #![trigger messages[i]] 0 <= i < messages.len() implies
                    files_numbered(
                    messages[i].new_files@,
                    pre.settings.next_sequence_number as int,
                ) by {
                    if i < pre.messages@.len() {
                        assert(messages.drop_last()[i] == pre.messages@[i]);
                    }
                }
            }
        },
        _ => {},
    }
}

proof fn lemma_drains_numbers(pre: TableWrite, post: TableWrite, r: Result<Step, Error>)
    requires
        pre.ready_to_commit(Seq::empty()),
        write_numbered(pre),
        TableWrite::drains(pre, post, r),
    ensures
        write_numbered(post),
        committed_numbered(r, pre.settings.next_sequence_number as int),
{
    let floor = pre.settings.next_sequence_number as int;
    if pre.drained@.len() > 0 {
        let entry = pre.drained@[0];
        let (mid, writer, result) = choose|
            mid: TableWrite,
            writer: BucketWriter,
            result: Result<Action, Error>,
        |
            {
                &&& #[trigger] pre.drops_drained(mid)
                &&& #[trigger] BucketWriter::commits(entry.writer, writer, result)
                &&& TableWrite::commit_goes_on(
                    mid,
                    PartitionWriter { writer, ..entry },
                    result,
                    post,
                    r,
                )
            };
        match (entry.writer, writer) {
            (BucketWriter::KeyValue(a), BucketWriter::KeyValue(b)) => {
                law_commit_keeps_numbers(a, b, result, floor);
            },
            _ => {},
        }
        lemma_commit_goes_on_numbers(mid, PartitionWriter { writer, ..entry }, result, post, r);
    }
}

/// Writing a batch keeps everything numbered from the first sequence number of the write on.
pub proof fn law_table_write_keeps_numbers(
    pre: TableWrite,
    batch: RecordBatch,
    post: TableWrite,
    r: Result<Step, Error>,
)
    requires
        pre.wf(),
        pre.task is Idle,
        write_numbered(pre),
        TableWrite::takes(pre, batch, post, r),
    ensures
        write_numbered(post),
{
}

/// Writing several batches keeps everything numbered from the first sequence number of the write
/// on.
pub proof fn law_table_write_all_keeps_numbers(
    pre: TableWrite,
    batches: Seq<RecordBatch>,
    post: TableWrite,
    r: Result<Step, Error>,
)
    requires
        pre.wf(),
        pre.task is Idle,
        write_numbered(pre),
        TableWrite::queues(pre, batches, post, r),
    ensures
        write_numbered(post),
{
}

/// A new write of a primary-key table has everything numbered from its first sequence number on.
pub proof fn law_new_write_is_numbered(write: TableWrite, table: Table, next_sequence_number: i64)
    requires
        write.wf(),
        write.writes_to(table, next_sequence_number),
        write.settings.primary_key_indices@.len() > 0,
    ensures
        write_numbered(write),
{
}

/// The start of a commit keeps everything numbered from the first sequence number of the write
/// on, the files that it hands over included.
pub proof fn law_table_commit_keeps_numbers(
    pre: TableWrite,
    post: TableWrite,
    r: Result<Step, Error>,
)
    requires
        pre.wf(),
        pre.task is Idle,
        write_numbered(pre),
        TableWrite::commits(pre, post, r),
    ensures
        write_numbered(post),
        committed_numbered(r, pre.settings.next_sequence_number as int),
{
    let mid = choose|mid: TableWrite|
        {
            &&& #[trigger] pre.drains_all(mid)
            &&& TableWrite::drains(mid, post, r)
        };
    lemma_drains_all_ready(pre, mid);
    lemma_drains_numbers(mid, post, r);
}

/// Every answer keeps everything numbered from the first sequence number of the write on, the
/// files that it hands over included.
pub proof fn law_table_resume_keeps_numbers(
    pre: TableWrite,
    event: Event,
    post: TableWrite,
    r: Result<Step, Error>,
)
    requires
        pre.wf(),
        write_numbered(pre),
        TableWrite::resumes(pre, event, post, r),
    ensures
        write_numbered(post),
        committed_numbered(r, pre.settings.next_sequence_number as int),
{
    let floor = pre.settings.next_sequence_number as int;
    let free = TableWrite { task: Task::Idle, ..pre };
    match (pre.task, event) {
        (Task::Writing { index }, _) => {
            let before = pre.partition_writers@[index as int].writer;
            let (writer, result) = choose|writer: BucketWriter, result: Result<Action, Error>|
                {
                    &&& #[trigger] BucketWriter::resumes(before, event, writer, result)
                    &&& TableWrite::write_goes_on(pre, index as int, writer, result, post, r)
                };
            match (before, writer) {
                (BucketWriter::KeyValue(a), BucketWriter::KeyValue(b)) => {
                    law_resume_keeps_numbers(a, event, b, result, floor);
                },
                _ => {},
            }
            lemma_write_goes_on_numbers(pre, index as int, writer, result, post, r);
        },
        (Task::Closing { entry }, _) => {
            let (writer, result) = choose|writer: BucketWriter, result: Result<Action, Error>|
                {
                    &&& #[trigger] BucketWriter::resumes(entry.writer, event, writer, result)
                    &&& TableWrite::commit_goes_on(
                        free,
                        PartitionWriter { writer, ..entry },
                        result,
                        post,
                        r,
                    )
                };
            match (entry.writer, writer) {
                (BucketWriter::KeyValue(a), BucketWriter::KeyValue(b)) => {
                    law_resume_keeps_numbers(a, event, b, result, floor);
                },
                _ => {},
            }
            lemma_commit_goes_on_numbers(
                free,
                PartitionWriter { writer, ..entry },
                result,
                post,
                r,
            );
        },
        (_, Event::Failed { error }) => {},
        (Task::Between, Event::Done) => {
            lemma_advances_numbers(free, post, r);
        },
        (Task::Resolving { part }, Event::PartitionPath { path }) => {
            lemma_writes_new_numbers(free, path@, part, post, r);
        },
        (Task::Draining, Event::Done) => {
            lemma_drains_numbers(free, post, r);
        },
        _ => {},
    }
}

} // verus!
