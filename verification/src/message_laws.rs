//! Which messages a commit has: one for each place that rows were written to, and its files hold
//! the rows of the place.

use crate::append_laws::{
    files_have_rows, law_append_commit_keeps_files, law_append_resume_keeps_files,
    law_append_write_keeps_files, lemma_no_rows_no_files, recorded_with_rows,
};
use crate::arrow::{batch_rows, total_rows, RecordBatch};
use crate::bucket_writer::BucketWriter;
use crate::commit_laws::{
    law_commit_keeps_rows_of_each_place, law_resume_keeps_rows_of_each_place, message_place,
    message_rows_at, rows_held_at,
};
use crate::error::Error;
use crate::key_value_writer::{KeyValueFileWriter, KeyValuePhase};
use crate::meta::{rows_in_files, CommitMessage, DataFileMeta};
use crate::protocol::{Action, Event, Step};
use crate::route::{Route, RoutedBatch};
use crate::schema::Table;
use crate::table_laws::{
    law_one_message_for_a_place, lemma_drains_all_ready, lemma_ready_with_writer,
};
use crate::table_write::{message_places, writer_places, PartitionWriter, TableWrite, Task};
use vstd::prelude::*;

verus! {

/// Whether each file of a primary-key writer has rows, the one being written included.
pub open spec fn key_value_files_have_rows(writer: KeyValueFileWriter) -> bool {
    &&& recorded_with_rows(writer.written_files@)
    &&& writer.pending() matches Some(file) ==> file.row_count > 0
}

/// Whether each file of a writer has rows, or is about to get them.
pub open spec fn bucket_files_have_rows(writer: BucketWriter) -> bool {
    match writer {
        BucketWriter::Append(w) => files_have_rows(w),
        BucketWriter::KeyValue(w) => key_value_files_have_rows(w),
    }
}

/// Whether each file of each writer has rows, or is about to get them.
pub open spec fn writers_files_have_rows(writers: Seq<PartitionWriter>) -> bool {
    forall|i: int|
        #![trigger writers[i]]
        0 <= i < writers.len() ==> bucket_files_have_rows(writers[i].writer)
}

/// Whether each file of each message has rows.
pub open spec fn messages_have_rows(messages: Seq<CommitMessage>) -> bool {
    forall|i: int|
        #![trigger messages[i]]
        0 <= i < messages.len() ==> recorded_with_rows(messages[i].new_files@)
}

/// Whether each file of a write has rows, or is about to get them.
pub open spec fn write_files_have_rows(write: TableWrite) -> bool {
    &&& writers_files_have_rows(write.partition_writers@)
    &&& writers_files_have_rows(write.drained@)
    &&& messages_have_rows(write.messages@)
    &&& write.task matches Task::Closing { entry } ==> bucket_files_have_rows(entry.writer)
}

/// Whether each file of the messages that a step hands over has rows.
pub open spec fn committed_with_rows(step: Step) -> bool {
    step matches Step::Committed { messages } ==> messages_have_rows(messages@)
}

proof fn lemma_total_positive(batches: Seq<RecordBatch>)
    requires
        batches.len() > 0,
        batch_rows(batches.last()) > 0,
    ensures
        total_rows(batches) > 0,
{
}

/// Taking a batch opens no file without rows.
pub proof fn law_bucket_write_opens_for_rows(
    pre: BucketWriter,
    batch: RecordBatch,
    post: BucketWriter,
    action: Action,
)
    requires
        pre.wf(),
        pre.idle(),
        bucket_files_have_rows(pre),
        BucketWriter::writes(pre, batch, post, Ok::<Action, Error>(action)),
    ensures
        bucket_files_have_rows(post),
{
    match (pre, post) {
        (BucketWriter::Append(a), BucketWriter::Append(b)) => {
            law_append_write_keeps_files(a, batch, b, action);
        },
        (BucketWriter::KeyValue(a), BucketWriter::KeyValue(b)) => {
            if batch_rows(batch) > 0 {
                lemma_total_positive(a.buffer@.push(batch));
            }
        },
        _ => {},
    }
}

proof fn lemma_key_value_resume(
    pre: KeyValueFileWriter,
    event: Event,
    post: KeyValueFileWriter,
    action: Action,
)
    requires
        key_value_files_have_rows(pre),
        KeyValueFileWriter::resumes(pre, event, post, Ok::<Action, Error>(action)),
    ensures
        key_value_files_have_rows(post),
        action matches Action::Files { files } ==> recorded_with_rows(files@),
{
    match (pre.phase, event) {
        (_, Event::Failed { error }) => {},
        (KeyValuePhase::Closing { file }, Event::Closed { receipt }) => {
            let meta = choose|meta: DataFileMeta|
                {
                    &&& #[trigger] KeyValueFileWriter::records(pre, file, receipt, meta)
                    &&& if pre.committing {
                        KeyValueFileWriter::settles(
                            pre,
                            pre.written_files@.push(meta),
                            post,
                            Ok(action),
                        )
                    } else {
                        action is Done && post.written_files@ == pre.written_files@.push(meta)
                    }
                };
            assert(recorded_with_rows(pre.written_files@.push(meta)));
        },
        _ => {},
    }
}

/// No answer of storage that a writer accepts leaves it with a file without rows.
pub proof fn law_bucket_resume_closes_with_rows(
    pre: BucketWriter,
    event: Event,
    post: BucketWriter,
    action: Action,
)
    requires
        pre.wf(),
        bucket_files_have_rows(pre),
        BucketWriter::resumes(pre, event, post, Ok::<Action, Error>(action)),
    ensures
        bucket_files_have_rows(post),
        action matches Action::Files { files } ==> recorded_with_rows(files@),
{
    match (pre, post) {
        (BucketWriter::Append(a), BucketWriter::Append(b)) => {
            law_append_resume_keeps_files(a, event, b, action);
        },
        (BucketWriter::KeyValue(a), BucketWriter::KeyValue(b)) => {
            lemma_key_value_resume(a, event, b, action);
        },
        _ => {},
    }
}

/// The start of a commit leaves a writer with no file without rows.
pub proof fn law_bucket_commit_closes_with_rows(
    pre: BucketWriter,
    post: BucketWriter,
    action: Action,
)
    requires
        pre.wf(),
        pre.idle(),
        bucket_files_have_rows(pre),
        BucketWriter::commits(pre, post, Ok::<Action, Error>(action)),
    ensures
        bucket_files_have_rows(post),
        action matches Action::Files { files } ==> recorded_with_rows(files@),
{
    match (pre, post) {
        (BucketWriter::Append(a), BucketWriter::Append(b)) => {
            law_append_commit_keeps_files(a, b, action);
        },
        (BucketWriter::KeyValue(a), BucketWriter::KeyValue(b)) => {
            if a.buffer@.len() > 0 {
                lemma_total_positive(a.buffer@);
            }
        },
        _ => {},
    }
}

proof fn lemma_write_goes_on(
    pre: TableWrite,
    index: int,
    writer: BucketWriter,
    action: Action,
    post: TableWrite,
    step: Step,
)
    requires
        write_files_have_rows(TableWrite { task: Task::Idle, ..pre }),
        0 <= index < pre.partition_writers@.len(),
        bucket_files_have_rows(writer),
        TableWrite::write_goes_on(pre, index, writer, Ok(action), post, Ok(step)),
        !(pre.task is Closing),
    ensures
        write_files_have_rows(post),
        !(step is Committed),
{
}

proof fn lemma_writes_at(
    pre: TableWrite,
    index: int,
    batch: RecordBatch,
    post: TableWrite,
    step: Step,
)
    requires
        pre.ready(),
        !(pre.task is Closing),
        write_files_have_rows(pre),
        0 <= index < pre.partition_writers@.len(),
        TableWrite::writes_at(pre, index, batch, post, Ok(step)),
    ensures
        write_files_have_rows(post),
        !(step is Committed),
{
    let before = pre.partition_writers@[index].writer;
    let (writer, result) = choose|writer: BucketWriter, result: Result<Action, Error>|
        {
            &&& #[trigger] BucketWriter::writes(before, batch, writer, result)
            &&& TableWrite::write_goes_on(pre, index, writer, result, post, Ok(step))
        };
    law_bucket_write_opens_for_rows(before, batch, writer, result->Ok_0);
    lemma_write_goes_on(pre, index, writer, result->Ok_0, post, step);
}

proof fn lemma_writes_new(
    pre: TableWrite,
    path: Seq<char>,
    part: RoutedBatch,
    post: TableWrite,
    step: Step,
)
    requires
        pre.ready(),
        !writer_places(pre.partition_writers@).contains(part.place()),
        !(pre.task is Closing),
        write_files_have_rows(pre),
        TableWrite::writes_new(pre, path, part, post, Ok(step)),
    ensures
        write_files_have_rows(post),
        !(step is Committed),
{
    let count = pre.partition_writers@.len() as int;
    let mid = choose|mid: TableWrite|
        {
            &&& #[trigger] pre.adds_writer(path, part, mid)
            &&& TableWrite::writes_at(mid, count, part.batch, post, Ok(step))
        };
    lemma_ready_with_writer(pre, path, part, mid);
    let writers = mid.partition_writers@;
    assert forall|i: int| #![trigger writers[i]] 0 <= i < writers.len() implies
        bucket_files_have_rows(writers[i].writer) by {
        if i < count {
            assert(writers.drop_last()[i] == pre.partition_writers@[i]);
        } else {
            assert(writers[i] == writers.last());
        }
    }
    lemma_writes_at(mid, count, part.batch, post, step);
}

proof fn lemma_advances(pre: TableWrite, post: TableWrite, step: Step)
    requires
        pre.ready(),
        !pre.queues_empty(),
        !(pre.task is Closing),
        write_files_have_rows(pre),
        TableWrite::advances(pre, post, Ok(step)),
    ensures
        write_files_have_rows(post),
        !(step is Committed),
{
    if pre.parts@.len() > 0 {
        let part = pre.parts@[0];
        let place = part.place();
        let mid = choose|mid: TableWrite|
            {
                &&& #[trigger] pre.drops_part(mid)
                &&& TableWrite::places(mid, part, post, Ok(step))
            };
        if writer_places(mid.partition_writers@).contains(place) {
            let i = choose|i: int|
                {
                    &&& 0 <= i < mid.partition_writers@.len()
                    &&& (#[trigger] mid.partition_writers@[i]).place() == place
                    &&& TableWrite::writes_at(mid, i, part.batch, post, Ok(step))
                };
            lemma_writes_at(mid, i, part.batch, post, step);
        } else if mid.settings.partition_keys@.len() == 0 {
            lemma_writes_new(mid, Seq::empty(), part, post, step);
        }
    }
}

proof fn lemma_commit_goes_on(
    pre: TableWrite,
    entry: PartitionWriter,
    action: Action,
    post: TableWrite,
    step: Step,
)
    requires
        write_files_have_rows(pre),
        bucket_files_have_rows(entry.writer),
        action matches Action::Files { files } ==> recorded_with_rows(files@),
        TableWrite::commit_goes_on(pre, entry, Ok(action), post, Ok(step)),
    ensures
        write_files_have_rows(post),
        committed_with_rows(step),
{
    match action {
        Action::Files { files } => {
            let mid = choose|mid: TableWrite|
                {
                    &&& #[trigger] pre.adds_message(entry, files, mid)
                    &&& TableWrite::collects(mid, post, Ok(step))
                };
            if files@.len() > 0 {
                let messages = mid.messages@;
                assert forall|i: int| #![trigger messages[i]] 0 <= i < messages.len() implies
                    recorded_with_rows(messages[i].new_files@) by {
                    if i < pre.messages@.len() {
                        assert(messages.drop_last()[i] == pre.messages@[i]);
                    }
                }
            }
        },
        _ => {},
    }
}

proof fn lemma_drains(pre: TableWrite, post: TableWrite, step: Step)
    requires
        pre.ready_to_commit(Seq::empty()),
        write_files_have_rows(pre),
        TableWrite::drains(pre, post, Ok(step)),
    ensures
        write_files_have_rows(post),
        committed_with_rows(step),
{
    if pre.drained@.len() > 0 {
        let entry = pre.drained@[0];
        let (mid, writer, result) = choose|
            mid: TableWrite,
            writer: BucketWriter,
            result: Result<Action, Error>,
        |
            {
                &&& #[trigger] pre.drops_drained(mid)
                &&& #[trigger] BucketWriter::commits(entry.writer, writer, result)
                &&& TableWrite::commit_goes_on(
                    mid,
                    PartitionWriter { writer, ..entry },
                    result,
                    post,
                    Ok(step),
                )
            };
        law_bucket_commit_closes_with_rows(entry.writer, writer, result->Ok_0);
        lemma_commit_goes_on(
            mid,
            PartitionWriter { writer, ..entry },
            result->Ok_0,
            post,
            step,
        );
    }
}

/// A new write has no file without rows.
pub proof fn law_new_write_has_no_empty_file(
    write: TableWrite,
    table: Table,
    next_sequence_number: i64,
)
    requires
        write.wf(),
        write.writes_to(table, next_sequence_number),
    ensures
        write_files_have_rows(write),
{
}

/// Writing a batch makes no file without rows.
pub proof fn law_write_makes_no_empty_file(
    pre: TableWrite,
    batch: RecordBatch,
    post: TableWrite,
    step: Step,
)
    requires
        pre.wf(),
        pre.task is Idle,
        write_files_have_rows(pre),
        TableWrite::takes(pre, batch, post, Ok(step)),
    ensures
        write_files_have_rows(post),
{
}

/// Writing several batches makes no file without rows.
pub proof fn law_write_all_makes_no_empty_file(
    pre: TableWrite,
    batches: Seq<RecordBatch>,
    post: TableWrite,
    step: Step,
)
    requires
        pre.wf(),
        pre.task is Idle,
        write_files_have_rows(pre),
        TableWrite::queues(pre, batches, post, Ok(step)),
    ensures
        write_files_have_rows(post),
{
}

/// No answer that a write accepts makes a file without rows, among those that it hands over or
/// others.
pub proof fn law_resume_makes_no_empty_file(
    pre: TableWrite,
    event: Event,
    post: TableWrite,
    step: Step,
)
    requires
        pre.wf(),
        write_files_have_rows(pre),
        TableWrite::resumes(pre, event, post, Ok(step)),
    ensures
        write_files_have_rows(post),
        committed_with_rows(step),
{
    let free = TableWrite { task: Task::Idle, ..pre };
    match (pre.task, event) {
        (Task::Writing { index }, _) => {
            let before = pre.partition_writers@[index as int].writer;
            let (writer, result) = choose|writer: BucketWriter, result: Result<Action, Error>|
                {
                    &&& #[trigger] BucketWriter::resumes(before, event, writer, result)
                    &&& TableWrite::write_goes_on(
                        pre,
                        index as int,
                        writer,
                        result,
                        post,
                        Ok(step),
                    )
                };
            law_bucket_resume_closes_with_rows(before, event, writer, result->Ok_0);
            lemma_write_goes_on(pre, index as int, writer, result->Ok_0, post, step);
        },
        (Task::Closing { entry }, _) => {
            let (writer, result) = choose|writer: BucketWriter, result: Result<Action, Error>|
                {
                    &&& #[trigger] BucketWriter::resumes(entry.writer, event, writer, result)
                    &&& TableWrite::commit_goes_on(
                        free,
                        PartitionWriter { writer, ..entry },
                        result,
                        post,
                        Ok(step),
                    )
                };
            law_bucket_resume_closes_with_rows(entry.writer, event, writer, result->Ok_0);
            lemma_commit_goes_on(
                free,
                PartitionWriter { writer, ..entry },
                result->Ok_0,
                post,
                step,
            );
        },
        (_, Event::Failed { error }) => {},
        (Task::Between, Event::Done) => {
            lemma_advances(free, post, step);
        },
        (Task::Resolving { part }, Event::PartitionPath { path }) => {
            lemma_writes_new(free, path@, part, post, step);
        },
        (Task::Draining, Event::Done) => {
            lemma_drains(free, post, step);
        },
        _ => {},
    }
}

/// The start of a commit makes no file without rows, among those that it hands over or others.
pub proof fn law_commit_makes_no_empty_file(pre: TableWrite, post: TableWrite, step: Step)
    requires
        pre.wf(),
        pre.task is Idle,
        write_files_have_rows(pre),
        TableWrite::commits(pre, post, Ok(step)),
    ensures
        write_files_have_rows(post),
        committed_with_rows(step),
{
    let mid = choose|mid: TableWrite|
        {
            &&& #[trigger] pre.drains_all(mid)
            &&& TableWrite::drains(mid, post, Ok(step))
        };
    lemma_drains_all_ready(pre, mid);
    lemma_drains(mid, post, step);
}

proof fn lemma_rows_of_a_message(messages: Seq<CommitMessage>, i: int)
    requires
        message_places(messages).no_duplicates(),
        0 <= i < messages.len(),
    ensures
        message_rows_at(messages, message_place(messages[i])) == rows_in_files(
            messages[i].new_files@,
        ),
    decreases messages.len(),
{
    let rest = messages.drop_last();
    let place = message_place(messages[i]);
    assert forall|a: int, b: int|
        0 <= a < rest.len() && 0 <= b < rest.len() && a != b implies message_places(rest)[a]
        != message_places(rest)[b] by {
        assert(message_places(rest)[a] == message_places(messages)[a]);
        assert(message_places(rest)[b] == message_places(messages)[b]);
    }
    if i < messages.len() - 1 {
        lemma_rows_of_a_message(rest, i);
        assert(message_places(messages)[i] != message_places(messages)[messages.len() - 1]);
    } else {
        assert forall|k: int| 0 <= k < rest.len() implies message_place(#[trigger] rest[k])
            != place by {
            assert(message_places(messages)[k] != message_places(messages)[i]);
        }
        lemma_no_message_no_rows(rest, place);
    }
}

proof fn lemma_no_message_no_rows(messages: Seq<CommitMessage>, place: Route)
    requires
        forall|k: int|
            0 <= k < messages.len() ==> message_place(#[trigger] messages[k]) != place,
    ensures
        message_rows_at(messages, place) == 0,
    decreases messages.len(),
{
    if messages.len() > 0 {
        let rest = messages.drop_last();
        assert forall|k: int| 0 <= k < rest.len() implies message_place(#[trigger] rest[k])
            != place by {
            assert(rest[k] == messages[k]);
        }
        lemma_no_message_no_rows(rest, place);
    }
}

/// A commit has one message for each place that rows were written to, and none for another
/// place; the files of the message hold as many rows as were written to the place, and none of
/// them is empty.
pub proof fn law_commit_has_a_message_for_each_place(
    pre: TableWrite,
    event: Event,
    post: TableWrite,
    messages: Vec<CommitMessage>,
    place: Route,
)
    requires
        pre.wf(),
        write_files_have_rows(pre),
        TableWrite::resumes(pre, event, post, Ok(Step::Committed { messages })) || (
        pre.task is Idle && TableWrite::commits(pre, post, Ok(Step::Committed { messages }))),
    ensures
        message_places(messages@).no_duplicates(),
        message_places(messages@).contains(place) <==> rows_held_at(pre, place) > 0,
        forall|i: int|
            #![trigger messages@[i]]
            0 <= i < messages@.len() && message_place(messages@[i]) == place ==> {
                &&& rows_in_files(messages@[i].new_files@) == rows_held_at(pre, place)
                &&& recorded_with_rows(messages@[i].new_files@)
                &&& messages@[i].new_files@.len() > 0
            },
        rows_held_at(post, place) == 0,
        post.partition_writers@.len() == 0,
        post.task is Idle,
{
    let step = Step::Committed { messages };
    if TableWrite::resumes(pre, event, post, Ok(step)) {
        law_resume_keeps_rows_of_each_place(pre, event, post, step, place);
        law_resume_makes_no_empty_file(pre, event, post, step);
    } else {
        law_commit_keeps_rows_of_each_place(pre, post, step, place);
        law_commit_makes_no_empty_file(pre, post, step);
    }
    law_one_message_for_a_place(pre, event, post, messages);
    lemma_commit_leaves_nothing(pre, event, post, messages);
    assert(rows_held_at(post, place) == 0);
    assert forall|i: int|
        #![trigger messages@[i]]
        0 <= i < messages@.len() && message_place(messages@[i]) == place implies {
        &&& rows_in_files(messages@[i].new_files@) == rows_held_at(pre, place)
        &&& recorded_with_rows(messages@[i].new_files@)
        &&& rows_held_at(pre, place) > 0
    } by {
        lemma_rows_of_a_message(messages@, i);
        lemma_no_rows_no_files(messages@[i].new_files@);
    }
    if message_places(messages@).contains(place) {
        let i = choose|i: int|
            0 <= i < message_places(messages@).len() && message_places(messages@)[i] == place;
        assert(message_place(messages@[i]) == place);
    } else {
        assert forall|k: int| 0 <= k < messages@.len() implies message_place(
            #[trigger] messages@[k],
        ) != place by {
            assert(message_places(messages@)[k] == message_place(messages@[k]));
        }
        lemma_no_message_no_rows(messages@, place);
    }
}

proof fn lemma_commit_leaves_nothing(
    pre: TableWrite,
    event: Event,
    post: TableWrite,
    messages: Vec<CommitMessage>,
)
    requires
        pre.wf(),
        TableWrite::resumes(pre, event, post, Ok(Step::Committed { messages })) || (
        pre.task is Idle && TableWrite::commits(pre, post, Ok(Step::Committed { messages }))),
    ensures
        post.task is Idle,
        post.queues_empty(),
        post.commit_empty(),
        post.partition_writers@.len() == 0,
{
}

} // verus!
