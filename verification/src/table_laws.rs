//! What a table write keeps: every row that it took, until the messages of a commit hand the rows
//! over, one message for each place.

use crate::arrow::{batch_rows, total_rows, RecordBatch};
use crate::bucket_writer::{
    law_bucket_commit_keeps_rows, law_bucket_commit_leaves_nothing, law_bucket_resume_keeps_rows,
    law_bucket_write_keeps_rows, BucketWriter,
};
use crate::error::Error;
use crate::meta::{rows_in_messages, CommitMessage};
use crate::protocol::{Action, Event, Step};
use crate::route::{Route, RoutedBatch};
use crate::route_laws::{law_division_keeps_rows, rows_routed};
use crate::table_write::{
    lemma_next_batch, message_places, writer_places, PartitionWriter, TableSettings, TableWrite,
    Task,
};
use vstd::prelude::*;

verus! {

/// The rows that the writers hold.
pub open spec fn rows_in_writers(writers: Seq<PartitionWriter>) -> int
    decreases writers.len(),
{
    if writers.len() == 0 {
        0
    } else {
        rows_in_writers(writers.drop_last()) + writers.last().writer.rows()
    }
}

/// The rows that a write holds beside those of its task.
pub open spec fn rows_aside(write: TableWrite) -> int {
    rows_in_writers(write.partition_writers@) + total_rows(write.queue()) + rows_routed(
        write.parts@,
    ) + rows_in_writers(write.drained@) + rows_in_messages(write.messages@)
}

/// The rows that a task holds.
pub open spec fn rows_in_task(task: Task) -> int {
    match task {
        Task::Resolving { part } => batch_rows(part.batch) as int,
        Task::Closing { entry } => entry.writer.rows(),
        _ => 0,
    }
}

/// The rows that a write has taken and not handed over in messages.
pub open spec fn rows_held(write: TableWrite) -> int {
    rows_aside(write) + rows_in_task(write.task)
}

/// The rows of the messages that a step hands over.
pub open spec fn rows_committed(step: Step) -> int {
    match step {
        Step::Committed { messages } => rows_in_messages(messages@),
        _ => 0,
    }
}

proof fn lemma_update_writer(writers: Seq<PartitionWriter>, i: int, entry: PartitionWriter)
    requires
        0 <= i < writers.len(),
    ensures
        rows_in_writers(writers.update(i, entry)) == rows_in_writers(writers)
            - writers[i].writer.rows() + entry.writer.rows(),
    decreases writers.len(),
{
    let after = writers.update(i, entry);
    if i == writers.len() - 1 {
        assert(after.drop_last() =~= writers.drop_last());
    } else {
        assert(after.drop_last() =~= writers.drop_last().update(i, entry));
        lemma_update_writer(writers.drop_last(), i, entry);
    }
}

proof fn lemma_first_writer(writers: Seq<PartitionWriter>)
    requires
        writers.len() > 0,
    ensures
        rows_in_writers(writers) == writers[0].writer.rows() + rows_in_writers(writers.skip(1)),
    decreases writers.len(),
{
    if writers.len() == 1 {
        assert(writers.drop_last() =~= Seq::<PartitionWriter>::empty());
        assert(writers.skip(1) =~= Seq::<PartitionWriter>::empty());
        assert(rows_in_writers(Seq::<PartitionWriter>::empty()) == 0);
    } else {
        lemma_first_writer(writers.drop_last());
        assert(writers.skip(1).drop_last() =~= writers.drop_last().skip(1));
    }
}

proof fn lemma_first_part(parts: Seq<RoutedBatch>)
    requires
        parts.len() > 0,
    ensures
        rows_routed(parts) == batch_rows(parts[0].batch) + rows_routed(parts.skip(1)),
    decreases parts.len(),
{
    if parts.len() == 1 {
        assert(parts.drop_last() =~= Seq::<RoutedBatch>::empty());
        assert(parts.skip(1) =~= Seq::<RoutedBatch>::empty());
        assert(rows_routed(Seq::<RoutedBatch>::empty()) == 0);
    } else {
        lemma_first_part(parts.drop_last());
        assert(parts.skip(1).drop_last() =~= parts.drop_last().skip(1));
    }
}

proof fn lemma_first_batch(batches: Seq<RecordBatch>)
    requires
        batches.len() > 0,
    ensures
        total_rows(batches) == batch_rows(batches[0]) + total_rows(batches.skip(1)),
    decreases batches.len(),
{
    if batches.len() == 1 {
        assert(batches.drop_last() =~= Seq::<RecordBatch>::empty());
        assert(batches.skip(1) =~= Seq::<RecordBatch>::empty());
        assert(total_rows(Seq::<RecordBatch>::empty()) == 0);
    } else {
        lemma_first_batch(batches.drop_last());
        assert(batches.skip(1).drop_last() =~= batches.drop_last().skip(1));
    }
}

pub proof fn lemma_write_phases(
    pre: BucketWriter,
    batch: RecordBatch,
    post: BucketWriter,
    action: Action,
)
    requires
        BucketWriter::writes(pre, batch, post, Ok::<Action, Error>(action)),
    ensures
        !(action is Files),
{
}

pub proof fn lemma_resume_phases(
    pre: BucketWriter,
    event: Event,
    post: BucketWriter,
    action: Action,
)
    requires
        pre.in_write(),
        BucketWriter::resumes(pre, event, post, Ok::<Action, Error>(action)),
    ensures
        !(action is Files),
{
}

proof fn lemma_write_goes_on(
    pre: TableWrite,
    index: int,
    writer: BucketWriter,
    action: Action,
    post: TableWrite,
    step: Step,
)
    requires
        0 <= index < pre.partition_writers@.len(),
        !(action is Files),
        TableWrite::write_goes_on(pre, index, writer, Ok(action), post, Ok(step)),
    ensures
        rows_held(post) + rows_committed(step) == rows_aside(pre) + writer.rows()
            - pre.partition_writers@[index].writer.rows(),
{
    lemma_update_writer(
        pre.partition_writers@,
        index,
        PartitionWriter { writer, ..pre.partition_writers@[index] },
    );
}

proof fn lemma_takes(pre: TableWrite, batch: RecordBatch, post: TableWrite, step: Step)
    requires
        pre.parts@.len() == 0,
        TableWrite::takes(pre, batch, post, Ok(step)),
    ensures
        rows_held(post) + rows_committed(step) == rows_aside(pre) + batch_rows(batch),
{
    if batch_rows(batch) > 0 {
        let division = choose|division: Result<Vec<RoutedBatch>, Error>|
            {
                &&& #[trigger] pre.router.division(batch, division)
                &&& match division {
                    Ok(parts) => TableWrite::rests(TableWrite { parts, ..pre }, post, step),
                    Err(error) => false,
                }
            };
        law_division_keeps_rows(pre.router, batch, division->Ok_0);
    }
}

proof fn lemma_writes_at(
    pre: TableWrite,
    index: int,
    batch: RecordBatch,
    post: TableWrite,
    step: Step,
)
    requires
        0 <= index < pre.partition_writers@.len(),
        pre.partition_writers@[index].writer.wf(),
        pre.partition_writers@[index].writer.idle(),
        TableWrite::writes_at(pre, index, batch, post, Ok(step)),
    ensures
        rows_held(post) + rows_committed(step) == rows_aside(pre) + batch_rows(batch),
{
    let before = pre.partition_writers@[index].writer;
    let (writer, result) = choose|writer: BucketWriter, result: Result<Action, Error>|
        {
            &&& #[trigger] BucketWriter::writes(before, batch, writer, result)
            &&& TableWrite::write_goes_on(pre, index, writer, result, post, Ok(step))
        };
    let action = result->Ok_0;
    lemma_write_phases(before, batch, writer, action);
    law_bucket_write_keeps_rows(before, batch, writer, action);
    lemma_write_goes_on(pre, index, writer, action, post, step);
}

pub proof fn lemma_starts(
    settings: TableSettings,
    path: Seq<char>,
    bucket: i32,
    writer: BucketWriter,
)
    requires
        settings.primary_key_indices@.len() <= crate::binary_row::MAX_ARITY,
        settings.starts(path, bucket, writer),
    ensures
        writer.wf(),
        writer.idle(),
        writer.rows() == 0,
{
}

/// A write that has got one more writer, for a place that had none, can go on.
pub proof fn lemma_ready_with_writer(
    pre: TableWrite,
    path: Seq<char>,
    part: RoutedBatch,
    mid: TableWrite,
)
    requires
        pre.ready(),
        !writer_places(pre.partition_writers@).contains(part.place()),
        pre.adds_writer(path, part, mid),
    ensures
        mid.ready(),
{
    let count = pre.partition_writers@.len() as int;
    let writers = mid.partition_writers@;
    let places = writer_places(pre.partition_writers@);
    lemma_starts(pre.settings, path, part.bucket, writers.last().writer);
    assert forall|i: int| #![trigger writers[i]] 0 <= i < count implies writers[i]
        == pre.partition_writers@[i] by {
        assert(writers.drop_last()[i] == writers[i]);
    }
    assert(writers[count] == writers.last());
    assert(writers.last().place() == part.place());
    assert(writer_places(writers) =~= places.push(part.place()));
    assert forall|i: int, j: int|
        0 <= i < writers.len() && 0 <= j < writers.len() && i != j implies writer_places(writers)[i]
        != writer_places(writers)[j] by {
        if i < count && j == count {
            assert(places.contains(places[i]));
        }
        if j < count && i == count {
            assert(places.contains(places[j]));
        }
    }
}

proof fn lemma_writes_new(
    pre: TableWrite,
    path: Seq<char>,
    part: RoutedBatch,
    post: TableWrite,
    step: Step,
)
    requires
        pre.settings.primary_key_indices@.len() <= crate::binary_row::MAX_ARITY,
        TableWrite::writes_new(pre, path, part, post, Ok(step)),
    ensures
        rows_held(post) + rows_committed(step) == rows_aside(pre) + batch_rows(part.batch),
{
    let mid = choose|mid: TableWrite|
        {
            &&& #[trigger] pre.adds_writer(path, part, mid)
            &&& TableWrite::writes_at(
                mid,
                pre.partition_writers@.len() as int,
                part.batch,
                post,
                Ok(step),
            )
        };
    lemma_starts(pre.settings, path, part.bucket, mid.partition_writers@.last().writer);
    lemma_writes_at(mid, pre.partition_writers@.len() as int, part.batch, post, step);
}

proof fn lemma_advances(pre: TableWrite, post: TableWrite, step: Step)
    requires
        pre.ready(),
        !pre.queues_empty(),
        TableWrite::advances(pre, post, Ok(step)),
    ensures
        rows_held(post) + rows_committed(step) == rows_aside(pre),
{
    if pre.parts@.len() > 0 {
        let part = pre.parts@[0];
        let mid = choose|mid: TableWrite|
            {
                &&& #[trigger] pre.drops_part(mid)
                &&& TableWrite::places(mid, part, post, Ok(step))
            };
        lemma_first_part(pre.parts@);
        let place = part.place();
        if writer_places(mid.partition_writers@).contains(place) {
            let i = choose|i: int|
                {
                    &&& 0 <= i < mid.partition_writers@.len()
                    &&& (#[trigger] mid.partition_writers@[i]).place() == place
                    &&& TableWrite::writes_at(mid, i, part.batch, post, Ok(step))
                };
            lemma_writes_at(mid, i, part.batch, post, step);
        } else if mid.settings.partition_keys@.len() == 0 {
            lemma_writes_new(mid, Seq::empty(), part, post, step);
        }
    } else {
        let batch = pre.queue()[0];
        let mid = choose|mid: TableWrite|
            {
                &&& #[trigger] pre.drops_batch(mid)
                &&& TableWrite::takes(mid, batch, post, Ok(step))
            };
        lemma_next_batch(pre, mid);
        lemma_first_batch(pre.queue());
        lemma_takes(mid, batch, post, step);
    }
}

proof fn lemma_collects(pre: TableWrite, post: TableWrite, step: Step)
    requires
        TableWrite::collects(pre, post, Ok(step)),
    ensures
        rows_held(post) + rows_committed(step) == rows_aside(pre),
{
}

proof fn lemma_commit_goes_on(
    pre: TableWrite,
    before: BucketWriter,
    event: Event,
    entry: PartitionWriter,
    action: Action,
    post: TableWrite,
    step: Step,
)
    requires
        before.wf(),
        BucketWriter::resumes(before, event, entry.writer, Ok::<Action, Error>(action)) || (
        before.idle() && BucketWriter::commits(before, entry.writer, Ok::<Action, Error>(action))),
        TableWrite::commit_goes_on(pre, entry, Ok(action), post, Ok(step)),
    ensures
        rows_held(post) + rows_committed(step) == rows_aside(pre) + before.rows(),
{
    match action {
        Action::Files { files } => {
            law_bucket_commit_leaves_nothing(before, event, entry.writer, files);
            let mid = choose|mid: TableWrite|
                {
                    &&& #[trigger] pre.adds_message(entry, files, mid)
                    &&& TableWrite::collects(mid, post, Ok(step))
                };
            lemma_collects(mid, post, step);
        },
        _ => {
            if BucketWriter::resumes(before, event, entry.writer, Ok::<Action, Error>(action)) {
                law_bucket_resume_keeps_rows(before, event, entry.writer, action);
            } else {
                law_bucket_commit_keeps_rows(before, entry.writer, action);
            }
        },
    }
}

/// Writing a batch adds its rows, and no other rows come or go.
pub proof fn law_write_keeps_rows(
    pre: TableWrite,
    batch: RecordBatch,
    post: TableWrite,
    step: Step,
)
    requires
        pre.wf(),
        pre.task is Idle,
        TableWrite::takes(pre, batch, post, Ok(step)),
    ensures
        rows_held(post) + rows_committed(step) == rows_held(pre) + batch_rows(batch),
{
    lemma_takes(pre, batch, post, step);
}

/// Writing several batches adds their rows, and no other rows come or go.
pub proof fn law_write_all_keeps_rows(
    pre: TableWrite,
    batches: Seq<RecordBatch>,
    post: TableWrite,
    step: Step,
)
    requires
        pre.wf(),
        pre.task is Idle,
        TableWrite::queues(pre, batches, post, Ok(step)),
    ensures
        rows_held(post) + rows_committed(step) == rows_held(pre) + total_rows(batches),
{
    assert(total_rows(pre.queue()) == 0);
    assert(post.queue() =~= batches);
}

proof fn lemma_drains(pre: TableWrite, post: TableWrite, step: Step)
    requires
        pre.ready_to_commit(Seq::empty()),
        TableWrite::drains(pre, post, Ok(step)),
    ensures
        rows_held(post) + rows_committed(step) == rows_aside(pre),
{
    if pre.drained@.len() == 0 {
        lemma_collects(pre, post, step);
    } else {
        let entry = pre.drained@[0];
        let (mid, writer, result) = choose|
            mid: TableWrite,
            writer: BucketWriter,
            result: Result<Action, Error>,
        |
            {
                &&& #[trigger] pre.drops_drained(mid)
                &&& #[trigger] BucketWriter::commits(entry.writer, writer, result)
                &&& TableWrite::commit_goes_on(
                    mid,
                    PartitionWriter { writer, ..entry },
                    result,
                    post,
                    Ok(step),
                )
            };
        lemma_first_writer(pre.drained@);
        lemma_commit_goes_on(
            mid,
            entry.writer,
            Event::Done,
            PartitionWriter { writer, ..entry },
            result->Ok_0,
            post,
            step,
        );
    }
}

/// No answer that a write accepts makes rows come or go: what leaves the write stands in the
/// files of the messages that it hands over.
pub proof fn law_resume_keeps_rows(pre: TableWrite, event: Event, post: TableWrite, step: Step)
    requires
        pre.wf(),
        TableWrite::resumes(pre, event, post, Ok(step)),
    ensures
        rows_held(post) + rows_committed(step) == rows_held(pre),
{
    let free = TableWrite { task: Task::Idle, ..pre };
    match (pre.task, event) {
        (Task::Writing { index }, _) => {
            let before = pre.partition_writers@[index as int].writer;
            let (writer, result) = choose|writer: BucketWriter, result: Result<Action, Error>|
                {
                    &&& #[trigger] BucketWriter::resumes(before, event, writer, result)
                    &&& TableWrite::write_goes_on(
                        pre,
                        index as int,
                        writer,
                        result,
                        post,
                        Ok(step),
                    )
                };
            let action = result->Ok_0;
            lemma_resume_phases(before, event, writer, action);
            law_bucket_resume_keeps_rows(before, event, writer, action);
            lemma_write_goes_on(pre, index as int, writer, action, post, step);
        },
        (Task::Closing { entry }, _) => {
            let (writer, result) = choose|writer: BucketWriter, result: Result<Action, Error>|
                {
                    &&& #[trigger] BucketWriter::resumes(entry.writer, event, writer, result)
                    &&& TableWrite::commit_goes_on(
                        free,
                        PartitionWriter { writer, ..entry },
                        result,
                        post,
                        Ok(step),
                    )
                };
            lemma_commit_goes_on(
                free,
                entry.writer,
                event,
                PartitionWriter { writer, ..entry },
                result->Ok_0,
                post,
                step,
            );
        },
        (_, Event::Failed { error }) => {},
        (Task::Between, Event::Done) => {
            lemma_advances(free, post, step);
        },
        (Task::Resolving { part }, Event::PartitionPath { path }) => {
            lemma_writes_new(free, path@, part, post, step);
        },
        (Task::Draining, Event::Done) => {
            lemma_drains(free, post, step);
        },
        _ => {},
    }
}

pub proof fn lemma_drains_all_ready(pre: TableWrite, mid: TableWrite)
    requires
        pre.wf(),
        pre.task is Idle,
        pre.drains_all(mid),
    ensures
        mid.ready_to_commit(Seq::empty()),
{
    assert(message_places(mid.messages@) + Seq::<Route>::empty() + writer_places(
        mid.drained@,
    ) =~= writer_places(pre.partition_writers@));
}

/// The start of a commit makes no rows come or go.
pub proof fn law_commit_keeps_rows(pre: TableWrite, post: TableWrite, step: Step)
    requires
        pre.wf(),
        pre.task is Idle,
        TableWrite::commits(pre, post, Ok(step)),
    ensures
        rows_held(post) + rows_committed(step) == rows_held(pre),
{
    let mid = choose|mid: TableWrite|
        {
            &&& #[trigger] pre.drains_all(mid)
            &&& TableWrite::drains(mid, post, Ok(step))
        };
    lemma_drains_all_ready(pre, mid);
    lemma_drains(mid, post, step);
}

/// A commit hands everything over: its messages count every row that was written, and the write
/// is left without rows or writers, as a new one.
pub proof fn law_commit_is_complete(
    pre: TableWrite,
    event: Event,
    post: TableWrite,
    messages: Vec<CommitMessage>,
)
    requires
        pre.wf(),
        post.wf(),
        TableWrite::resumes(pre, event, post, Ok(Step::Committed { messages })) || (
        pre.task is Idle && TableWrite::commits(pre, post, Ok(Step::Committed { messages }))),
    ensures
        rows_in_messages(messages@) == rows_held(pre),
        rows_held(post) == 0,
        post.partition_writers@.len() == 0,
        post.task is Idle,
{
    let step = Step::Committed { messages };
    if TableWrite::resumes(pre, event, post, Ok(step)) {
        law_resume_keeps_rows(pre, event, post, step);
    } else {
        law_commit_keeps_rows(pre, post, step);
    }
    assert(post.queues_empty() && post.commit_empty());
}

proof fn lemma_prefix_distinct(a: Seq<Route>, b: Seq<Route>)
    requires
        (a + b).no_duplicates(),
    ensures
        a.no_duplicates(),
{
    assert forall|i: int, j: int| 0 <= i < a.len() && 0 <= j < a.len() && i != j implies a[i]
        != a[j] by {
        assert((a + b)[i] == a[i] && (a + b)[j] == a[j]);
    }
}

proof fn lemma_last_message(
    pre: TableWrite,
    entry: PartitionWriter,
    action: Action,
    post: TableWrite,
    messages: Vec<CommitMessage>,
)
    requires
        pre.ready_to_commit(seq![entry.place()]),
        TableWrite::commit_goes_on(
            pre,
            entry,
            Ok(action),
            post,
            Ok(Step::Committed { messages }),
        ),
    ensures
        message_places(messages@).no_duplicates(),
        forall|i: int|
            0 <= i < messages@.len() ==> (#[trigger] messages@[i]).new_files@.len() > 0,
{
    let files = action->files;
    let mid = choose|mid: TableWrite|
        {
            &&& #[trigger] pre.adds_message(entry, files, mid)
            &&& TableWrite::collects(mid, post, Ok(Step::Committed { messages }))
        };
    let before = message_places(pre.messages@);
    lemma_prefix_distinct(before + seq![entry.place()], writer_places(pre.drained@));
    if files@.len() == 0 {
        lemma_prefix_distinct(before, seq![entry.place()]);
    } else {
        assert(message_places(messages@) =~= before + seq![entry.place()]) by {
            assert forall|i: int| 0 <= i < before.len() implies #[trigger] message_places(
                messages@,
            )[i] == before[i] by {
                assert(messages@[i] == messages@.drop_last()[i]);
            }
        }
        assert forall|i: int| 0 <= i < messages@.len() implies (
        #[trigger] messages@[i]).new_files@.len() > 0 by {
            if i < pre.messages@.len() {
                assert(messages@.drop_last()[i] == pre.messages@[i]);
            }
        }
    }
}

proof fn lemma_drained_messages(
    pre: TableWrite,
    post: TableWrite,
    messages: Vec<CommitMessage>,
)
    requires
        pre.ready_to_commit(Seq::empty()),
        TableWrite::drains(pre, post, Ok(Step::Committed { messages })),
    ensures
        message_places(messages@).no_duplicates(),
        forall|i: int|
            0 <= i < messages@.len() ==> (#[trigger] messages@[i]).new_files@.len() > 0,
{
    let places = message_places(pre.messages@) + Seq::<Route>::empty() + writer_places(
        pre.drained@,
    );
    if pre.drained@.len() == 0 {
        assert(places =~= message_places(pre.messages@));
    } else {
        let step = Step::Committed { messages };
        let entry = pre.drained@[0];
        let (mid, writer, result) = choose|
            mid: TableWrite,
            writer: BucketWriter,
            result: Result<Action, Error>,
        |
            {
                &&& #[trigger] pre.drops_drained(mid)
                &&& #[trigger] BucketWriter::commits(entry.writer, writer, result)
                &&& TableWrite::commit_goes_on(
                    mid,
                    PartitionWriter { writer, ..entry },
                    result,
                    post,
                    Ok(step),
                )
            };
        let closing = PartitionWriter { writer, ..entry };
        assert(message_places(mid.messages@) + seq![closing.place()] + writer_places(mid.drained@)
            =~= places);
        lemma_last_message(mid, closing, result->Ok_0, post, messages);
    }
}

/// A commit has at most one message for each place, and none without files.
pub proof fn law_one_message_for_a_place(
    pre: TableWrite,
    event: Event,
    post: TableWrite,
    messages: Vec<CommitMessage>,
)
    requires
        pre.wf(),
        TableWrite::resumes(pre, event, post, Ok(Step::Committed { messages })) || (
        pre.task is Idle && TableWrite::commits(pre, post, Ok(Step::Committed { messages }))),
    ensures
        message_places(messages@).no_duplicates(),
        forall|i: int|
            0 <= i < messages@.len() ==> (#[trigger] messages@[i]).new_files@.len() > 0,
{
    let step = Step::Committed { messages };
    if TableWrite::resumes(pre, event, post, Ok(step)) {
        let free = TableWrite { task: Task::Idle, ..pre };
        match (pre.task, event) {
            (Task::Closing { entry }, _) => {
                let (writer, result) = choose|writer: BucketWriter, result: Result<Action, Error>|
                    {
                        &&& #[trigger] BucketWriter::resumes(entry.writer, event, writer, result)
                        &&& TableWrite::commit_goes_on(
                            free,
                            PartitionWriter { writer, ..entry },
                            result,
                            post,
                            Ok(step),
                        )
                    };
                lemma_last_message(
                    free,
                    PartitionWriter { writer, ..entry },
                    result->Ok_0,
                    post,
                    messages,
                );
            },
            (Task::Draining, Event::Done) => {
                assert(pre.commit_places() == message_places(free.messages@) + Seq::<Route>::empty()
                    + writer_places(free.drained@));
                lemma_drained_messages(free, post, messages);
            },
            (Task::Between, Event::Done) => {},
            _ => {},
        }
    } else {
        let mid = choose|mid: TableWrite|
            {
                &&& #[trigger] pre.drains_all(mid)
                &&& TableWrite::drains(mid, post, Ok(step))
            };
        lemma_drains_all_ready(pre, mid);
        lemma_drained_messages(mid, post, messages);
    }
}

/// A commit without writers is over at once and has no messages.
pub proof fn law_empty_commit(pre: TableWrite, post: TableWrite, r: Result<Step, Error>)
    requires
        pre.wf(),
        pre.task is Idle,
        pre.partition_writers@.len() == 0,
        TableWrite::commits(pre, post, r),
    ensures
        r matches Ok(Step::Committed { messages }) && messages@.len() == 0,
{
}

} // verus!
