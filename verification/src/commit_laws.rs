//! What a commit says of each place: its rows, all of them, in one message, and no message where
//! there are none.

use crate::arrow::{batch_columns, batch_rows, RecordBatch};
use crate::binary_row::{RowCell, MAX_ARITY};
use crate::bucket_writer::{
    law_bucket_commit_keeps_rows, law_bucket_commit_leaves_nothing, law_bucket_resume_keeps_rows,
    law_bucket_write_keeps_rows, BucketWriter,
};
use crate::error::Error;
use crate::meta::{rows_in_files, CommitMessage};
use crate::protocol::{Action, Event, Step};
use crate::route::{Route, RoutedBatch, Router};
use crate::route_laws::{law_every_row_in_one_place, lemma_no_rows_elsewhere};
use crate::schema::Table;
use crate::table_laws::{
    lemma_drains_all_ready, lemma_resume_phases, lemma_starts, lemma_write_phases,
};
use crate::table_write::{lemma_next_batch, writer_places, PartitionWriter, TableWrite, Task};
use vstd::prelude::*;

verus! {

/// The rows of a batch that go to the place.
pub open spec fn batch_rows_at(router: Router, batch: RecordBatch, place: Route) -> int {
    router.rows_of(batch_columns(batch), batch_rows(batch), place).len() as int
}

/// The rows of the batches that go to the place.
pub open spec fn queued_rows_at(router: Router, batches: Seq<RecordBatch>, place: Route) -> int
    decreases batches.len(),
{
    if batches.len() == 0 {
        0
    } else {
        queued_rows_at(router, batches.drop_last(), place) + batch_rows_at(
            router,
            batches.last(),
            place,
        )
    }
}

/// The rows of a part, if it goes to the place.
pub open spec fn part_rows_at(part: RoutedBatch, place: Route) -> int {
    if part.place() == place {
        batch_rows(part.batch) as int
    } else {
        0
    }
}

/// The rows of the parts that go to the place.
pub open spec fn routed_rows_at(parts: Seq<RoutedBatch>, place: Route) -> int
    decreases parts.len(),
{
    if parts.len() == 0 {
        0
    } else {
        routed_rows_at(parts.drop_last(), place) + part_rows_at(parts.last(), place)
    }
}

/// The rows that a writer holds, if it is that of the place.
pub open spec fn entry_rows_at(entry: PartitionWriter, place: Route) -> int {
    if entry.place() == place {
        entry.writer.rows()
    } else {
        0
    }
}

/// The rows that the writers of the place hold.
pub open spec fn writer_rows_at(writers: Seq<PartitionWriter>, place: Route) -> int
    decreases writers.len(),
{
    if writers.len() == 0 {
        0
    } else {
        writer_rows_at(writers.drop_last(), place) + entry_rows_at(writers.last(), place)
    }
}

/// The place of a message.
pub open spec fn message_place(message: CommitMessage) -> Route {
    Route { partition: message.partition@, bucket: message.bucket as int }
}

/// The rows of the messages of the place.
pub open spec fn message_rows_at(messages: Seq<CommitMessage>, place: Route) -> int
    decreases messages.len(),
{
    if messages.len() == 0 {
        0
    } else {
        message_rows_at(messages.drop_last(), place) + if message_place(messages.last()) == place {
            rows_in_files(messages.last().new_files@)
        } else {
            0
        }
    }
}

/// The rows of the place that a write holds beside those of its task.
pub open spec fn rows_aside_at(write: TableWrite, place: Route) -> int {
    writer_rows_at(write.partition_writers@, place) + queued_rows_at(
        write.router,
        write.queue(),
        place,
    ) + routed_rows_at(write.parts@, place) + writer_rows_at(write.drained@, place)
        + message_rows_at(write.messages@, place)
}

/// The rows of the place that a task holds.
pub open spec fn task_rows_at(task: Task, place: Route) -> int {
    match task {
        Task::Resolving { part } => part_rows_at(part, place),
        Task::Closing { entry } => entry_rows_at(entry, place),
        _ => 0,
    }
}

/// The rows of the place that a write has taken and not handed over in messages.
pub open spec fn rows_held_at(write: TableWrite, place: Route) -> int {
    rows_aside_at(write, place) + task_rows_at(write.task, place)
}

/// The rows of the place in the messages that a step hands over.
pub open spec fn rows_committed_at(step: Step, place: Route) -> int {
    match step {
        Step::Committed { messages } => message_rows_at(messages@, place),
        _ => 0,
    }
}

proof fn lemma_update_writer(
    writers: Seq<PartitionWriter>,
    i: int,
    entry: PartitionWriter,
    place: Route,
)
    requires
        0 <= i < writers.len(),
    ensures
        writer_rows_at(writers.update(i, entry), place) == writer_rows_at(writers, place)
            - entry_rows_at(writers[i], place) + entry_rows_at(entry, place),
    decreases writers.len(),
{
    let after = writers.update(i, entry);
    if i == writers.len() - 1 {
        assert(after.drop_last() =~= writers.drop_last());
    } else {
        assert(after.drop_last() =~= writers.drop_last().update(i, entry));
        lemma_update_writer(writers.drop_last(), i, entry, place);
    }
}

proof fn lemma_first_writer(writers: Seq<PartitionWriter>, place: Route)
    requires
        writers.len() > 0,
    ensures
        writer_rows_at(writers, place) == entry_rows_at(writers[0], place) + writer_rows_at(
            writers.skip(1),
            place,
        ),
    decreases writers.len(),
{
    if writers.len() == 1 {
        assert(writers.drop_last() =~= Seq::<PartitionWriter>::empty());
        assert(writers.skip(1) =~= Seq::<PartitionWriter>::empty());
        assert(writer_rows_at(Seq::<PartitionWriter>::empty(), place) == 0);
    } else {
        lemma_first_writer(writers.drop_last(), place);
        assert(writers.skip(1).drop_last() =~= writers.drop_last().skip(1));
    }
}

proof fn lemma_first_part(parts: Seq<RoutedBatch>, place: Route)
    requires
        parts.len() > 0,
    ensures
        routed_rows_at(parts, place) == part_rows_at(parts[0], place) + routed_rows_at(
            parts.skip(1),
            place,
        ),
    decreases parts.len(),
{
    if parts.len() == 1 {
        assert(parts.drop_last() =~= Seq::<RoutedBatch>::empty());
        assert(parts.skip(1) =~= Seq::<RoutedBatch>::empty());
        assert(routed_rows_at(Seq::<RoutedBatch>::empty(), place) == 0);
    } else {
        lemma_first_part(parts.drop_last(), place);
        assert(parts.skip(1).drop_last() =~= parts.drop_last().skip(1));
    }
}

proof fn lemma_first_batch(router: Router, batches: Seq<RecordBatch>, place: Route)
    requires
        batches.len() > 0,
    ensures
        queued_rows_at(router, batches, place) == batch_rows_at(router, batches[0], place)
            + queued_rows_at(router, batches.skip(1), place),
    decreases batches.len(),
{
    if batches.len() == 1 {
        assert(batches.drop_last() =~= Seq::<RecordBatch>::empty());
        assert(batches.skip(1) =~= Seq::<RecordBatch>::empty());
        assert(queued_rows_at(router, Seq::<RecordBatch>::empty(), place) == 0);
    } else {
        lemma_first_batch(router, batches.drop_last(), place);
        assert(batches.skip(1).drop_last() =~= batches.drop_last().skip(1));
    }
}

proof fn lemma_all_rows_in_one_place(
    router: Router,
    batch: RecordBatch,
    n: nat,
    route: Route,
    place: Route,
)
    requires
        forall|row: int|
            0 <= row < n ==> #[trigger] router.route(batch_columns(batch), row) == route,
    ensures
        router.rows_of(batch_columns(batch), n, place).len() == if place == route {
            n
        } else {
            0
        },
    decreases n,
{
    if n > 0 {
        lemma_all_rows_in_one_place(router, batch, (n - 1) as nat, route, place);
        assert(router.route(batch_columns(batch), n - 1) == route);
    }
}

proof fn lemma_parts_up_to(
    router: Router,
    batch: RecordBatch,
    parts: Seq<RoutedBatch>,
    k: nat,
    place: Route,
)
    requires
        router.divides(batch, parts),
        k <= parts.len(),
    ensures
        routed_rows_at(parts.take(k as int), place) == if router.routes(
            batch_columns(batch),
            batch_rows(batch),
        ).take(k as int).contains(place) {
            batch_rows_at(router, batch, place)
        } else {
            0
        },
    decreases k,
{
    let routes = router.routes(batch_columns(batch), batch_rows(batch));
    if k > 0 {
        lemma_parts_up_to(router, batch, parts, (k - 1) as nat, place);
        router.lemma_routes_distinct(batch_columns(batch), batch_rows(batch));
        let before = routes.take(k - 1);
        let now = routes.take(k as int);
        assert(parts.take(k as int).drop_last() =~= parts.take(k - 1));
        assert(parts.take(k as int).last() == parts[k - 1]);
        assert(parts[k - 1].place() == routes[k - 1]);
        if before.contains(place) {
            let i = choose|i: int| 0 <= i < before.len() && before[i] == place;
            assert(now[i] == place);
            assert(routes[i] != routes[k - 1]);
        } else if now.contains(place) {
            let i = choose|i: int| 0 <= i < now.len() && now[i] == place;
            if i < k - 1 {
                assert(before[i] == place);
            }
        } else {
            assert(now[k - 1] == routes[k - 1]);
        }
    }
}

/// Dividing a batch puts into the parts of each place the rows that go there, all of them.
pub proof fn law_division_keeps_rows_of_each_place(
    router: Router,
    batch: RecordBatch,
    parts: Vec<RoutedBatch>,
    place: Route,
)
    requires
        router.division(batch, Ok::<Vec<RoutedBatch>, Error>(parts)),
    ensures
        routed_rows_at(parts@, place) == batch_rows_at(router, batch, place),
{
    let columns = batch_columns(batch);
    let n = batch_rows(batch);
    let routes = router.routes(columns, n);
    if router.is_single() || routes.len() == 1 {
        let route = parts@[0].place();
        assert forall|row: int| 0 <= row < n implies #[trigger] router.route(columns, row)
            == route by {
            if router.is_single() {
                assert(router.cells_at(columns, row, router.partition_field_indices@) =~= Seq::<
                    RowCell,
                >::empty());
            } else {
                law_every_row_in_one_place(router, columns, n, row, route);
            }
        }
        lemma_all_rows_in_one_place(router, batch, n, route, place);
        assert(parts@.drop_last() =~= Seq::<RoutedBatch>::empty());
        assert(routed_rows_at(Seq::<RoutedBatch>::empty(), place) == 0);
    } else if routes.len() == 0 {
        lemma_no_rows_elsewhere(router, columns, n, place);
    } else {
        lemma_parts_up_to(router, batch, parts@, parts@.len(), place);
        assert(parts@.take(parts@.len() as int) =~= parts@);
        assert(routes.take(parts@.len() as int) =~= routes);
        if !routes.contains(place) {
            lemma_no_rows_elsewhere(router, columns, n, place);
        }
    }
}

proof fn lemma_write_goes_on(
    pre: TableWrite,
    index: int,
    writer: BucketWriter,
    action: Action,
    post: TableWrite,
    step: Step,
    place: Route,
)
    requires
        0 <= index < pre.partition_writers@.len(),
        !(action is Files),
        TableWrite::write_goes_on(pre, index, writer, Ok(action), post, Ok(step)),
    ensures
        rows_held_at(post, place) + rows_committed_at(step, place) == rows_aside_at(pre, place)
            + if pre.partition_writers@[index].place() == place {
            writer.rows() - pre.partition_writers@[index].writer.rows()
        } else {
            0
        },
{
    lemma_update_writer(
        pre.partition_writers@,
        index,
        PartitionWriter { writer, ..pre.partition_writers@[index] },
        place,
    );
}

proof fn lemma_takes(
    pre: TableWrite,
    batch: RecordBatch,
    post: TableWrite,
    step: Step,
    place: Route,
)
    requires
        pre.parts@.len() == 0,
        TableWrite::takes(pre, batch, post, Ok(step)),
    ensures
        rows_held_at(post, place) + rows_committed_at(step, place) == rows_aside_at(pre, place)
            + batch_rows_at(pre.router, batch, place),
{
    if batch_rows(batch) > 0 {
        let division = choose|division: Result<Vec<RoutedBatch>, Error>|
            {
                &&& #[trigger] pre.router.division(batch, division)
                &&& match division {
                    Ok(parts) => TableWrite::rests(TableWrite { parts, ..pre }, post, step),
                    Err(error) => false,
                }
            };
        law_division_keeps_rows_of_each_place(pre.router, batch, division->Ok_0, place);
    }
}

proof fn lemma_writes_at(
    pre: TableWrite,
    index: int,
    batch: RecordBatch,
    post: TableWrite,
    step: Step,
    place: Route,
)
    requires
        0 <= index < pre.partition_writers@.len(),
        pre.partition_writers@[index].writer.wf(),
        pre.partition_writers@[index].writer.idle(),
        TableWrite::writes_at(pre, index, batch, post, Ok(step)),
    ensures
        rows_held_at(post, place) + rows_committed_at(step, place) == rows_aside_at(pre, place)
            + if pre.partition_writers@[index].place() == place {
            batch_rows(batch) as int
        } else {
            0
        },
{
    let before = pre.partition_writers@[index].writer;
    let (writer, result) = choose|writer: BucketWriter, result: Result<Action, Error>|
        {
            &&& #[trigger] BucketWriter::writes(before, batch, writer, result)
            &&& TableWrite::write_goes_on(pre, index, writer, result, post, Ok(step))
        };
    let action = result->Ok_0;
    lemma_write_phases(before, batch, writer, action);
    law_bucket_write_keeps_rows(before, batch, writer, action);
    lemma_write_goes_on(pre, index, writer, action, post, step, place);
}

proof fn lemma_writes_new(
    pre: TableWrite,
    path: Seq<char>,
    part: RoutedBatch,
    post: TableWrite,
    step: Step,
    place: Route,
)
    requires
        pre.settings.primary_key_indices@.len() <= MAX_ARITY,
        TableWrite::writes_new(pre, path, part, post, Ok(step)),
    ensures
        rows_held_at(post, place) + rows_committed_at(step, place) == rows_aside_at(pre, place)
            + part_rows_at(part, place),
{
    let count = pre.partition_writers@.len() as int;
    let mid = choose|mid: TableWrite|
        {
            &&& #[trigger] pre.adds_writer(path, part, mid)
            &&& TableWrite::writes_at(mid, count, part.batch, post, Ok(step))
        };
    lemma_starts(pre.settings, path, part.bucket, mid.partition_writers@.last().writer);
    assert(mid.partition_writers@[count].place() == part.place());
    lemma_writes_at(mid, count, part.batch, post, step, place);
}

proof fn lemma_advances(pre: TableWrite, post: TableWrite, step: Step, place: Route)
    requires
        pre.ready(),
        !pre.queues_empty(),
        TableWrite::advances(pre, post, Ok(step)),
    ensures
        rows_held_at(post, place) + rows_committed_at(step, place) == rows_aside_at(pre, place),
{
    if pre.parts@.len() > 0 {
        let part = pre.parts@[0];
        let mid = choose|mid: TableWrite|
            {
                &&& #[trigger] pre.drops_part(mid)
                &&& TableWrite::places(mid, part, post, Ok(step))
            };
        lemma_first_part(pre.parts@, place);
        if writer_places(mid.partition_writers@).contains(part.place()) {
            let i = choose|i: int|
                {
                    &&& 0 <= i < mid.partition_writers@.len()
                    &&& (#[trigger] mid.partition_writers@[i]).place() == part.place()
                    &&& TableWrite::writes_at(mid, i, part.batch, post, Ok(step))
                };
            lemma_writes_at(mid, i, part.batch, post, step, place);
        } else if mid.settings.partition_keys@.len() == 0 {
            lemma_writes_new(mid, Seq::empty(), part, post, step, place);
        }
    } else {
        let batch = pre.queue()[0];
        let mid = choose|mid: TableWrite|
            {
                &&& #[trigger] pre.drops_batch(mid)
                &&& TableWrite::takes(mid, batch, post, Ok(step))
            };
        lemma_next_batch(pre, mid);
        lemma_first_batch(pre.router, pre.queue(), place);
        lemma_takes(mid, batch, post, step, place);
    }
}

proof fn lemma_collects(pre: TableWrite, post: TableWrite, step: Step, place: Route)
    requires
        TableWrite::collects(pre, post, Ok(step)),
    ensures
        rows_held_at(post, place) + rows_committed_at(step, place) == rows_aside_at(pre, place),
{
}

proof fn lemma_commit_goes_on(
    pre: TableWrite,
    before: BucketWriter,
    event: Event,
    entry: PartitionWriter,
    action: Action,
    post: TableWrite,
    step: Step,
    place: Route,
)
    requires
        before.wf(),
        BucketWriter::resumes(before, event, entry.writer, Ok::<Action, Error>(action)) || (
        before.idle() && BucketWriter::commits(before, entry.writer, Ok::<Action, Error>(action))),
        TableWrite::commit_goes_on(pre, entry, Ok(action), post, Ok(step)),
    ensures
        rows_held_at(post, place) + rows_committed_at(step, place) == rows_aside_at(pre, place)
            + if entry.place() == place {
            before.rows()
        } else {
            0
        },
{
    match action {
        Action::Files { files } => {
            law_bucket_commit_leaves_nothing(before, event, entry.writer, files);
            let mid = choose|mid: TableWrite|
                {
                    &&& #[trigger] pre.adds_message(entry, files, mid)
                    &&& TableWrite::collects(mid, post, Ok(step))
                };
            lemma_collects(mid, post, step, place);
        },
        _ => {
            if BucketWriter::resumes(before, event, entry.writer, Ok::<Action, Error>(action)) {
                law_bucket_resume_keeps_rows(before, event, entry.writer, action);
            } else {
                law_bucket_commit_keeps_rows(before, entry.writer, action);
            }
        },
    }
}

proof fn lemma_drains(pre: TableWrite, post: TableWrite, step: Step, place: Route)
    requires
        pre.ready_to_commit(Seq::empty()),
        TableWrite::drains(pre, post, Ok(step)),
    ensures
        rows_held_at(post, place) + rows_committed_at(step, place) == rows_aside_at(pre, place),
{
    if pre.drained@.len() == 0 {
        lemma_collects(pre, post, step, place);
    } else {
        let entry = pre.drained@[0];
        let (mid, writer, result) = choose|
            mid: TableWrite,
            writer: BucketWriter,
            result: Result<Action, Error>,
        |
            {
                &&& #[trigger] pre.drops_drained(mid)
                &&& #[trigger] BucketWriter::commits(entry.writer, writer, result)
                &&& TableWrite::commit_goes_on(
                    mid,
                    PartitionWriter { writer, ..entry },
                    result,
                    post,
                    Ok(step),
                )
            };
        lemma_first_writer(pre.drained@, place);
        lemma_commit_goes_on(
            mid,
            entry.writer,
            Event::Done,
            PartitionWriter { writer, ..entry },
            result->Ok_0,
            post,
            step,
            place,
        );
    }
}

/// A new write holds no rows of any place.
pub proof fn law_new_write_holds_nothing(
    write: TableWrite,
    table: Table,
    next_sequence_number: i64,
    place: Route,
)
    requires
        write.wf(),
        write.writes_to(table, next_sequence_number),
    ensures
        rows_held_at(write, place) == 0,
{
}

/// Writing a batch adds to each place the rows of the batch that go there.
pub proof fn law_write_adds_rows_to_each_place(
    pre: TableWrite,
    batch: RecordBatch,
    post: TableWrite,
    step: Step,
    place: Route,
)
    requires
        pre.wf(),
        pre.task is Idle,
        TableWrite::takes(pre, batch, post, Ok(step)),
    ensures
        rows_held_at(post, place) == rows_held_at(pre, place) + batch_rows_at(
            pre.router,
            batch,
            place,
        ),
{
    lemma_takes(pre, batch, post, step, place);
}

/// Writing several batches adds to each place the rows of the batches that go there.
pub proof fn law_write_all_adds_rows_to_each_place(
    pre: TableWrite,
    batches: Seq<RecordBatch>,
    post: TableWrite,
    step: Step,
    place: Route,
)
    requires
        pre.wf(),
        pre.task is Idle,
        TableWrite::queues(pre, batches, post, Ok(step)),
    ensures
        rows_held_at(post, place) == rows_held_at(pre, place) + queued_rows_at(
            pre.router,
            batches,
            place,
        ),
{
    assert(queued_rows_at(pre.router, pre.queue(), place) == 0);
    assert(post.queue() =~= batches);
}

/// No answer that a write accepts moves a row to another place.
pub proof fn law_resume_keeps_rows_of_each_place(
    pre: TableWrite,
    event: Event,
    post: TableWrite,
    step: Step,
    place: Route,
)
    requires
        pre.wf(),
        TableWrite::resumes(pre, event, post, Ok(step)),
    ensures
        rows_held_at(post, place) + rows_committed_at(step, place) == rows_held_at(pre, place),
{
    let free = TableWrite { task: Task::Idle, ..pre };
    match (pre.task, event) {
        (Task::Writing { index }, _) => {
            let before = pre.partition_writers@[index as int].writer;
            let (writer, result) = choose|writer: BucketWriter, result: Result<Action, Error>|
                {
                    &&& #[trigger] BucketWriter::resumes(before, event, writer, result)
                    &&& TableWrite::write_goes_on(
                        pre,
                        index as int,
                        writer,
                        result,
                        post,
                        Ok(step),
                    )
                };
            let action = result->Ok_0;
            lemma_resume_phases(before, event, writer, action);
            law_bucket_resume_keeps_rows(before, event, writer, action);
            lemma_write_goes_on(pre, index as int, writer, action, post, step, place);
        },
        (Task::Closing { entry }, _) => {
            let (writer, result) = choose|writer: BucketWriter, result: Result<Action, Error>|
                {
                    &&& #[trigger] BucketWriter::resumes(entry.writer, event, writer, result)
                    &&& TableWrite::commit_goes_on(
                        free,
                        PartitionWriter { writer, ..entry },
                        result,
                        post,
                        Ok(step),
                    )
                };
            lemma_commit_goes_on(
                free,
                entry.writer,
                event,
                PartitionWriter { writer, ..entry },
                result->Ok_0,
                post,
                step,
                place,
            );
        },
        (_, Event::Failed { error }) => {},
        (Task::Between, Event::Done) => {
            lemma_advances(free, post, step, place);
        },
        (Task::Resolving { part }, Event::PartitionPath { path }) => {
            lemma_writes_new(free, path@, part, post, step, place);
        },
        (Task::Draining, Event::Done) => {
            lemma_drains(free, post, step, place);
        },
        _ => {},
    }
}

/// The start of a commit moves no row to another place.
pub proof fn law_commit_keeps_rows_of_each_place(
    pre: TableWrite,
    post: TableWrite,
    step: Step,
    place: Route,
)
    requires
        pre.wf(),
        pre.task is Idle,
        TableWrite::commits(pre, post, Ok(step)),
    ensures
        rows_held_at(post, place) + rows_committed_at(step, place) == rows_held_at(pre, place),
{
    let mid = choose|mid: TableWrite|
        {
            &&& #[trigger] pre.drains_all(mid)
            &&& TableWrite::drains(mid, post, Ok(step))
        };
    lemma_drains_all_ready(pre, mid);
    lemma_drains(mid, post, step, place);
}

} // verus!
