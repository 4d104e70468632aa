//! How a table write goes on: which writer an answer goes to, and what comes next.

use crate::bucket_writer::BucketWriter;
use crate::error::Error;
use crate::protocol::{Action, Event, Step};
use crate::table_write::{PartitionWriter, TableWrite, Task};
use vstd::prelude::*;

verus! {

/// While a part is written, an answer goes to the writer that takes it, and no other writer
/// changes. What that writer asks for next is asked for in the name of its partition and bucket;
/// where it is done, the write is done too if nothing waits, and goes on otherwise.
pub proof fn law_answer_goes_to_the_writer(
    pre: TableWrite,
    event: Event,
    post: TableWrite,
    r: Result<Step, Error>,
) -> (result: Result<Action, Error>)
    requires
        pre.wf(),
        pre.task is Writing,
        TableWrite::resumes(pre, event, post, r),
    ensures
        ({
            let i = pre.task->index as int;
            let entry = pre.partition_writers@[i];
            let waiting = pre.parts@.len() > 0 || pre.next_batch < pre.batches@.len();
            &&& post.partition_writers@.len() == pre.partition_writers@.len()
            &&& forall|j: int|
                0 <= j < pre.partition_writers@.len() && j != i ==> #[trigger]
                post.partition_writers@[j] == pre.partition_writers@[j]
            &&& post.partition_writers@[i].partition@ == entry.partition@
            &&& post.partition_writers@[i].bucket == entry.bucket
            &&& BucketWriter::resumes(
                entry.writer,
                event,
                post.partition_writers@[i].writer,
                result,
            )
            &&& match result {
                Err(error) => r == Err::<Step, Error>(error),
                Ok(action) => if action is Done {
                    &&& waiting ==> r == Ok::<Step, Error>(Step::Proceed) && post.task is Between
                    &&& !waiting ==> r == Ok::<Step, Error>(Step::Done) && post.task is Idle
                    &&& post.parts@ == pre.parts@
                } else {
                    &&& r matches Ok(Step::Bucket { partition, bucket, action: asked })
                    &&& partition@ == entry.partition@
                    &&& bucket == entry.bucket
                    &&& asked == action
                    &&& post.task == pre.task
                    &&& post.parts@ == pre.parts@
                },
            }
        }),
{
    let i = pre.task->index as int;
    let (writer, result) = choose|writer: BucketWriter, result: Result<Action, Error>|
        {
            &&& #[trigger] BucketWriter::resumes(
                pre.partition_writers@[i].writer,
                event,
                writer,
                result,
            )
            &&& TableWrite::write_goes_on(pre, i, writer, result, post, r)
        };
    result
}

/// During a commit, an answer goes to the writer that is being committed. What that writer asks
/// for next is asked for in the name of its partition and bucket.
pub proof fn law_answer_goes_to_the_committed_writer(
    pre: TableWrite,
    event: Event,
    post: TableWrite,
    r: Result<Step, Error>,
) -> (answer: (BucketWriter, Result<Action, Error>))
    requires
        pre.task is Closing,
        TableWrite::resumes(pre, event, post, r),
    ensures
        ({
            let entry = pre.task->entry;
            let (writer, result) = answer;
            &&& BucketWriter::resumes(entry.writer, event, writer, result)
            &&& match result {
                Err(error) => r == Err::<Step, Error>(error),
                Ok(Action::Files { .. }) => {
                    &&& r is Ok
                    &&& r->Ok_0 is Committed <==> pre.drained@.len() == 0
                    &&& post.drained == pre.drained
                },
                Ok(action) => {
                    &&& r matches Ok(Step::Bucket { partition, bucket, action: asked })
                    &&& partition@ == entry.partition@
                    &&& bucket == entry.bucket
                    &&& asked == action
                    &&& post.task == (Task::Closing { entry: PartitionWriter { writer, ..entry } })
                    &&& post.messages == pre.messages
                    &&& post.drained == pre.drained
                },
            }
        }),
{
    let entry = pre.task->entry;
    let free = TableWrite { task: Task::Idle, ..pre };
    choose|writer: BucketWriter, result: Result<Action, Error>|
        {
            &&& #[trigger] BucketWriter::resumes(entry.writer, event, writer, result)
            &&& TableWrite::commit_goes_on(
                free,
                PartitionWriter { writer, ..entry },
                result,
                post,
                r,
            )
        }
}

/// A write that goes on takes the first part that waits to the writer of its place; without parts
/// it divides the first batch that waits. The other parts and batches stay.
pub proof fn law_next_part_or_batch(
    pre: TableWrite,
    post: TableWrite,
    r: Result<Step, Error>,
) -> (mid: TableWrite)
    requires
        pre.wf(),
        pre.task is Between,
        TableWrite::resumes(pre, Event::Done, post, r),
    ensures
        mid.partition_writers == pre.partition_writers,
        mid.settings == pre.settings,
        mid.router == pre.router,
        pre.parts@.len() > 0 ==> {
            &&& mid.parts@ == pre.parts@.skip(1)
            &&& mid.batches@ == pre.batches@
            &&& mid.next_batch == pre.next_batch
            &&& TableWrite::places(mid, pre.parts@[0], post, r)
        },
        pre.parts@.len() == 0 ==> {
            &&& pre.next_batch < pre.batches@.len()
            &&& mid.batches@ == pre.batches@
            &&& mid.next_batch == pre.next_batch + 1
            &&& TableWrite::takes(mid, pre.batches@[pre.next_batch as int], post, r)
        },
{
    let free = TableWrite { task: Task::Idle, ..pre };
    if pre.parts@.len() > 0 {
        choose|mid: TableWrite|
            {
                &&& #[trigger] free.drops_part(mid)
                &&& TableWrite::places(mid, free.parts@[0], post, r)
            }
    } else {
        let mid = choose|mid: TableWrite|
            {
                &&& #[trigger] free.drops_batch(mid)
                &&& TableWrite::takes(mid, free.queue()[0], post, r)
            };
        assert(free.queue()[0] == pre.batches@[pre.next_batch as int]);
        mid
    }
}

/// A commit goes through the writers in order: the first of those that wait is committed next.
pub proof fn law_next_writer_is_committed(
    pre: TableWrite,
    post: TableWrite,
    r: Result<Step, Error>,
) -> (answer: (BucketWriter, Result<Action, Error>))
    requires
        pre.wf(),
        pre.task is Idle,
        pre.partition_writers@.len() > 0,
        TableWrite::commits(pre, post, r),
    ensures
        ({
            let entry = pre.partition_writers@[0];
            let (writer, result) = answer;
            &&& BucketWriter::commits(entry.writer, writer, result)
            &&& post.partition_writers@.len() == 0
            &&& match result {
                Err(error) => r == Err::<Step, Error>(error),
                Ok(Action::Files { .. }) => {
                    &&& r is Ok
                    &&& r->Ok_0 is Committed <==> pre.partition_writers@.len() == 1
                    &&& post.drained@ == pre.partition_writers@.skip(1)
                },
                Ok(action) => {
                    &&& r matches Ok(Step::Bucket { partition, bucket, action: asked })
                    &&& partition@ == entry.partition@
                    &&& bucket == entry.bucket
                    &&& asked == action
                    &&& post.drained@ == pre.partition_writers@.skip(1)
                },
            }
        }),
{
    let all = choose|mid: TableWrite|
        {
            &&& #[trigger] pre.drains_all(mid)
            &&& TableWrite::drains(mid, post, r)
        };
    let entry = all.drained@[0];
    let (mid, writer, result) = choose|
        mid: TableWrite,
        writer: BucketWriter,
        result: Result<Action, Error>,
    |
        {
            &&& #[trigger] all.drops_drained(mid)
            &&& #[trigger] BucketWriter::commits(entry.writer, writer, result)
            &&& TableWrite::commit_goes_on(
                mid,
                PartitionWriter { writer, ..entry },
                result,
                post,
                r,
            )
        };
    (writer, result)
}

} // verus!
