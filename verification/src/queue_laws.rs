//! What writing several batches comes to: the same as writing them one after the other.

use crate::arrow::RecordBatch;
use crate::bucket_writer::BucketWriter;
use crate::error::Error;
use crate::protocol::{Action, Event, Step};
use crate::route::RoutedBatch;
use crate::table_write::{lemma_next_batch, writer_places, TableWrite, Task};
use vstd::prelude::*;

verus! {

/// How a write goes: its states, what brought it from each to the next, and what it answered on
/// the way to each.
pub struct Run {
    pub states: Seq<TableWrite>,
    pub events: Seq<Event>,
    pub results: Seq<Result<Step, Error>>,
}

impl Run {
    /// Whether the `i`-th event brings the write, which is not over, to the next state.
    pub open spec fn step(self, i: int) -> bool {
        &&& !(self.states[i].task is Idle)
        &&& TableWrite::resumes(
            self.states[i],
            self.events[i],
            self.states[i + 1],
            self.results[i + 1],
        )
    }

    /// Whether each event brings the write from one state to the next.
    pub open spec fn goes_on(self) -> bool {
        &&& self.states.len() == self.events.len() + 1
        &&& self.results.len() == self.events.len() + 1
        &&& forall|i: int| 0 <= i < self.states.len() ==> (#[trigger] self.states[i]).wf()
        &&& forall|i: int| 0 <= i < self.events.len() ==> #[trigger] self.step(i)
    }

    /// Whether the write is over.
    pub open spec fn is_over(self) -> bool {
        self.states.last().task is Idle
    }

    /// What is left of the run from its `k`-th state on.
    pub open spec fn from(self, k: int) -> Run {
        Run {
            states: self.states.skip(k),
            events: self.events.skip(k),
            results: self.results.skip(k),
        }
    }

    /// The run that begins with a state, and comes from it to this one.
    pub open spec fn after(self, state: TableWrite, event: Event, r: Result<Step, Error>) -> Run {
        Run {
            states: seq![state] + self.states,
            events: seq![event] + self.events,
            results: seq![r] + self.results,
        }
    }
}

/// Whether a run is one of a write of the batches.
pub open spec fn writes_all(pre: TableWrite, batches: Seq<RecordBatch>, run: Run) -> bool {
    run.goes_on() && TableWrite::queues(pre, batches, run.states[0], run.results[0])
}

/// Whether a run is one of a write of one batch.
pub open spec fn writes_one(pre: TableWrite, batch: RecordBatch, run: Run) -> bool {
    run.goes_on() && TableWrite::takes(pre, batch, run.states[0], run.results[0])
}

/// Whether two states hold the same.
pub open spec fn same_state(x: TableWrite, y: TableWrite) -> bool {
    y.batches@ == x.batches@ && y == (TableWrite { batches: y.batches, ..x })
}

/// Whether the states are the same but for their tasks and for what waits at the end: the batches
/// `mx` there and `my` here, both behind `q`.
pub open spec fn pairs(
    x: TableWrite,
    y: TableWrite,
    q: Seq<RecordBatch>,
    mx: Seq<RecordBatch>,
    my: Seq<RecordBatch>,
) -> bool {
    &&& x.next_batch <= x.batches@.len()
    &&& y.next_batch <= y.batches@.len()
    &&& x.queue() == q + mx
    &&& y.queue() == q + my
    &&& y == (TableWrite {
        batches: y.batches,
        next_batch: y.next_batch,
        task: y.task,
        ..x
    })
}

/// Whether a write has come to rest: it is over, or goes on with the next part or batch.
pub open spec fn rested(state: TableWrite, r: Result<Step, Error>) -> bool {
    if state.queues_empty() {
        state.task is Idle && state.nothing_waits() && r == Ok::<Step, Error>(Step::Done)
    } else {
        state.task is Between && r == Ok::<Step, Error>(Step::Proceed)
    }
}

/// Whether two writes have done the same, one with `mx` behind what waits and one with `my`: both
/// have failed alike, both have come to rest, or both ask for the same.
pub open spec fn follows(
    x: TableWrite,
    rx: Result<Step, Error>,
    y: TableWrite,
    ry: Result<Step, Error>,
    q: Seq<RecordBatch>,
    mx: Seq<RecordBatch>,
    my: Seq<RecordBatch>,
) -> bool {
    if rx is Err && x.task is Idle {
        y == x && ry == rx
    } else {
        &&& pairs(x, y, q, mx, my)
        &&& if rx is Ok && (x.task is Idle || x.task is Between) {
            rested(x, rx) && rested(y, ry)
        } else {
            &&& y.task == x.task
            &&& ry == rx
            &&& x.task is Between ==> !y.queues_empty()
        }
    }
}

/// Whether no commit is under way.
pub open spec fn in_write(state: TableWrite) -> bool {
    !(state.task is Draining) && !(state.task is Closing)
}


proof fn lemma_rests(
    x: TableWrite,
    y: TableWrite,
    q: Seq<RecordBatch>,
    mx: Seq<RecordBatch>,
    my: Seq<RecordBatch>,
    none: Vec<RecordBatch>,
    x2: TableWrite,
    step: Step,
) -> (r: (TableWrite, Result<Step, Error>))
    requires
        pairs(x, y, q, mx, my),
        none@.len() == 0,
        TableWrite::rests(x, x2, step),
    ensures
        r.1 matches Ok(step2) && TableWrite::rests(y, r.0, step2),
        follows(x2, Ok(step), r.0, r.1, q, mx, my),
{
    assert(x.queue().len() == x.batches@.len() - x.next_batch);
    assert(y.queue().len() == y.batches@.len() - y.next_batch);
    let r = if y.queues_empty() {
        (
            TableWrite { batches: none, next_batch: 0, task: Task::Idle, ..y },
            Ok::<Step, Error>(Step::Done),
        )
    } else {
        (TableWrite { task: Task::Between, ..y }, Ok::<Step, Error>(Step::Proceed))
    };
    assert(x2.queue() =~= q + mx);
    assert(r.0.queue() =~= q + my);
    r
}

proof fn lemma_write_goes_on(
    x: TableWrite,
    y: TableWrite,
    q: Seq<RecordBatch>,
    mx: Seq<RecordBatch>,
    my: Seq<RecordBatch>,
    none: Vec<RecordBatch>,
    index: int,
    writer: BucketWriter,
    result: Result<Action, Error>,
    x2: TableWrite,
    rx: Result<Step, Error>,
) -> (r: (TableWrite, Result<Step, Error>))
    requires
        pairs(x, y, q, mx, my),
        y.task == x.task,
        !(x.task is Between),
        none@.len() == 0,
        result is Err ==> writer.idle() || !(x.task is Idle),
        TableWrite::write_goes_on(x, index, writer, result, x2, rx),
    ensures
        TableWrite::write_goes_on(y, index, writer, result, r.0, r.1),
        follows(x2, rx, r.0, r.1, q, mx, my),
        in_write(x) ==> in_write(x2),
{
    match result {
        Ok(action) => if action is Done {
            lemma_rests(
                TableWrite { partition_writers: x2.partition_writers, ..x },
                TableWrite { partition_writers: x2.partition_writers, ..y },
                q,
                mx,
                my,
                none,
                x2,
                rx->Ok_0,
            )
        } else {
            (
                TableWrite {
                    partition_writers: x2.partition_writers,
                    task: x2.task,
                    ..y
                },
                rx,
            )
        },
        Err(_) => if writer.idle() {
            (x2, rx)
        } else {
            (TableWrite { partition_writers: x2.partition_writers, ..y }, rx)
        },
    }
}

proof fn lemma_write_fails_idle(
    pre: BucketWriter,
    batch: RecordBatch,
    post: BucketWriter,
    r: Result<Action, Error>,
)
    requires
        pre.idle(),
        BucketWriter::writes(pre, batch, post, r),
    ensures
        r is Err ==> post.idle(),
{
}

proof fn lemma_writes_at(
    x: TableWrite,
    y: TableWrite,
    q: Seq<RecordBatch>,
    mx: Seq<RecordBatch>,
    my: Seq<RecordBatch>,
    none: Vec<RecordBatch>,
    index: int,
    batch: RecordBatch,
    x2: TableWrite,
    rx: Result<Step, Error>,
) -> (r: (TableWrite, Result<Step, Error>))
    requires
        pairs(x, y, q, mx, my),
        y.task == x.task,
        !(x.task is Between),
        in_write(x),
        none@.len() == 0,
        x.partition_writers@[index].writer.idle(),
        TableWrite::writes_at(x, index, batch, x2, rx),
    ensures
        TableWrite::writes_at(y, index, batch, r.0, r.1),
        follows(x2, rx, r.0, r.1, q, mx, my),
        in_write(x2),
{
    let before = x.partition_writers@[index].writer;
    let (writer, result) = choose|writer: BucketWriter, result: Result<Action, Error>|
        {
            &&& #[trigger] BucketWriter::writes(before, batch, writer, result)
            &&& TableWrite::write_goes_on(x, index, writer, result, x2, rx)
        };
    lemma_write_fails_idle(before, batch, writer, result);
    let r = lemma_write_goes_on(x, y, q, mx, my, none, index, writer, result, x2, rx);
    assert(BucketWriter::writes(y.partition_writers@[index].writer, batch, writer, result));
    r
}

proof fn lemma_writes_new(
    x: TableWrite,
    y: TableWrite,
    q: Seq<RecordBatch>,
    mx: Seq<RecordBatch>,
    my: Seq<RecordBatch>,
    none: Vec<RecordBatch>,
    path: Seq<char>,
    part: RoutedBatch,
    x2: TableWrite,
    rx: Result<Step, Error>,
) -> (r: (TableWrite, Result<Step, Error>))
    requires
        pairs(x, y, q, mx, my),
        y.task == x.task,
        !(x.task is Between),
        in_write(x),
        none@.len() == 0,
        TableWrite::writes_new(x, path, part, x2, rx),
    ensures
        TableWrite::writes_new(y, path, part, r.0, r.1),
        follows(x2, rx, r.0, r.1, q, mx, my),
        in_write(x2),
{
    let count = x.partition_writers@.len() as int;
    let mid = choose|mid: TableWrite|
        {
            &&& #[trigger] x.adds_writer(path, part, mid)
            &&& TableWrite::writes_at(mid, count, part.batch, x2, rx)
        };
    let y_mid = TableWrite { partition_writers: mid.partition_writers, ..y };
    assert(mid.partition_writers@[count] == mid.partition_writers@.last());
    let r = lemma_writes_at(mid, y_mid, q, mx, my, none, count, part.batch, x2, rx);
    assert(y.adds_writer(path, part, y_mid));
    r
}

proof fn lemma_places(
    x: TableWrite,
    y: TableWrite,
    q: Seq<RecordBatch>,
    mx: Seq<RecordBatch>,
    my: Seq<RecordBatch>,
    none: Vec<RecordBatch>,
    part: RoutedBatch,
    x2: TableWrite,
    rx: Result<Step, Error>,
) -> (r: (TableWrite, Result<Step, Error>))
    requires
        pairs(x, y, q, mx, my),
        y.task == x.task,
        !(x.task is Between),
        in_write(x),
        none@.len() == 0,
        x.ready(),
        TableWrite::places(x, part, x2, rx),
    ensures
        TableWrite::places(y, part, r.0, r.1),
        follows(x2, rx, r.0, r.1, q, mx, my),
        in_write(x2),
{
    let place = part.place();
    if writer_places(x.partition_writers@).contains(place) {
        let i = choose|i: int|
            {
                &&& 0 <= i < x.partition_writers@.len()
                &&& (#[trigger] x.partition_writers@[i]).place() == place
                &&& TableWrite::writes_at(x, i, part.batch, x2, rx)
            };
        let r = lemma_writes_at(x, y, q, mx, my, none, i, part.batch, x2, rx);
        assert(y.partition_writers@[i].place() == place);
        r
    } else if x.settings.partition_keys@.len() == 0 {
        lemma_writes_new(x, y, q, mx, my, none, Seq::empty(), part, x2, rx)
    } else {
        (TableWrite { task: x2.task, ..y }, rx)
    }
}

proof fn lemma_takes(
    x: TableWrite,
    y: TableWrite,
    q: Seq<RecordBatch>,
    mx: Seq<RecordBatch>,
    my: Seq<RecordBatch>,
    none: Vec<RecordBatch>,
    batch: RecordBatch,
    x2: TableWrite,
    rx: Result<Step, Error>,
) -> (r: (TableWrite, Result<Step, Error>))
    requires
        pairs(x, y, q, mx, my),
        none@.len() == 0,
        TableWrite::takes(x, batch, x2, rx),
    ensures
        TableWrite::takes(y, batch, r.0, r.1),
        follows(x2, rx, r.0, r.1, q, mx, my),
        in_write(x2),
{
    if crate::arrow::batch_rows(batch) == 0 {
        lemma_rests(x, y, q, mx, my, none, x2, rx->Ok_0)
    } else {
        let division = choose|division: Result<Vec<RoutedBatch>, Error>|
            {
                &&& #[trigger] x.router.division(batch, division)
                &&& match division {
                    Ok(parts) => rx matches Ok(step) && TableWrite::rests(
                        TableWrite { parts, ..x },
                        x2,
                        step,
                    ),
                    Err(error) => rx == Err::<Step, Error>(error) && TableWrite::abandons(x, x2),
                }
            };
        assert(y.router.division(batch, division));
        match division {
            Ok(parts) => lemma_rests(
                TableWrite { parts, ..x },
                TableWrite { parts, ..y },
                q,
                mx,
                my,
                none,
                x2,
                rx->Ok_0,
            ),
            Err(_) => (x2, rx),
        }
    }
}

proof fn lemma_advances(
    x: TableWrite,
    y: TableWrite,
    q: Seq<RecordBatch>,
    mx: Seq<RecordBatch>,
    my: Seq<RecordBatch>,
    none: Vec<RecordBatch>,
    x2: TableWrite,
    rx: Result<Step, Error>,
) -> (r: (TableWrite, Result<Step, Error>, Seq<RecordBatch>))
    requires
        pairs(x, y, q, mx, my),
        y.task == x.task,
        !(x.task is Between),
        in_write(x),
        none@.len() == 0,
        x.ready(),
        x.parts@.len() > 0 || q.len() > 0,
        TableWrite::advances(x, x2, rx),
    ensures
        TableWrite::advances(y, r.0, r.1),
        follows(x2, rx, r.0, r.1, r.2, mx, my),
        in_write(x2),
{
    if x.parts@.len() > 0 {
        let part = x.parts@[0];
        let mid = choose|mid: TableWrite|
            {
                &&& #[trigger] x.drops_part(mid)
                &&& TableWrite::places(mid, part, x2, rx)
            };
        let y_mid = TableWrite { parts: mid.parts, ..y };
        let r = lemma_places(mid, y_mid, q, mx, my, none, part, x2, rx);
        assert(y.drops_part(y_mid));
        (r.0, r.1, q)
    } else {
        let batch = x.queue()[0];
        let mid = choose|mid: TableWrite|
            {
                &&& #[trigger] x.drops_batch(mid)
                &&& TableWrite::takes(mid, batch, x2, rx)
            };
        assert(y.queue().len() == y.batches@.len() - y.next_batch);
        assert(x.queue().len() == x.batches@.len() - x.next_batch);
        assert(y.next_batch < y.batches.len());
        let y_mid = TableWrite { next_batch: (y.next_batch + 1) as usize, ..y };
        lemma_next_batch(x, mid);
        lemma_next_batch(y, y_mid);
        assert((q + mx).skip(1) =~= q.skip(1) + mx);
        assert((q + my).skip(1) =~= q.skip(1) + my);
        assert(y.queue()[0] == q[0] && batch == q[0]);
        let r = lemma_takes(mid, y_mid, q.skip(1), mx, my, none, batch, x2, rx);
        assert(y.drops_batch(y_mid));
        (r.0, r.1, q.skip(1))
    }
}

/// What one write does on an answer, one with other batches at the end does too.
proof fn lemma_step(
    x: TableWrite,
    y: TableWrite,
    q: Seq<RecordBatch>,
    mx: Seq<RecordBatch>,
    my: Seq<RecordBatch>,
    none: Vec<RecordBatch>,
    event: Event,
    x2: TableWrite,
    rx: Result<Step, Error>,
) -> (r: (TableWrite, Result<Step, Error>, Seq<RecordBatch>))
    requires
        x.wf(),
        in_write(x),
        !(x.task is Idle),
        y.task == x.task,
        pairs(x, y, q, mx, my),
        none@.len() == 0,
        x.task is Between ==> x.parts@.len() > 0 || q.len() > 0,
        TableWrite::resumes(x, event, x2, rx),
    ensures
        TableWrite::resumes(y, event, r.0, r.1),
        follows(x2, rx, r.0, r.1, r.2, mx, my),
        in_write(x2),
{
    let free = TableWrite { task: Task::Idle, ..x };
    let y_free = TableWrite { task: Task::Idle, ..y };
    assert(free.queue() == q + mx && y_free.queue() == q + my);
    match (x.task, event) {
        (Task::Writing { index }, _) => {
            let before = x.partition_writers@[index as int].writer;
            let (writer, result) = choose|writer: BucketWriter, result: Result<Action, Error>|
                {
                    &&& #[trigger] BucketWriter::resumes(before, event, writer, result)
                    &&& TableWrite::write_goes_on(x, index as int, writer, result, x2, rx)
                };
            let r = lemma_write_goes_on(
                x,
                y,
                q,
                mx,
                my,
                none,
                index as int,
                writer,
                result,
                x2,
                rx,
            );
            assert(BucketWriter::resumes(
                y.partition_writers@[index as int].writer,
                event,
                writer,
                result,
            ));
            (r.0, r.1, q)
        },
        (_, Event::Failed { .. }) => (x2, rx, q),
        (Task::Between, Event::Done) => lemma_advances(free, y_free, q, mx, my, none, x2, rx),
        (Task::Resolving { part }, Event::PartitionPath { path }) => {
            let r = lemma_writes_new(free, y_free, q, mx, my, none, path@, part, x2, rx);
            (r.0, r.1, q)
        },
        _ => (y, rx, q),
    }
}

proof fn lemma_follower_sound(
    x: TableWrite,
    rx: Result<Step, Error>,
    y: TableWrite,
    ry: Result<Step, Error>,
    q: Seq<RecordBatch>,
    mx: Seq<RecordBatch>,
    my: Seq<RecordBatch>,
)
    requires
        x.wf(),
        in_write(x),
        follows(x, rx, y, ry, q, mx, my),
    ensures
        y.wf(),
        in_write(y),
{
    if !(rx is Err && x.task is Idle) {
        assert(x.queue().len() == x.batches@.len() - x.next_batch);
        assert(y.queue().len() == y.batches@.len() - y.next_batch);
        assert(y.commit_places() =~= x.commit_places());
    }
}

/// With the same batches at the end, both writes answer the same.
proof fn lemma_follows_exactly(
    x: TableWrite,
    rx: Result<Step, Error>,
    y: TableWrite,
    ry: Result<Step, Error>,
    q: Seq<RecordBatch>,
)
    requires
        x.wf(),
        follows(x, rx, y, ry, q, Seq::empty(), Seq::empty()),
    ensures
        y.task == x.task,
        ry == rx,
        pairs(x, y, x.queue(), Seq::empty(), Seq::empty()),
{
    assert(q + Seq::<RecordBatch>::empty() =~= q);
    assert(x.queue() + Seq::<RecordBatch>::empty() =~= x.queue());
    assert(x.queue().len() == x.batches@.len() - x.next_batch);
    assert(y.queue().len() == y.batches@.len() - y.next_batch || y == x);
}

proof fn lemma_from(run: Run, k: int)
    requires
        run.goes_on(),
        0 <= k <= run.events.len(),
    ensures
        run.from(k).goes_on(),
        run.from(k).states.last() == run.states.last(),
        run.from(k).states[0] == run.states[k],
        run.from(k).results[0] == run.results[k],
{
    let left = run.from(k);
    assert forall|i: int| 0 <= i < left.states.len() implies (#[trigger] left.states[i]).wf() by {
        assert(left.states[i] == run.states[k + i]);
    }
    assert forall|i: int| 0 <= i < left.events.len() implies #[trigger] left.step(i) by {
        assert(run.step(k + i));
    }
}

proof fn lemma_after(run: Run, state: TableWrite, event: Event, r: Result<Step, Error>)
    requires
        run.goes_on(),
        state.wf(),
        !(state.task is Idle),
        TableWrite::resumes(state, event, run.states[0], run.results[0]),
    ensures
        run.after(state, event, r).goes_on(),
        run.after(state, event, r).states.last() == run.states.last(),
        run.after(state, event, r).results.last() == run.results.last(),
        run.after(state, event, r).results.drop_last() == seq![r] + run.results.drop_last(),
{
    let longer = run.after(state, event, r);
    assert forall|i: int| 0 <= i < longer.states.len() implies (
    #[trigger] longer.states[i]).wf() by {
        if i > 0 {
            assert(longer.states[i] == run.states[i - 1]);
        }
    }
    assert forall|i: int| 0 <= i < longer.events.len() implies #[trigger] longer.step(i) by {
        if i > 0 {
            assert(run.step(i - 1));
        }
    }
    assert(longer.results.drop_last() =~= seq![r] + run.results.drop_last());
}

/// A run can be repeated from a state in which the same waits.
proof fn lemma_same_run(x: Run, y0: TableWrite, none: Vec<RecordBatch>) -> (y: Run)
    requires
        x.goes_on(),
        x.is_over(),
        in_write(x.states[0]),
        y0.wf(),
        y0.task == x.states[0].task,
        pairs(x.states[0], y0, x.states[0].queue(), Seq::empty(), Seq::empty()),
        none@.len() == 0,
    ensures
        y.goes_on(),
        y.is_over(),
        y.states[0] == y0,
        y.events == x.events,
        y.results == x.results,
        same_state(x.states.last(), y.states.last()),
    decreases x.events.len(),
{
    let x0 = x.states[0];
    if x.events.len() == 0 {
        let y = Run { states: seq![y0], events: x.events, results: x.results };
        assert(y.states.last() == y0);
        assert(x0.batches@ =~= y0.batches@);
        y
    } else {
        let event = x.events[0];
        assert(x.step(0));
        let x1 = x.states[1];
        let r1 = x.results[1];
        assert(x.states[0].wf());
        assert(x0.queue().len() == x0.batches@.len() - x0.next_batch);
        let (y1, ry1, q1) = lemma_step(
            x0,
            y0,
            x0.queue(),
            Seq::empty(),
            Seq::empty(),
            none,
            event,
            x1,
            r1,
        );
        assert(x.states[1].wf());
        lemma_follower_sound(x1, r1, y1, ry1, q1, Seq::empty(), Seq::empty());
        lemma_follows_exactly(x1, r1, y1, ry1, q1);
        lemma_from(x, 1);
        let left = lemma_same_run(x.from(1), y1, none);
        lemma_after(left, y0, event, x.results[0]);
        let y = left.after(y0, event, x.results[0]);
        assert(y.events =~= x.events);
        assert(y.results =~= x.results);
        y
    }
}

/// A run with `more` at the end begins with a run without it.
proof fn lemma_shorter_run(
    x: Run,
    y0: TableWrite,
    r0: Result<Step, Error>,
    more: Seq<RecordBatch>,
    none: Vec<RecordBatch>,
) -> (r: (Run, int))
    requires
        x.goes_on(),
        x.is_over(),
        in_write(x.states[0]),
        follows(x.states[0], x.results[0], y0, r0, y0.queue(), more, Seq::empty()),
        none@.len() == 0,
    ensures
        r.0.goes_on(),
        r.0.is_over(),
        r.0.states[0] == y0,
        r.0.results[0] == r0,
        0 <= r.1 <= x.events.len(),
        in_write(x.states[r.1]),
        r.0.events == x.events.take(r.1),
        r.0.results.drop_last() == x.results.take(r.1),
        follows(
            x.states[r.1],
            x.results[r.1],
            r.0.states.last(),
            r.0.results.last(),
            r.0.states.last().queue(),
            more,
            Seq::empty(),
        ),
    decreases x.events.len(),
{
    let x0 = x.states[0];
    assert(x.states[0].wf());
    lemma_follower_sound(x0, x.results[0], y0, r0, y0.queue(), more, Seq::empty());
    if y0.task is Idle {
        let y = Run { states: seq![y0], events: Seq::empty(), results: seq![r0] };
        assert(y.states.last() == y0);
        assert(y.results.last() == r0);
        assert(y.events =~= x.events.take(0));
        assert(y.results.drop_last() =~= x.results.take(0));
        (y, 0)
    } else {
        assert(x0.queue().len() == x0.batches@.len() - x0.next_batch);
        assert(y0.queue().len() == y0.batches@.len() - y0.next_batch);
        assert(y0.queue() + Seq::<RecordBatch>::empty() =~= y0.queue());
        assert(x0.task == y0.task && r0 == x.results[0]);
        let event = x.events[0];
        assert(x.step(0));
        let x1 = x.states[1];
        let r1 = x.results[1];
        let (y1, ry1, q1) = lemma_step(
            x0,
            y0,
            y0.queue(),
            more,
            Seq::empty(),
            none,
            event,
            x1,
            r1,
        );
        assert(q1 + Seq::<RecordBatch>::empty() =~= q1);
        lemma_from(x, 1);
        let (left, k) = lemma_shorter_run(x.from(1), y1, ry1, more, none);
        lemma_after(left, y0, event, r0);
        let y = left.after(y0, event, r0);
        assert(y.events =~= x.events.take(k + 1));
        assert(y.results.drop_last() =~= x.results.take(k + 1));
        assert(x.from(1).states[k] == x.states[k + 1]);
        assert(x.from(1).results[k] == x.results[k + 1]);
        (y, k + 1)
    }
}

/// A run can be repeated with `more` at the end.
proof fn lemma_longer_run(
    x: Run,
    y0: TableWrite,
    r0: Result<Step, Error>,
    more: Seq<RecordBatch>,
    none: Vec<RecordBatch>,
) -> (y: Run)
    requires
        x.goes_on(),
        x.is_over(),
        in_write(x.states[0]),
        follows(x.states[0], x.results[0], y0, r0, x.states[0].queue(), Seq::empty(), more),
        none@.len() == 0,
    ensures
        y.goes_on(),
        y.states[0] == y0,
        y.results[0] == r0,
        y.events == x.events,
        y.results.drop_last() == x.results.drop_last(),
        follows(
            x.states.last(),
            x.results.last(),
            y.states.last(),
            y.results.last(),
            x.states.last().queue(),
            Seq::empty(),
            more,
        ),
    decreases x.events.len(),
{
    let x0 = x.states[0];
    assert(x.states[0].wf());
    lemma_follower_sound(x0, x.results[0], y0, r0, x0.queue(), Seq::empty(), more);
    if x.events.len() == 0 {
        let y = Run { states: seq![y0], events: x.events, results: seq![r0] };
        assert(y.states.last() == y0);
        assert(y.results.last() == r0);
        assert(y.results.drop_last() =~= x.results.drop_last());
        y
    } else {
        let event = x.events[0];
        assert(x.step(0));
        let x1 = x.states[1];
        let r1 = x.results[1];
        assert(x0.queue().len() == x0.batches@.len() - x0.next_batch);
        assert(y0.queue().len() == y0.batches@.len() - y0.next_batch);
        assert(x0.task == y0.task && r0 == x.results[0]);
        let (y1, ry1, q1) = lemma_step(
            x0,
            y0,
            x0.queue(),
            Seq::empty(),
            more,
            none,
            event,
            x1,
            r1,
        );
        assert(q1 + Seq::<RecordBatch>::empty() =~= q1);
        lemma_from(x, 1);
        let left = lemma_longer_run(x.from(1), y1, ry1, more, none);
        lemma_after(left, y0, event, r0);
        let y = left.after(y0, event, r0);
        assert(y.events =~= x.events);
        assert(x.from(1).results.last() == x.results.last());
        assert(y.results.drop_last() =~= x.results.drop_last());
        y
    }
}

/// A write of batches as it begins.
proof fn lemma_begins(pre: TableWrite, batches: Vec<RecordBatch>) -> (r: (
    TableWrite,
    Result<Step, Error>,
))
    requires
        pre.wf(),
        pre.task is Idle,
    ensures
        TableWrite::queues(pre, batches@, r.0, r.1),
        r.0.wf(),
        in_write(r.0),
        r.0.queue() == batches@,
        rested(r.0, r.1),
{
    if batches@.len() == 0 {
        assert(pre.batches@ =~= batches@);
        assert(pre.queue() =~= batches@);
        (pre, Ok(Step::Done))
    } else {
        let state = TableWrite { batches, next_batch: 0, task: Task::Between, ..pre };
        assert(state.queue() =~= batches@);
        assert(state.commit_places() =~= pre.commit_places());
        (state, Ok(Step::Proceed))
    }
}

/// Writing `a` and then `b` in one list is writing `a` and then, unless that fails, `b`: on the
/// same answers the same is asked for, and the write ends in the same state. An error while `a`
/// is written ends both alike.
pub proof fn law_write_splits(
    pre: TableWrite,
    a: Vec<RecordBatch>,
    b: Vec<RecordBatch>,
    run: Run,
) -> (r: (Run, Run))
    requires
        pre.wf(),
        pre.task is Idle,
        writes_all(pre, a@ + b@, run),
        run.is_over(),
    ensures
        writes_all(pre, a@, r.0),
        r.0.is_over(),
        r.0.results.last() is Ok ==> {
            &&& writes_all(r.0.states.last(), b@, r.1)
            &&& r.1.is_over()
            &&& run.events == r.0.events + r.1.events
            &&& run.results == r.0.results.drop_last() + r.1.results
            &&& same_state(run.states.last(), r.1.states.last())
        },
        r.0.results.last() is Err ==> {
            &&& run.events == r.0.events
            &&& run.results == r.0.results
            &&& same_state(run.states.last(), r.0.states.last())
        },
{
    let none = pre.batches;
    let (y0, r0) = lemma_begins(pre, a);
    let x0 = run.states[0];
    assert(run.states[0].wf());
    assert(x0.queue() =~= y0.queue() + b@);
    assert(y0.queue() =~= y0.queue() + Seq::<RecordBatch>::empty());
    let (first, k) = lemma_shorter_run(run, y0, r0, b@, none);
    let end = first.states.last();
    let xk = run.states[k];
    assert(run.states[k].wf());
    lemma_from(run, k);
    assert(first.results =~= first.results.drop_last().push(first.results.last()));
    assert(run.events =~= run.events.take(k) + run.events.skip(k));
    assert(run.results =~= run.results.take(k) + run.results.skip(k));
    if first.results.last() is Err {
        assert(k == run.events.len()) by {
            if k < run.events.len() {
                assert(run.step(k));
            }
        }
        assert(run.events =~= run.events.take(k));
        assert(run.results =~= run.results.take(k).push(run.results[k]));
        (first, first)
    } else {
        assert(end.queue() =~= Seq::<RecordBatch>::empty());
        assert(xk.queue() =~= b@);
        assert(xk.queue().len() == xk.batches@.len() - xk.next_batch);
        let (z0, s0) = lemma_begins(end, b);
        assert(z0.task == xk.task && s0 == run.results[k]);
        assert(b@ + Seq::<RecordBatch>::empty() =~= b@);
        assert(pairs(xk, z0, b@, Seq::empty(), Seq::empty()));
        let second = lemma_same_run(run.from(k), z0, none);
        (first, second)
    }
}

proof fn lemma_join_runs(x: Run, y: Run)
    requires
        x.goes_on(),
        y.goes_on(),
        y.states[0] == x.states.last(),
        y.results[0] == x.results.last(),
    ensures
        ({
            let both = Run {
                states: x.states.drop_last() + y.states,
                events: x.events + y.events,
                results: x.results.drop_last() + y.results,
            };
            &&& both.goes_on()
            &&& both.states.last() == y.states.last()
            &&& both.states[0] == x.states[0]
            &&& both.results[0] == x.results[0]
        }),
{
    let both = Run {
        states: x.states.drop_last() + y.states,
        events: x.events + y.events,
        results: x.results.drop_last() + y.results,
    };
    let n = x.events.len() as int;
    assert forall|i: int| 0 <= i <= n implies #[trigger] both.states[i] == x.states[i]
        && both.results[i] == x.results[i] by {
    }
    assert forall|i: int| n <= i < both.states.len() implies #[trigger] both.states[i] == y.states[i
        - n] && both.results[i] == y.results[i - n] by {
    }
    assert forall|i: int| 0 <= i < both.states.len() implies (#[trigger] both.states[i]).wf() by {
        if i <= n {
            assert(x.states[i].wf());
        } else {
            assert(y.states[i - n].wf());
        }
    }
    assert forall|i: int| 0 <= i < both.events.len() implies #[trigger] both.step(i) by {
        if i < n {
            assert(x.step(i));
            assert(both.states[i + 1] == x.states[i + 1]);
        } else {
            assert(y.step(i - n));
            assert(both.states[i] == y.states[i - n]);
            assert(both.states[i + 1] == y.states[i + 1 - n]);
        }
    }
    assert(both.states.last() == y.states.last());
}

/// Writing `a` and then, unless that fails, `b` is writing `a` and then `b` in one list: on the
/// same answers the same is asked for, and the write ends in the same state.
pub proof fn law_writes_join(
    pre: TableWrite,
    a: Seq<RecordBatch>,
    b: Seq<RecordBatch>,
    both: Vec<RecordBatch>,
    first: Run,
    second: Run,
) -> (run: Run)
    requires
        pre.wf(),
        pre.task is Idle,
        both@ == a + b,
        writes_all(pre, a, first),
        first.is_over(),
        first.results.last() is Ok ==> writes_all(first.states.last(), b, second)
            && second.is_over(),
    ensures
        writes_all(pre, a + b, run),
        run.is_over(),
        first.results.last() is Ok ==> {
            &&& run.events == first.events + second.events
            &&& run.results == first.results.drop_last() + second.results
            &&& same_state(second.states.last(), run.states.last())
        },
        first.results.last() is Err ==> {
            &&& run.events == first.events
            &&& run.results == first.results
            &&& same_state(first.states.last(), run.states.last())
        },
{
    let none = pre.batches;
    let (y0, r0) = lemma_begins(pre, both);
    let x0 = first.states[0];
    assert(first.states[0].wf());
    assert(x0.queue() =~= a);
    assert(a + Seq::<RecordBatch>::empty() =~= a);
    let part = lemma_longer_run(first, y0, r0, b, none);
    let end = first.states.last();
    assert(end.wf());
    assert(part.results =~= part.results.drop_last().push(part.results.last()));
    assert(first.results =~= first.results.drop_last().push(first.results.last()));
    if first.results.last() is Err {
        part
    } else {
        let next = second.states[0];
        assert(second.states[0].wf());
        let reached = part.states.last();
        assert(part.states.last().wf());
        assert(end.queue() =~= Seq::<RecordBatch>::empty());
        assert(reached.queue() =~= b);
        assert(reached.queue().len() == reached.batches@.len() - reached.next_batch);
        assert(next.queue() =~= b);
        assert(b + Seq::<RecordBatch>::empty() =~= b);
        assert(pairs(next, reached, b, Seq::empty(), Seq::empty()));
        assert(reached.task == next.task && part.results.last() == second.results[0]);
        let rest = lemma_same_run(second, reached, none);
        lemma_join_runs(part, rest);
        Run {
            states: part.states.drop_last() + rest.states,
            events: part.events + rest.events,
            results: part.results.drop_last() + rest.results,
        }
    }
}

/// Writing one batch in a list is, once the list is gone on with, writing it alone.
pub proof fn law_list_of_one_writes_it(pre: TableWrite, batch: RecordBatch, run: Run) -> (alone:
    Run)
    requires
        pre.wf(),
        pre.task is Idle,
        writes_all(pre, seq![batch], run),
        run.is_over(),
        run.events.len() > 0 ==> run.events[0] is Done,
    ensures
        run.results[0] == Ok::<Step, Error>(Step::Proceed),
        run.events.len() > 0,
        writes_one(pre, batch, alone),
        alone.is_over(),
        alone.events == run.events.skip(1),
        alone.results == run.results.skip(1),
        same_state(run.states.last(), alone.states.last()),
{
    let none = pre.batches;
    let x0 = run.states[0];
    assert(run.states[0].wf());
    assert(run.step(0));
    let x1 = run.states[1];
    let r1 = run.results[1];
    assert(run.states[1].wf());
    let free = TableWrite { task: Task::Idle, ..x0 };
    assert(TableWrite::advances(free, x1, r1));
    let mid = choose|mid: TableWrite|
        {
            &&& #[trigger] free.drops_batch(mid)
            &&& TableWrite::takes(mid, free.queue()[0], x1, r1)
        };
    let q = Seq::<RecordBatch>::empty();
    assert(mid.queue() =~= q + q);
    assert(pre.queue() =~= q + q);
    let (y1, ry1) = lemma_takes(mid, pre, q, q, q, none, batch, x1, r1);
    lemma_follower_sound(x1, r1, y1, ry1, q, q, q);
    lemma_follows_exactly(x1, r1, y1, ry1, q);
    lemma_from(run, 1);
    lemma_same_run(run.from(1), y1, none)
}

/// Writing one batch alone is writing it in a list that is gone on with.
pub proof fn law_one_is_written_in_a_list(
    pre: TableWrite,
    batch: RecordBatch,
    list: Vec<RecordBatch>,
    alone: Run,
) -> (run: Run)
    requires
        pre.wf(),
        pre.task is Idle,
        list@ == seq![batch],
        writes_one(pre, batch, alone),
        alone.is_over(),
    ensures
        writes_all(pre, seq![batch], run),
        run.is_over(),
        run.events == seq![Event::Done] + alone.events,
        run.results == seq![Ok::<Step, Error>(Step::Proceed)] + alone.results,
        same_state(alone.states.last(), run.states.last()),
{
    let none = pre.batches;
    let (x0, r0) = lemma_begins(pre, list);
    let x1 = alone.states[0];
    let r1 = alone.results[0];
    assert(alone.states[0].wf());
    let free = TableWrite { task: Task::Idle, ..x0 };
    let mid = TableWrite { next_batch: 1, ..free };
    let q = Seq::<RecordBatch>::empty();
    assert(mid.queue() =~= q + q);
    assert(pre.queue() =~= q + q);
    let (y1, ry1) = lemma_takes(pre, mid, q, q, q, none, batch, x1, r1);
    assert(free.drops_batch(mid));
    assert(free.queue()[0] == batch);
    assert(TableWrite::resumes(x0, Event::Done, y1, ry1));
    lemma_follower_sound(x1, r1, y1, ry1, q, q, q);
    lemma_follows_exactly(x1, r1, y1, ry1, q);
    let rest = lemma_same_run(alone, y1, none);
    lemma_after(rest, x0, Event::Done, r0);
    rest.after(x0, Event::Done, r0)
}

/// Writing no batch is over at once and changes nothing.
pub proof fn law_empty_list(pre: TableWrite, run: Run)
    requires
        pre.wf(),
        pre.task is Idle,
        writes_all(pre, Seq::empty(), run),
    ensures
        run.events.len() == 0,
        run.results[0] == Ok::<Step, Error>(Step::Done),
        same_state(pre, run.states[0]),
{
    assert(run.states[0].batches@ =~= pre.batches@);
    if run.events.len() > 0 {
        assert(run.step(0));
    }
}

/// An error that ends a write drops everything that waits.
pub proof fn law_failure_drops_what_waits(
    pre: TableWrite,
    event: Event,
    post: TableWrite,
    error: Error,
)
    requires
        pre.wf(),
        !(pre.task is Idle),
        TableWrite::resumes(pre, event, post, Err(error)),
        post.task is Idle,
    ensures
        post.nothing_waits(),
        post.commit_empty(),
{
}

} // verus!
