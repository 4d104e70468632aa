//! What a write keeps of where rows go: every batch that is written to a file of a bucket holds
//! only rows that go there.

use crate::arrow::{
    batch_columns, batch_rows, concat_column, select, select_rows, total_rows, Cell, RecordBatch,
};
use crate::bucket_writer::BucketWriter;
use crate::data_file_writer::Phase;
use crate::error::Error;
use crate::key_value_file::{concatenated, is_physical, is_sorted, sorted_by, sorts};
use crate::key_value_writer::{buffer_wf, KeyValueFileWriter, KeyValuePhase};
use crate::protocol::{Action, Event, Step};
use crate::route::{Route, RoutedBatch, Router};
use crate::route_laws::{
    law_parts_hold_rows_of_their_place, lemma_no_fault_in_column, lemma_no_fault_in_row,
    lemma_selected_row_route,
};
use crate::schema::Table;
use crate::table_laws::{lemma_drains_all_ready, lemma_ready_with_writer};
use crate::table_write::{lemma_next_batch, writer_places, PartitionWriter, TableWrite, Task};
use vstd::prelude::*;

verus! {

/// Whether every column of a batch has a value for every row.
pub open spec fn rectangular(batch: RecordBatch) -> bool {
    forall|j: int|
        0 <= j < batch_columns(batch).len() ==> (#[trigger] batch_columns(batch)[j]).len()
            == batch_rows(batch)
}

/// Whether every column of every batch has a value for every row.
pub open spec fn all_rectangular(batches: Seq<RecordBatch>) -> bool {
    forall|i: int| #![trigger batches[i]] 0 <= i < batches.len() ==> rectangular(batches[i])
}

/// Whether a row is sound and goes to the given place.
pub open spec fn row_belongs(
    router: Router,
    columns: Seq<Seq<Cell>>,
    row: int,
    place: Route,
) -> bool {
    router.row_fault(columns, row) is None && router.route(columns, row) == place
}

/// Whether every row of a batch goes to the given place.
pub open spec fn belongs(router: Router, batch: RecordBatch, place: Route) -> bool {
    &&& rectangular(batch)
    &&& forall|r: int|
        0 <= r < batch_rows(batch) ==> #[trigger] row_belongs(
            router,
            batch_columns(batch),
            r,
            place,
        )
}

/// Whether a batch that is written to a file holds only rows that go to the given place: the
/// batch itself, or, for a table with key columns, the sorted batch that it was made of.
pub open spec fn written_belongs(
    router: Router,
    keys: Seq<usize>,
    batch: RecordBatch,
    place: Route,
) -> bool {
    if keys.len() == 0 {
        belongs(router, batch, place)
    } else {
        exists|sorted: RecordBatch, start: int|
            {
                &&& belongs(router, sorted, place)
                &&& #[trigger] is_physical(sorted, keys, start, batch)
            }
    }
}

proof fn lemma_selected_row_fault(
    router: Router,
    columns: Seq<Seq<Cell>>,
    rows: Seq<int>,
    r: int,
    indices: Seq<usize>,
)
    requires
        0 <= r < rows.len(),
    ensures
        router.first_fault(select_rows(columns, rows), r, indices) == router.first_fault(
            columns,
            rows[r],
            indices,
        ),
    decreases indices.len(),
{
    if indices.len() > 0 {
        lemma_selected_row_fault(router, columns, rows, r, indices.drop_last());
        let last = indices.last() as int;
        if last < columns.len() {
            assert(select_rows(columns, rows)[last] == select(columns[last], rows));
        }
    }
}

proof fn lemma_selected_row_belongs(
    router: Router,
    columns: Seq<Seq<Cell>>,
    rows: Seq<int>,
    r: int,
    place: Route,
)
    requires
        0 <= r < rows.len(),
        row_belongs(router, columns, rows[r], place),
    ensures
        row_belongs(router, select_rows(columns, rows), r, place),
{
    lemma_selected_row_fault(router, columns, rows, r, router.partition_field_indices@);
    lemma_selected_row_fault(router, columns, rows, r, router.bucket_key_indices@);
    lemma_selected_row_route(router, columns, rows, r);
}

proof fn lemma_part_row_belongs(
    router: Router,
    batch: RecordBatch,
    parts: Vec<RoutedBatch>,
    i: int,
    r: int,
)
    requires
        router.division(batch, Ok::<Vec<RoutedBatch>, Error>(parts)),
        0 <= i < parts@.len(),
        0 <= r < batch_rows(parts@[i].batch),
    ensures
        row_belongs(router, batch_columns(parts@[i].batch), r, parts@[i].place()),
{
    let columns = batch_columns(batch);
    let n = batch_rows(batch);
    let routes = router.routes(columns, n);
    law_parts_hold_rows_of_their_place(router, batch, parts, i, r);
    if router.is_single() {
    } else if routes.len() == 1 {
        lemma_no_fault_in_row(router, columns, n, r);
    } else {
        let rows = router.rows_of(columns, n, routes[i]);
        router.lemma_rows_below(columns, n, routes[i]);
        lemma_no_fault_in_row(router, columns, n, rows[r]);
        lemma_selected_row_fault(router, columns, rows, r, router.partition_field_indices@);
        lemma_selected_row_fault(router, columns, rows, r, router.bucket_key_indices@);
    }
}

proof fn lemma_part_rectangular(
    router: Router,
    batch: RecordBatch,
    parts: Vec<RoutedBatch>,
    i: int,
)
    requires
        rectangular(batch),
        router.division(batch, Ok::<Vec<RoutedBatch>, Error>(parts)),
        0 <= i < parts@.len(),
    ensures
        rectangular(parts@[i].batch),
{
    let columns = batch_columns(batch);
    let n = batch_rows(batch);
    let routes = router.routes(columns, n);
    let part = parts@[i].batch;
    if !router.is_single() && routes.len() > 1 {
        let rows = router.rows_of(columns, n, routes[i]);
        assert forall|j: int| 0 <= j < batch_columns(part).len() implies (
        #[trigger] batch_columns(part)[j]).len() == batch_rows(part) by {
            assert(batch_columns(part)[j] == select(columns[j], rows));
        }
    }
}

/// Every part of a batch holds only rows that go to the part's place.
pub proof fn law_parts_belong(
    router: Router,
    batch: RecordBatch,
    parts: Vec<RoutedBatch>,
    i: int,
)
    requires
        rectangular(batch),
        router.division(batch, Ok::<Vec<RoutedBatch>, Error>(parts)),
        0 <= i < parts@.len(),
    ensures
        belongs(router, parts@[i].batch, parts@[i].place()),
{
    lemma_part_rectangular(router, batch, parts, i);
    assert forall|r: int| 0 <= r < batch_rows(parts@[i].batch) implies #[trigger] row_belongs(
        router,
        batch_columns(parts@[i].batch),
        r,
        parts@[i].place(),
    ) by {
        lemma_part_row_belongs(router, batch, parts, i, r);
    }
}

/// The batch and the row in it that row `r` of the concatenated batches comes from.
spec fn source(batches: Seq<RecordBatch>, r: int) -> (int, int)
    decreases batches.len(),
{
    if batches.len() == 0 {
        (0, 0)
    } else if r < total_rows(batches.drop_last()) {
        source(batches.drop_last(), r)
    } else {
        (batches.len() - 1, r - total_rows(batches.drop_last()))
    }
}

proof fn lemma_concat_len(batches: Seq<RecordBatch>, j: int)
    requires
        forall|i: int|
            #![trigger batches[i]]
            0 <= i < batches.len() ==> rectangular(batches[i]) && 0 <= j < batch_columns(
                batches[i],
            ).len(),
    ensures
        concat_column(batches, j).len() == total_rows(batches),
    decreases batches.len(),
{
    if batches.len() > 0 {
        let rest = batches.drop_last();
        assert forall|i: int| #![trigger rest[i]] 0 <= i < rest.len() implies rectangular(rest[i])
            && 0 <= j < batch_columns(rest[i]).len() by {
            assert(rest[i] == batches[i]);
        }
        lemma_concat_len(rest, j);
        assert(batches.last() == batches[batches.len() - 1]);
        assert(batch_columns(batches.last())[j].len() == batch_rows(batches.last()));
    }
}

proof fn lemma_source(batches: Seq<RecordBatch>, count: nat, r: int, j: int)
    requires
        forall|i: int|
            #![trigger batches[i]]
            0 <= i < batches.len() ==> rectangular(batches[i]) && batch_columns(batches[i]).len()
                >= count,
        0 <= r < total_rows(batches),
        0 <= j < count,
    ensures
        ({
            let (b, s) = source(batches, r);
            &&& 0 <= b < batches.len()
            &&& 0 <= s < batch_rows(batches[b])
            &&& concat_column(batches, j)[r] == batch_columns(batches[b])[j][s]
        }),
    decreases batches.len(),
{
    let rest = batches.drop_last();
    assert forall|i: int| #![trigger rest[i]] 0 <= i < rest.len() implies rectangular(rest[i])
        && batch_columns(rest[i]).len() >= count by {
        assert(rest[i] == batches[i]);
    }
    lemma_concat_len(rest, j);
    if r < total_rows(rest) {
        lemma_source(rest, count, r, j);
    } else {
        assert(batches.last() == batches[batches.len() - 1]);
    }
}

proof fn lemma_same_cells(
    router: Router,
    a: Seq<Seq<Cell>>,
    r: int,
    b: Seq<Seq<Cell>>,
    s: int,
    indices: Seq<usize>,
)
    requires
        forall|k: int|
            #![trigger indices[k]]
            0 <= k < indices.len() ==> {
                &&& indices[k] < a.len()
                &&& indices[k] < b.len()
                &&& a[indices[k] as int][r] == b[indices[k] as int][s]
            },
    ensures
        router.cells_at(a, r, indices) == router.cells_at(b, s, indices),
        router.first_fault(a, r, indices) == router.first_fault(b, s, indices),
    decreases indices.len(),
{
    assert(router.cells_at(a, r, indices) =~= router.cells_at(b, s, indices));
    if indices.len() > 0 {
        let rest = indices.drop_last();
        assert forall|k: int| #![trigger rest[k]] 0 <= k < rest.len() implies {
            &&& rest[k] < a.len()
            &&& rest[k] < b.len()
            &&& a[rest[k] as int][r] == b[rest[k] as int][s]
        } by {
            assert(rest[k] == indices[k]);
        }
        lemma_same_cells(router, a, r, b, s, rest);
        assert(indices.last() == indices[indices.len() - 1]);
    }
}

proof fn lemma_concatenated_belongs(
    router: Router,
    place: Route,
    batches: Seq<RecordBatch>,
    r: int,
)
    requires
        batches.len() > 0,
        forall|i: int|
            #![trigger batches[i]]
            0 <= i < batches.len() ==> {
                &&& belongs(router, batches[i], place)
                &&& batch_rows(batches[i]) > 0
                &&& batch_columns(batches[i]).len() >= batch_columns(batches[0]).len()
            },
        0 <= r < total_rows(batches),
    ensures
        row_belongs(router, concatenated(batches), r, place),
{
    let all = concatenated(batches);
    let count = batch_columns(batches[0]).len();
    let (b, s) = source(batches, r);
    let partition = router.partition_field_indices@;
    let bucket = router.bucket_key_indices@;
    lemma_source_in_range(batches, r);
    let part = batch_columns(batches[b]);
    assert(belongs(router, batches[b], place) && row_belongs(router, part, s, place));
    let first = batch_columns(batches[0]);
    assert(belongs(router, batches[0], place) && row_belongs(router, first, 0, place));
    assert forall|k: int| #![trigger partition[k]] 0 <= k < partition.len() implies {
        &&& partition[k] < all.len()
        &&& partition[k] < part.len()
        &&& all[partition[k] as int][r] == part[partition[k] as int][s]
    } by {
        lemma_no_fault_in_column(router, first, 0, partition, k);
        lemma_source(batches, count, r, partition[k] as int);
    }
    lemma_same_cells(router, all, r, part, s, partition);
    if router.has_buckets() {
        assert forall|k: int| #![trigger bucket[k]] 0 <= k < bucket.len() implies {
            &&& bucket[k] < all.len()
            &&& bucket[k] < part.len()
            &&& all[bucket[k] as int][r] == part[bucket[k] as int][s]
        } by {
            lemma_no_fault_in_column(router, first, 0, bucket, k);
            lemma_source(batches, count, r, bucket[k] as int);
        }
        lemma_same_cells(router, all, r, part, s, bucket);
    }
}

proof fn lemma_source_in_range(batches: Seq<RecordBatch>, r: int)
    requires
        0 <= r < total_rows(batches),
    ensures
        0 <= source(batches, r).0 < batches.len(),
        0 <= source(batches, r).1 < batch_rows(batches[source(batches, r).0]),
    decreases batches.len(),
{
    let rest = batches.drop_last();
    if r < total_rows(rest) {
        lemma_source_in_range(rest, r);
    } else {
        assert(batches.last() == batches[batches.len() - 1]);
    }
}

/// Sorting keeps rows in their place: where every buffered row goes to one place, so does every
/// sorted row.
pub proof fn law_sorted_rows_keep_their_place(
    router: Router,
    place: Route,
    batches: Seq<RecordBatch>,
    keys: Seq<usize>,
    sorted: RecordBatch,
)
    requires
        batches.len() > 0,
        buffer_wf(batches),
        forall|i: int|
            #![trigger batches[i]]
            0 <= i < batches.len() ==> belongs(router, batches[i], place),
        is_sorted(batches, keys, sorted),
    ensures
        belongs(router, sorted, place),
{
    let rows = choose|rows: Seq<int>| #[trigger] sorted_by(batches, keys, rows, sorted);
    let all = concatenated(batches);
    assert forall|r: int| 0 <= r < batch_rows(sorted) implies #[trigger] row_belongs(
        router,
        batch_columns(sorted),
        r,
        place,
    ) by {
        assert(0 <= rows[r] < total_rows(batches));
        lemma_concatenated_belongs(router, place, batches, rows[r]);
        lemma_selected_row_belongs(router, all, rows, r, place);
    }
    assert forall|j: int| 0 <= j < batch_columns(sorted).len() implies (
    #[trigger] batch_columns(sorted)[j]).len() == batch_rows(sorted) by {
        assert(batch_columns(sorted)[j] == select(all[j], rows));
    }
}

/// Whether a writer is of the kind that the table's keys ask for, and holds only batches of its
/// place.
pub open spec fn writer_holds(
    router: Router,
    keys: Seq<usize>,
    place: Route,
    writer: BucketWriter,
) -> bool {
    match writer {
        BucketWriter::Append(w) => {
            &&& keys.len() == 0
            &&& w.phase matches Phase::Opening { batch, .. } ==> belongs(router, batch, place)
        },
        BucketWriter::KeyValue(w) => {
            &&& keys.len() > 0
            &&& w.primary_key_indices@ == keys
            &&& forall|i: int|
                #![trigger w.buffer@[i]]
                0 <= i < w.buffer@.len() ==> belongs(router, w.buffer@[i], place)
            &&& w.phase matches KeyValuePhase::Opening { batch, .. } ==> written_belongs(
                router,
                keys,
                batch,
                place,
            )
        },
    }
}

/// Whether what is written belongs to the given place.
pub open spec fn action_belongs(
    router: Router,
    keys: Seq<usize>,
    place: Route,
    r: Result<Action, Error>,
) -> bool {
    r matches Ok(Action::WriteBatch { batch }) ==> written_belongs(router, keys, batch, place)
}

proof fn lemma_flush_holds(
    router: Router,
    place: Route,
    pre: KeyValueFileWriter,
    batches: Seq<RecordBatch>,
    committing: bool,
    post: KeyValueFileWriter,
    r: Result<Action, Error>,
)
    requires
        pre.phase is Idle,
        pre.primary_key_indices@.len() > 0,
        batches.len() > 0,
        buffer_wf(batches),
        forall|i: int|
            #![trigger batches[i]]
            0 <= i < batches.len() ==> belongs(router, batches[i], place),
        KeyValueFileWriter::flushes(pre, batches, committing, post, r),
    ensures
        writer_holds(router, pre.primary_key_indices@, place, BucketWriter::KeyValue(post)),
        !(r matches Ok(Action::WriteBatch { .. })),
{
    let keys = pre.primary_key_indices@;
    if r is Ok {
        let sorting = choose|sorting: Result<RecordBatch, Error>|
            {
                &&& #[trigger] sorts(batches, keys, sorting)
                &&& match sorting {
                    Ok(sorted) => {
                        &&& is_sorted(batches, keys, sorted)
                        &&& KeyValueFileWriter::stores(pre, sorted, committing, post, r)
                    },
                    Err(error) => false,
                }
            };
        let sorted = sorting->Ok_0;
        law_sorted_rows_keep_their_place(router, place, batches, keys, sorted);
        match post.phase {
            KeyValuePhase::Opening { batch, .. } => {
                assert(is_physical(sorted, keys, pre.next_sequence_number as int, batch));
            },
            _ => {},
        }
    }
}

proof fn lemma_write_holds(
    router: Router,
    keys: Seq<usize>,
    place: Route,
    pre: BucketWriter,
    batch: RecordBatch,
    post: BucketWriter,
    r: Result<Action, Error>,
)
    requires
        pre.wf(),
        pre.idle(),
        writer_holds(router, keys, place, pre),
        belongs(router, batch, place),
        BucketWriter::writes(pre, batch, post, r),
    ensures
        writer_holds(router, keys, place, post),
        action_belongs(router, keys, place, r),
{
    match (pre, post) {
        (BucketWriter::KeyValue(a), BucketWriter::KeyValue(b)) => {
            let batches = a.buffer@.push(batch);
            let bytes = choose|bytes: usize| #[trigger]
                KeyValueFileWriter::buffers(a, batch, bytes, b, r);
            if batch_rows(batch) > 0 {
                assert forall|i: int| #![trigger batches[i]] 0 <= i < batches.len() implies belongs(
                    router,
                    batches[i],
                    place,
                ) && batch_rows(batches[i]) > 0 by {
                    if i < a.buffer@.len() {
                        assert(batches[i] == a.buffer@[i]);
                    }
                }
                if KeyValueFileWriter::flushes(a, batches, false, b, r) {
                    lemma_flush_holds(router, place, a, batches, false, b, r);
                }
            }
        },
        _ => {},
    }
}

proof fn lemma_resume_holds(
    router: Router,
    keys: Seq<usize>,
    place: Route,
    pre: BucketWriter,
    event: Event,
    post: BucketWriter,
    r: Result<Action, Error>,
)
    requires
        pre.wf(),
        writer_holds(router, keys, place, pre),
        BucketWriter::resumes(pre, event, post, r),
    ensures
        writer_holds(router, keys, place, post),
        action_belongs(router, keys, place, r),
{
}

proof fn lemma_commit_holds(
    router: Router,
    keys: Seq<usize>,
    place: Route,
    pre: BucketWriter,
    post: BucketWriter,
    r: Result<Action, Error>,
)
    requires
        pre.wf(),
        pre.idle(),
        writer_holds(router, keys, place, pre),
        BucketWriter::commits(pre, post, r),
    ensures
        writer_holds(router, keys, place, post),
        action_belongs(router, keys, place, r),
{
    match (pre, post) {
        (BucketWriter::KeyValue(a), BucketWriter::KeyValue(b)) => {
            if a.buffer@.len() > 0 {
                lemma_flush_holds(router, place, a, a.buffer@, true, b, r);
            }
        },
        _ => {},
    }
}

/// Whether the writers hold only batches of their places.
pub open spec fn writers_hold(
    router: Router,
    keys: Seq<usize>,
    writers: Seq<PartitionWriter>,
) -> bool {
    forall|i: int|
        #![trigger writers[i]]
        0 <= i < writers.len() ==> writer_holds(
            router,
            keys,
            writers[i].place(),
            writers[i].writer,
        )
}

/// Whether each part holds only rows of its place.
pub open spec fn parts_belong(router: Router, parts: Seq<RoutedBatch>) -> bool {
    forall|i: int|
        #![trigger parts[i]]
        0 <= i < parts.len() ==> belongs(router, parts[i].batch, parts[i].place())
}

/// Whether everything that a write holds stands with the place that it goes to.
pub open spec fn well_placed(write: TableWrite) -> bool {
    let keys = write.settings.primary_key_indices@;
    &&& writers_hold(write.router, keys, write.partition_writers@)
    &&& writers_hold(write.router, keys, write.drained@)
    &&& all_rectangular(write.queue())
    &&& parts_belong(write.router, write.parts@)
    &&& match write.task {
        Task::Resolving { part } => belongs(write.router, part.batch, part.place()),
        Task::Closing { entry } => writer_holds(write.router, keys, entry.place(), entry.writer),
        _ => true,
    }
}

/// Whether the batch that a step asks to write, if any, holds only rows of the step's bucket.
pub open spec fn step_belongs(write: TableWrite, r: Result<Step, Error>) -> bool {
    r matches Ok(Step::Bucket { partition, bucket, action: Action::WriteBatch { batch } })
        ==> written_belongs(
        write.router,
        write.settings.primary_key_indices@,
        batch,
        (Route { partition: partition@, bucket: bucket as int }),
    )
}

proof fn lemma_write_goes_on_places(
    pre: TableWrite,
    index: int,
    writer: BucketWriter,
    result: Result<Action, Error>,
    post: TableWrite,
    r: Result<Step, Error>,
)
    requires
        well_placed(TableWrite { task: Task::Idle, ..pre }),
        !(pre.task is Closing) && !(pre.task is Resolving),
        0 <= index < pre.partition_writers@.len(),
        writer_holds(
            pre.router,
            pre.settings.primary_key_indices@,
            pre.partition_writers@[index].place(),
            writer,
        ),
        action_belongs(
            pre.router,
            pre.settings.primary_key_indices@,
            pre.partition_writers@[index].place(),
            result,
        ),
        TableWrite::write_goes_on(pre, index, writer, result, post, r),
    ensures
        well_placed(post),
        step_belongs(pre, r),
{
    let entry = pre.partition_writers@[index];
    let keys = pre.settings.primary_key_indices@;
    let writers = post.partition_writers@;
    assert forall|i: int| #![trigger writers[i]] 0 <= i < writers.len() implies writer_holds(
        pre.router,
        keys,
        writers[i].place(),
        writers[i].writer,
    ) by {
        if i == index {
            assert(writers[i] == (PartitionWriter { writer, ..entry }));
            assert(writers[i].place() == entry.place());
        } else {
            assert(writers[i] == pre.partition_writers@[i]);
        }
    }
    assert(writers_hold(post.router, keys, writers));
    match r {
        Ok(Step::Bucket { partition, bucket, action }) => {
            assert((Route { partition: partition@, bucket: bucket as int }) == entry.place());
        },
        _ => {},
    }
}

proof fn lemma_takes_places(
    pre: TableWrite,
    batch: RecordBatch,
    post: TableWrite,
    r: Result<Step, Error>,
)
    requires
        well_placed(TableWrite { task: Task::Idle, ..pre }),
        rectangular(batch),
        TableWrite::takes(pre, batch, post, r),
    ensures
        well_placed(post),
        step_belongs(pre, r),
{
    if batch_rows(batch) > 0 {
        let division = choose|division: Result<Vec<RoutedBatch>, Error>|
            {
                &&& #[trigger] pre.router.division(batch, division)
                &&& match division {
                    Ok(parts) => r matches Ok(step) && TableWrite::rests(
                        TableWrite { parts, ..pre },
                        post,
                        step,
                    ),
                    Err(error) => r == Err::<Step, Error>(error) && TableWrite::abandons(pre, post),
                }
            };
        match division {
            Ok(parts) => {
                assert forall|i: int| #![trigger parts@[i]] 0 <= i < parts@.len() implies belongs(
                    pre.router,
                    parts@[i].batch,
                    parts@[i].place(),
                ) by {
                    law_parts_belong(pre.router, batch, parts, i);
                }
            },
            Err(_) => {},
        }
    }
}

proof fn lemma_writes_at_places(
    pre: TableWrite,
    index: int,
    batch: RecordBatch,
    post: TableWrite,
    r: Result<Step, Error>,
)
    requires
        pre.ready(),
        well_placed(pre),
        pre.task is Idle,
        0 <= index < pre.partition_writers@.len(),
        belongs(pre.router, batch, pre.partition_writers@[index].place()),
        TableWrite::writes_at(pre, index, batch, post, r),
    ensures
        well_placed(post),
        step_belongs(pre, r),
{
    let entry = pre.partition_writers@[index];
    let (writer, result) = choose|writer: BucketWriter, result: Result<Action, Error>|
        {
            &&& #[trigger] BucketWriter::writes(entry.writer, batch, writer, result)
            &&& TableWrite::write_goes_on(pre, index, writer, result, post, r)
        };
    lemma_write_holds(
        pre.router,
        pre.settings.primary_key_indices@,
        entry.place(),
        entry.writer,
        batch,
        writer,
        result,
    );
    lemma_write_goes_on_places(pre, index, writer, result, post, r);
}

proof fn lemma_writes_new_places(
    pre: TableWrite,
    path: Seq<char>,
    part: RoutedBatch,
    post: TableWrite,
    r: Result<Step, Error>,
)
    requires
        pre.ready(),
        !writer_places(pre.partition_writers@).contains(part.place()),
        well_placed(pre),
        pre.task is Idle,
        belongs(pre.router, part.batch, part.place()),
        TableWrite::writes_new(pre, path, part, post, r),
    ensures
        well_placed(post),
        step_belongs(pre, r),
{
    let count = pre.partition_writers@.len() as int;
    let mid = choose|mid: TableWrite|
        {
            &&& #[trigger] pre.adds_writer(path, part, mid)
            &&& TableWrite::writes_at(mid, count, part.batch, post, r)
        };
    lemma_ready_with_writer(pre, path, part, mid);
    let writers = mid.partition_writers@;
    assert forall|i: int| #![trigger writers[i]] 0 <= i < writers.len() implies writer_holds(
        pre.router,
        pre.settings.primary_key_indices@,
        writers[i].place(),
        writers[i].writer,
    ) by {
        if i < count {
            assert(writers.drop_last()[i] == pre.partition_writers@[i]);
        } else {
            assert(writers[i] == writers.last());
        }
    }
    assert(writers[count] == writers.last());
    assert(writers.last().place() == part.place());
    lemma_writes_at_places(mid, count, part.batch, post, r);
}

proof fn lemma_advances_places(pre: TableWrite, post: TableWrite, r: Result<Step, Error>)
    requires
        pre.ready(),
        !pre.queues_empty(),
        well_placed(pre),
        pre.task is Idle,
        TableWrite::advances(pre, post, r),
    ensures
        well_placed(post),
        step_belongs(pre, r),
{
    if pre.parts@.len() > 0 {
        let part = pre.parts@[0];
        let mid = choose|mid: TableWrite|
            {
                &&& #[trigger] pre.drops_part(mid)
                &&& TableWrite::places(mid, part, post, r)
            };
        assert forall|i: int| #![trigger mid.parts@[i]] 0 <= i < mid.parts@.len() implies belongs(
            mid.router,
            mid.parts@[i].batch,
            mid.parts@[i].place(),
        ) by {
            assert(mid.parts@[i] == pre.parts@[i + 1]);
        }
        let place = part.place();
        if writer_places(mid.partition_writers@).contains(place) {
            let i = choose|i: int|
                {
                    &&& 0 <= i < mid.partition_writers@.len()
                    &&& (#[trigger] mid.partition_writers@[i]).place() == place
                    &&& TableWrite::writes_at(mid, i, part.batch, post, r)
                };
            lemma_writes_at_places(mid, i, part.batch, post, r);
        } else if mid.settings.partition_keys@.len() == 0 {
            lemma_writes_new_places(mid, Seq::empty(), part, post, r);
        }
    } else {
        let batch = pre.queue()[0];
        let mid = choose|mid: TableWrite|
            {
                &&& #[trigger] pre.drops_batch(mid)
                &&& TableWrite::takes(mid, batch, post, r)
            };
        lemma_next_batch(pre, mid);
        assert forall|i: int|
            #![trigger mid.queue()[i]]
            0 <= i < mid.queue().len() implies rectangular(mid.queue()[i]) by {
            assert(mid.queue()[i] == pre.queue()[i + 1]);
        }
        lemma_takes_places(mid, batch, post, r);
    }
}

proof fn lemma_commit_goes_on_places(
    pre: TableWrite,
    entry: PartitionWriter,
    result: Result<Action, Error>,
    post: TableWrite,
    r: Result<Step, Error>,
)
    requires
        well_placed(pre),
        pre.task is Idle,
        writer_holds(
            pre.router,
            pre.settings.primary_key_indices@,
            entry.place(),
            entry.writer,
        ),
        action_belongs(pre.router, pre.settings.primary_key_indices@, entry.place(), result),
        TableWrite::commit_goes_on(pre, entry, result, post, r),
    ensures
        well_placed(post),
        step_belongs(pre, r),
{
    match r {
        Ok(Step::Bucket { partition, bucket, action }) => {
            assert((Route { partition: partition@, bucket: bucket as int }) == entry.place());
        },
        _ => {},
    }
}

proof fn lemma_drains_places(pre: TableWrite, post: TableWrite, r: Result<Step, Error>)
    requires
        pre.ready_to_commit(Seq::empty()),
        well_placed(pre),
        pre.task is Idle,
        TableWrite::drains(pre, post, r),
    ensures
        well_placed(post),
        step_belongs(pre, r),
{
    if pre.drained@.len() > 0 {
        let keys = pre.settings.primary_key_indices@;
        let entry = pre.drained@[0];
        let (mid, writer, result) = choose|
            mid: TableWrite,
            writer: BucketWriter,
            result: Result<Action, Error>,
        |
            {
                &&& #[trigger] pre.drops_drained(mid)
                &&& #[trigger] BucketWriter::commits(entry.writer, writer, result)
                &&& TableWrite::commit_goes_on(
                    mid,
                    PartitionWriter { writer, ..entry },
                    result,
                    post,
                    r,
                )
            };
        assert forall|i: int| #![trigger mid.drained@[i]] 0 <= i < mid.drained@.len() implies
            writer_holds(pre.router, keys, mid.drained@[i].place(), mid.drained@[i].writer) by {
            assert(mid.drained@[i] == pre.drained@[i + 1]);
        }
        lemma_commit_holds(pre.router, keys, entry.place(), entry.writer, writer, result);
        let closing = PartitionWriter { writer, ..entry };
        assert(closing.place() == entry.place());
        lemma_commit_goes_on_places(mid, closing, result, post, r);
    }
}

/// A new write holds nothing, and so nothing in the wrong place.
pub proof fn law_new_write_is_well_placed(
    write: TableWrite,
    table: Table,
    next_sequence_number: i64,
)
    requires
        write.wf(),
        write.writes_to(table, next_sequence_number),
    ensures
        well_placed(write),
{
}

/// Writing a batch keeps everything with the place that it goes to.
pub proof fn law_table_write_keeps_places(
    pre: TableWrite,
    batch: RecordBatch,
    post: TableWrite,
    r: Result<Step, Error>,
)
    requires
        pre.wf(),
        pre.task is Idle,
        well_placed(pre),
        rectangular(batch),
        TableWrite::takes(pre, batch, post, r),
    ensures
        well_placed(post),
        step_belongs(pre, r),
{
    lemma_takes_places(pre, batch, post, r);
}

/// Writing several batches keeps everything with the place that it goes to.
pub proof fn law_table_write_all_keeps_places(
    pre: TableWrite,
    batches: Seq<RecordBatch>,
    post: TableWrite,
    r: Result<Step, Error>,
)
    requires
        pre.wf(),
        pre.task is Idle,
        well_placed(pre),
        all_rectangular(batches),
        TableWrite::queues(pre, batches, post, r),
    ensures
        well_placed(post),
        step_belongs(pre, r),
{
}

/// The start of a commit keeps everything with the place that it goes to.
pub proof fn law_table_commit_keeps_places(
    pre: TableWrite,
    post: TableWrite,
    r: Result<Step, Error>,
)
    requires
        pre.wf(),
        pre.task is Idle,
        well_placed(pre),
        TableWrite::commits(pre, post, r),
    ensures
        well_placed(post),
        step_belongs(pre, r),
{
    let mid = choose|mid: TableWrite|
        {
            &&& #[trigger] pre.drains_all(mid)
            &&& TableWrite::drains(mid, post, r)
        };
    lemma_drains_all_ready(pre, mid);
    lemma_drains_places(mid, post, r);
}

/// Every answer keeps everything with the place that it goes to: whatever a write asks to write
/// to the files of a bucket holds only rows that go to that bucket of that partition.
pub proof fn law_table_resume_keeps_places(
    pre: TableWrite,
    event: Event,
    post: TableWrite,
    r: Result<Step, Error>,
)
    requires
        pre.wf(),
        well_placed(pre),
        TableWrite::resumes(pre, event, post, r),
    ensures
        well_placed(post),
        step_belongs(pre, r),
{
    let keys = pre.settings.primary_key_indices@;
    let free = TableWrite { task: Task::Idle, ..pre };
    match (pre.task, event) {
        (Task::Writing { index }, _) => {
            let entry = pre.partition_writers@[index as int];
            let (writer, result) = choose|writer: BucketWriter, result: Result<Action, Error>|
                {
                    &&& #[trigger] BucketWriter::resumes(entry.writer, event, writer, result)
                    &&& TableWrite::write_goes_on(pre, index as int, writer, result, post, r)
                };
            lemma_resume_holds(
                pre.router,
                keys,
                entry.place(),
                entry.writer,
                event,
                writer,
                result,
            );
            lemma_write_goes_on_places(pre, index as int, writer, result, post, r);
        },
        (Task::Closing { entry }, _) => {
            let (writer, result) = choose|writer: BucketWriter, result: Result<Action, Error>|
                {
                    &&& #[trigger] BucketWriter::resumes(entry.writer, event, writer, result)
                    &&& TableWrite::commit_goes_on(
                        free,
                        PartitionWriter { writer, ..entry },
                        result,
                        post,
                        r,
                    )
                };
            let closing = PartitionWriter { writer, ..entry };
            assert(closing.place() == entry.place());
            lemma_resume_holds(
                pre.router,
                keys,
                entry.place(),
                entry.writer,
                event,
                writer,
                result,
            );
            lemma_commit_goes_on_places(free, closing, result, post, r);
        },
        (_, Event::Failed { error }) => {},
        (Task::Between, Event::Done) => {
            lemma_advances_places(free, post, r);
        },
        (Task::Resolving { part }, Event::PartitionPath { path }) => {
            lemma_writes_new_places(free, path@, part, post, r);
        },
        (Task::Draining, Event::Done) => {
            lemma_drains_places(free, post, r);
        },
        _ => {},
    }
}

} // verus!
