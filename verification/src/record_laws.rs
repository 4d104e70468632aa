//! What is recorded of a file, and when files are begun, flushed and closed.

use crate::arrow::{
    batch_columns, batch_rows, batch_schema, can_measure, column_at, total_rows, RecordBatch,
};
use crate::binary_row::{le_bytes, serialized_row, RowCell};
use crate::bucket_writer::BucketWriter;
use crate::data_file_writer::{is_first_named, DataFileWriter, Phase};
use crate::error::Error;
use crate::files::{is_file_name, WriterConfig};
use crate::flush_laws::law_write_uses_a_number_for_each_row;
use crate::key_value_writer::{
    counted, measures_columns, sums_columns, KeyValueFileWriter, KeyValuePhase,
};
use crate::meta::{is_append_file, DataFileMeta, FileReceipt};
use crate::nested::sum_of;
use crate::protocol::{Action, Event, Step};
use crate::route::RoutedBatch;
use crate::table_write::{writer_places, PartitionWriter, TableWrite, Task};
use vstd::prelude::*;

verus! {

/// Whether a record says of a file what every new file has in common: nothing is known of its
/// columns, none of its rows is deleted, and it has just been closed.
pub open spec fn records_new_file(
    meta: DataFileMeta,
    receipt: FileReceipt,
    schema_id: i64,
) -> bool {
    let zeros = Seq::new(12, |i: int| 0u8);
    &&& meta.file_size == receipt.file_size as i64
    &&& meta.creation_time == Some(receipt.creation_time)
    &&& meta.schema_id == schema_id
    &&& meta.level == 0
    &&& meta.delete_row_count == Some(0i64)
    &&& meta.file_source == Some(0i32)
    &&& meta.key_stats.min_values@ == zeros
    &&& meta.key_stats.max_values@ == zeros
    &&& meta.key_stats.null_counts@.len() == 0
    &&& meta.value_stats.min_values@ == zeros
    &&& meta.value_stats.max_values@ == zeros
    &&& meta.value_stats.null_counts@.len() == 0
    &&& meta.extra_files@.len() == 0
    &&& meta.value_stats_cols matches Some(cols) && cols@.len() == 0
    &&& meta.embedded_index is None
    &&& meta.external_path is None
    &&& meta.first_row_id is None
    &&& meta.write_cols is None
}

proof fn lemma_empty_row()
    ensures
        serialized_row(Seq::<RowCell>::empty()) == Seq::new(12, |i: int| 0u8),
{
    reveal_with_fuel(le_bytes, 5);
    assert(serialized_row(Seq::<RowCell>::empty()) =~= Seq::new(12, |i: int| 0u8));
}

/// A primary-key file that is closed is recorded, after those before it, with the name, the rows,
/// the keys and the sequence numbers that it was begun with.
pub proof fn law_key_value_file_is_recorded(
    pre: KeyValueFileWriter,
    receipt: FileReceipt,
    post: KeyValueFileWriter,
    action: Action,
)
    requires
        pre.phase is Closing,
        KeyValueFileWriter::resumes(
            pre,
            Event::Closed { receipt },
            post,
            Ok::<Action, Error>(action),
        ),
    ensures
        ({
            let file = pre.phase->Closing_file;
            let files = if pre.committing {
                action->files@
            } else {
                post.written_files@
            };
            let meta = files.last();
            &&& action is Files <==> pre.committing
            &&& !pre.committing ==> action is Done
            &&& files.len() == pre.written_files@.len() + 1
            &&& files.drop_last() == pre.written_files@
            &&& meta.file_name@ == file.file_name@
            &&& meta.row_count == file.row_count
            &&& meta.min_key@ == file.min_key@
            &&& meta.max_key@ == file.max_key@
            &&& meta.min_sequence_number == file.min_sequence_number
            &&& meta.max_sequence_number == file.max_sequence_number
            &&& records_new_file(meta, receipt, pre.config.schema_id)
        }),
{
    lemma_empty_row();
    let file = pre.phase->Closing_file;
    let meta = choose|meta: DataFileMeta|
        {
            &&& #[trigger] KeyValueFileWriter::records(pre, file, receipt, meta)
            &&& if pre.committing {
                KeyValueFileWriter::settles(
                    pre,
                    pre.written_files@.push(meta),
                    post,
                    Ok::<Action, Error>(action),
                )
            } else {
                &&& action is Done
                &&& post.written_files@ == pre.written_files@.push(meta)
            }
        };
    assert(pre.written_files@.push(meta).drop_last() =~= pre.written_files@);
}

/// A file that a primary-key writer has begun is given its rows once it is open, and closed once
/// they are written; what is to be recorded of it stays as it was.
pub proof fn law_key_value_file_is_written_and_closed(
    pre: KeyValueFileWriter,
    event: Event,
    post: KeyValueFileWriter,
    r: Result<Action, Error>,
)
    requires
        KeyValueFileWriter::resumes(pre, event, post, r),
    ensures
        pre.phase is Opening && event is Done ==> {
            &&& r == Ok::<Action, Error>(Action::WriteBatch { batch: pre.phase->Opening_batch })
            &&& post.phase == (KeyValuePhase::Writing { file: pre.phase->Opening_file })
        },
        pre.phase is Writing && event is Written ==> {
            &&& r == Ok::<Action, Error>(Action::CloseFile)
            &&& post.phase == (KeyValuePhase::Closing { file: pre.phase->Writing_file })
        },
        !(pre.phase is Closing && event is Closed) ==> post.written_files == pre.written_files,
        event matches Event::Failed { error } ==> r == Err::<Action, Error>(error)
            && post.phase is Idle,
        post.buffer == pre.buffer,
        post.buffer_bytes == pre.buffer_bytes,
        post.config == pre.config,
        post.primary_key_indices == pre.primary_key_indices,
{
}

/// A primary-key writer buffers batches until they have more bytes than its buffer, and then
/// sends all of them away at once. A batch without rows is passed over.
pub proof fn law_buffer_is_flushed_when_full(
    pre: KeyValueFileWriter,
    batch: RecordBatch,
    bytes: usize,
    post: KeyValueFileWriter,
    r: Result<Action, Error>,
)
    requires
        KeyValueFileWriter::buffers(pre, batch, bytes, post, r),
        pre.buffer_bytes + bytes <= i64::MAX,
        pre.buffer_bytes + bytes <= usize::MAX,
    ensures
        batch_rows(batch) == 0 ==> r == Ok::<Action, Error>(Action::Done) && post == pre,
        batch_rows(batch) > 0 && pre.buffer_bytes + bytes <= pre.config.write_buffer_size ==> {
            &&& r == Ok::<Action, Error>(Action::Done)
            &&& post.buffer@ == pre.buffer@.push(batch)
            &&& post.buffer_bytes == pre.buffer_bytes + bytes
            &&& post.next_sequence_number == pre.next_sequence_number
            &&& post.written_files == pre.written_files
            &&& post.phase == pre.phase
        },
        batch_rows(batch) > 0 && pre.buffer_bytes + bytes > pre.config.write_buffer_size ==> {
            &&& r matches Ok(action) ==> action is OpenFile
            &&& post.buffer@.len() == 0
            &&& post.buffer_bytes == 0
            &&& post.written_files == pre.written_files
        },
{
}

/// The size of a batch goes by all of its columns.
pub proof fn law_every_column_is_measured(batch: RecordBatch, bytes: usize) -> (sizes: Seq<usize>)
    requires
        sums_columns(batch, bytes),
    ensures
        sizes.len() == batch_columns(batch).len(),
        forall|j: int|
            0 <= j < sizes.len() ==> can_measure(column_at(batch, j), #[trigger] sizes[j]),
        bytes == counted(sizes),
{
    choose|sizes: Seq<usize>| #[trigger]
        measures_columns(batch, sizes) && bytes == counted(sizes)
}

/// The size of a batch is the sum of those of its columns, or the largest number where that is
/// larger still.
pub proof fn law_sizes_are_summed(sizes: Seq<usize>, size: usize)
    ensures
        counted(Seq::empty()) == 0,
        counted(sizes.push(size)) == if counted(sizes) + size > usize::MAX {
            usize::MAX as int
        } else {
            counted(sizes) + size
        },
{
    assert(sizes.push(size).drop_last() =~= sizes);
    lemma_sum_not_negative(sizes);
}

proof fn lemma_sum_not_negative(sizes: Seq<usize>)
    ensures
        sum_of(sizes) >= 0,
    decreases sizes.len(),
{
    if sizes.len() > 0 {
        lemma_sum_not_negative(sizes.drop_last());
    }
}

/// An append-only writer gives each batch with rows to its open file as it is, and opens one first
/// where none is open.
pub proof fn law_append_gives_batches_to_the_file(
    pre: DataFileWriter,
    batch: RecordBatch,
    post: DataFileWriter,
    action: Action,
)
    requires
        DataFileWriter::writes(pre, batch, post, Ok::<Action, Error>(action)),
    ensures
        batch_rows(batch) == 0 ==> action is Done && post == pre,
        batch_rows(batch) > 0 && pre.current_file_name is Some ==> {
            &&& action == (Action::WriteBatch { batch })
            &&& post.current_file_name == pre.current_file_name
            &&& post.current_row_count == pre.current_row_count + batch_rows(batch)
            &&& post.phase is Writing
        },
        batch_rows(batch) > 0 && pre.current_file_name is None ==> {
            &&& action matches Action::OpenFile { file, schema }
            &&& post.phase is Opening
            &&& post.phase->Opening_batch == batch
            &&& is_file_name(
                post.phase->Opening_file_name@,
                pre.written_files@.len() as int,
            )
            &&& pre.config.creates(post.phase->Opening_file_name@, file)
            &&& file.path@ == file.directory@ + post.phase->Opening_file_name@
            &&& *schema == batch_schema(batch)
        },
        post.written_files == pre.written_files,
        post.in_flight == pre.in_flight,
        post.config == pre.config,
{
}

/// A batch for which a file was opened is given to that file, which then has its rows alone.
pub proof fn law_append_gives_the_first_batch(
    pre: DataFileWriter,
    post: DataFileWriter,
    action: Action,
)
    requires
        pre.phase is Opening,
        DataFileWriter::resumes(pre, Event::Done, post, Ok::<Action, Error>(action)),
    ensures
        action == (Action::WriteBatch { batch: pre.phase->Opening_batch }),
        post.current_file_name == Some(pre.phase->Opening_file_name),
        post.current_row_count == batch_rows(pre.phase->Opening_batch),
        post.phase is Writing,
        post.written_files == pre.written_files,
        post.in_flight == pre.in_flight,
{
}

/// A file is closed in the background as soon as it has the target size, with all its rows, and
/// no batch is given to it any more. A smaller file is flushed where it buffers as much as the
/// writer may, and stays open.
pub proof fn law_full_file_is_closed(
    pre: DataFileWriter,
    num_bytes: usize,
    in_progress_size: usize,
    post: DataFileWriter,
    action: Action,
)
    requires
        pre.wf(),
        pre.phase is Writing,
        num_bytes <= i64::MAX,
        in_progress_size <= i64::MAX,
        DataFileWriter::resumes(
            pre,
            Event::Written { num_bytes, in_progress_size },
            post,
            Ok::<Action, Error>(action),
        ),
    ensures
        num_bytes >= pre.config.target_file_size ==> {
            &&& action matches Action::CloseInBackground { file_name } && Some(file_name)
                == pre.current_file_name
            &&& post.in_flight@.len() == pre.in_flight@.len() + 1
            &&& post.in_flight@.drop_last() == pre.in_flight@
            &&& Some(post.in_flight@.last().file_name) == pre.current_file_name
            &&& post.in_flight@.last().row_count == pre.current_row_count
            &&& post.current_file_name is None
            &&& post.current_row_count == 0
        },
        num_bytes < pre.config.target_file_size ==> {
            &&& in_progress_size >= pre.config.write_buffer_size ==> action is FlushFile
            &&& in_progress_size < pre.config.write_buffer_size ==> action is Done
            &&& post.in_flight == pre.in_flight
            &&& post.current_file_name == pre.current_file_name
            &&& post.current_row_count == pre.current_row_count
        },
        post.written_files == pre.written_files,
{
    if num_bytes >= pre.config.target_file_size {
        assert(post.in_flight@.drop_last() =~= pre.in_flight@);
    }
}

/// The files of an append-only writer that are closed: those handed over, or those kept while
/// others are being closed.
pub open spec fn files_after(post: DataFileWriter, action: Action) -> Seq<DataFileMeta> {
    match action {
        Action::Files { files } => files@,
        _ => post.written_files@,
    }
}

/// The last file of a commit is recorded when it is closed, with its name and all its rows, and
/// without keys or sequence numbers.
pub proof fn law_append_file_is_recorded(
    pre: DataFileWriter,
    receipt: FileReceipt,
    post: DataFileWriter,
    action: Action,
)
    requires
        pre.phase is Closing,
        DataFileWriter::resumes(pre, Event::Closed { receipt }, post, Ok::<Action, Error>(action)),
    ensures
        ({
            let files = files_after(post, action);
            let meta = files.last();
            &&& action is Files <==> pre.in_flight@.len() == 0
            &&& !(action is Files) ==> action is AwaitClose
            &&& files.len() == pre.written_files@.len() + 1
            &&& files.drop_last() == pre.written_files@
            &&& meta.file_name@ == pre.phase->Closing_file_name@
            &&& meta.row_count == pre.phase->Closing_row_count
            &&& meta.min_key@ == Seq::new(12, |i: int| 0u8)
            &&& meta.max_key@ == Seq::new(12, |i: int| 0u8)
            &&& meta.min_sequence_number == 0
            &&& meta.max_sequence_number == 0
            &&& records_new_file(meta, receipt, pre.config.schema_id)
        }),
{
    lemma_empty_row();
    let meta = choose|meta: DataFileMeta|
        {
            &&& #[trigger] is_append_file(
                meta,
                pre.phase->Closing_file_name@,
                receipt,
                pre.phase->Closing_row_count,
                pre.config.schema_id,
            )
            &&& DataFileWriter::settles(
                pre,
                pre.written_files@.push(meta),
                pre.in_flight@,
                post,
                Ok::<Action, Error>(action),
            )
        };
    assert(pre.written_files@.push(meta).drop_last() =~= pre.written_files@);
}

/// A file that was closed in the background is recorded under its name, with the rows that it had
/// when it was full, and is waited for no more.
pub proof fn law_background_file_is_recorded(
    pre: DataFileWriter,
    file_name: String,
    receipt: FileReceipt,
    post: DataFileWriter,
    action: Action,
)
    requires
        pre.phase is Joining,
        DataFileWriter::resumes(
            pre,
            Event::ClosedInBackground { file_name, receipt },
            post,
            Ok::<Action, Error>(action),
        ),
    ensures
        ({
            let files = files_after(post, action);
            let meta = files.last();
            &&& files.len() == pre.written_files@.len() + 1
            &&& files.drop_last() == pre.written_files@
            &&& meta.file_name@ == file_name@
            &&& meta.min_key@ == Seq::new(12, |i: int| 0u8)
            &&& meta.max_key@ == Seq::new(12, |i: int| 0u8)
            &&& meta.min_sequence_number == 0
            &&& meta.max_sequence_number == 0
            &&& records_new_file(meta, receipt, pre.config.schema_id)
            &&& exists|i: int|
                {
                    &&& 0 <= i < pre.in_flight@.len()
                    &&& (#[trigger] pre.in_flight@[i]).file_name@ == file_name@
                    &&& meta.row_count == pre.in_flight@[i].row_count
                    &&& post.in_flight@ == pre.in_flight@.remove(i)
                }
            &&& action is Files <==> post.in_flight@.len() == 0
        }),
{
    lemma_empty_row();
    let (i, meta) = choose|i: int, meta: DataFileMeta|
        {
            &&& #[trigger] is_first_named(pre.in_flight@, file_name@, i)
            &&& #[trigger] is_append_file(
                meta,
                file_name@,
                receipt,
                pre.in_flight@[i].row_count,
                pre.config.schema_id,
            )
            &&& DataFileWriter::settles(
                pre,
                pre.written_files@.push(meta),
                pre.in_flight@.remove(i),
                post,
                Ok::<Action, Error>(action),
            )
        };
    assert(pre.written_files@.push(meta).drop_last() =~= pre.written_files@);
    assert(pre.in_flight@[i].file_name@ == file_name@);
}

/// What the writer of a bucket is told.
pub open spec fn config_of(writer: BucketWriter) -> WriterConfig {
    match writer {
        BucketWriter::Append(w) => w.config,
        BucketWriter::KeyValue(w) => w.config,
    }
}

/// The writer that is made for a part stands below the directory of the part's partition, and is
/// told of the table what the write knows; it sorts by the primary key exactly where the table
/// has one, and numbers its rows from the write's first number on.
pub proof fn law_new_writer_is_told_of_the_table(
    pre: TableWrite,
    path: String,
    post: TableWrite,
    r: Result<Step, Error>,
)
    requires
        pre.task is Resolving,
        TableWrite::resumes(pre, Event::PartitionPath { path }, post, r),
    ensures
        ({
            let part = pre.task->part;
            let entry = post.partition_writers@.last();
            let config = config_of(entry.writer);
            &&& post.partition_writers@.len() == pre.partition_writers@.len() + 1
            &&& post.partition_writers@.drop_last() == pre.partition_writers@
            &&& entry.partition@ == part.partition@
            &&& entry.bucket == part.bucket
            &&& config.table_location@ == pre.settings.location@
            &&& config.partition_path@ == path@
            &&& config.bucket == part.bucket
            &&& config.schema_id == pre.settings.schema_id
            &&& config.target_file_size == pre.settings.target_file_size
            &&& config.file_compression@ == pre.settings.file_compression@
            &&& config.file_compression_zstd_level == pre.settings.file_compression_zstd_level
            &&& config.write_buffer_size == pre.settings.write_buffer_size
            &&& entry.writer is KeyValue <==> pre.settings.primary_key_indices@.len() > 0
            &&& entry.writer matches BucketWriter::KeyValue(w) ==> {
                &&& w.primary_key_indices@ == pre.settings.primary_key_indices@
                &&& w.next_sequence_number == pre.settings.next_sequence_number
                    || w.next_sequence_number == pre.settings.next_sequence_number + batch_rows(
                    part.batch,
                )
            }
        }),
{
    let free = TableWrite { task: Task::Idle, ..pre };
    let part = pre.task->part;
    lemma_new_writer(free, path@, part, post, r);
}

proof fn lemma_write_action(
    pre: KeyValueFileWriter,
    batch: RecordBatch,
    post: KeyValueFileWriter,
    r: Result<Action, Error>,
)
    requires
        KeyValueFileWriter::writes(pre, batch, post, r),
    ensures
        r matches Ok(action) ==> action is Done || action is OpenFile,
{
}

#[verifier::rlimit(50)]
proof fn lemma_new_writer(
    pre: TableWrite,
    path: Seq<char>,
    part: RoutedBatch,
    post: TableWrite,
    r: Result<Step, Error>,
)
    requires
        TableWrite::writes_new(pre, path, part, post, r),
    ensures
        ({
            let entry = post.partition_writers@.last();
            let config = config_of(entry.writer);
            &&& post.partition_writers@.len() == pre.partition_writers@.len() + 1
            &&& post.partition_writers@.drop_last() == pre.partition_writers@
            &&& entry.partition@ == part.partition@
            &&& entry.bucket == part.bucket
            &&& pre.settings.configures(path, part.bucket, config)
            &&& entry.writer is KeyValue <==> pre.settings.primary_key_indices@.len() > 0
            &&& entry.writer matches BucketWriter::KeyValue(w) ==> {
                &&& w.primary_key_indices@ == pre.settings.primary_key_indices@
                &&& w.next_sequence_number == pre.settings.next_sequence_number
                    || w.next_sequence_number == pre.settings.next_sequence_number + batch_rows(
                    part.batch,
                )
            }
        }),
{
    let mid = choose|mid: TableWrite|
        {
            &&& #[trigger] pre.adds_writer(path, part, mid)
            &&& TableWrite::writes_at(
                mid,
                pre.partition_writers@.len() as int,
                part.batch,
                post,
                r,
            )
        };
    let index = pre.partition_writers@.len() as int;
    let (writer, result) = choose|writer: BucketWriter, result: Result<Action, Error>|
        {
            &&& #[trigger] BucketWriter::writes(
                mid.partition_writers@[index].writer,
                part.batch,
                writer,
                result,
            )
            &&& TableWrite::write_goes_on(mid, index, writer, result, post, r)
        };
    assert(post.partition_writers@.drop_last() =~= pre.partition_writers@) by {
        assert(mid.partition_writers@.drop_last() =~= pre.partition_writers@);
    }
    assert(config_of(writer) == config_of(mid.partition_writers@[index].writer));
    if let (BucketWriter::KeyValue(a), BucketWriter::KeyValue(b)) = (
        mid.partition_writers@[index].writer,
        writer,
    ) {
        law_write_uses_a_number_for_each_row(a, part.batch, b, result);
        assert(total_rows(a.buffer@) == 0);
        lemma_write_action(a, part.batch, b, result);
    }
}

/// A part whose place has no writer yet: in a table without partition keys a new writer is made
/// for it right below the table; else the directory of its partition is asked for first.
pub proof fn law_part_of_a_new_place(
    pre: TableWrite,
    part: RoutedBatch,
    post: TableWrite,
    r: Result<Step, Error>,
)
    requires
        TableWrite::places(pre, part, post, r),
        forall|i: int|
            0 <= i < pre.partition_writers@.len() ==> (#[trigger] pre.partition_writers@[i]).bucket
                != part.bucket || pre.partition_writers@[i].partition@ != part.partition@,
    ensures
        pre.settings.partition_keys@.len() > 0 ==> {
            &&& r matches Ok(Step::ResolvePartition { partition })
            &&& partition@ == part.partition@
            &&& post.partition_writers == pre.partition_writers
            &&& post.task == (Task::Resolving { part })
        },
        pre.settings.partition_keys@.len() == 0 ==> {
            let entry = post.partition_writers@.last();
            let config = config_of(entry.writer);
            &&& post.partition_writers@.len() == pre.partition_writers@.len() + 1
            &&& post.partition_writers@.drop_last() == pre.partition_writers@
            &&& entry.partition@ == part.partition@
            &&& entry.bucket == part.bucket
            &&& config.table_location@ == pre.settings.location@
            &&& config.partition_path@.len() == 0
            &&& config.bucket == part.bucket
            &&& config.schema_id == pre.settings.schema_id
            &&& config.target_file_size == pre.settings.target_file_size
            &&& config.file_compression@ == pre.settings.file_compression@
            &&& config.file_compression_zstd_level == pre.settings.file_compression_zstd_level
            &&& config.write_buffer_size == pre.settings.write_buffer_size
            &&& entry.writer is KeyValue <==> pre.settings.primary_key_indices@.len() > 0
            &&& entry.writer matches BucketWriter::KeyValue(w) ==> {
                &&& w.primary_key_indices@ == pre.settings.primary_key_indices@
                &&& w.next_sequence_number == pre.settings.next_sequence_number
                    || w.next_sequence_number == pre.settings.next_sequence_number + batch_rows(
                    part.batch,
                )
            }
        },
{
    if writer_places(pre.partition_writers@).contains(part.place()) {
        let i = choose|i: int|
            0 <= i < pre.partition_writers@.len() && #[trigger] writer_places(
                pre.partition_writers@,
            )[i] == part.place();
        assert(pre.partition_writers@[i].bucket == part.bucket);
    }
    if pre.settings.partition_keys@.len() == 0 {
        lemma_new_writer(pre, Seq::empty(), part, post, r);
    }
}

/// A part whose place has a writer is taken by that writer, and no other writer changes.
pub proof fn law_part_of_a_known_place(
    pre: TableWrite,
    part: RoutedBatch,
    post: TableWrite,
    r: Result<Step, Error>,
    i: int,
) -> (result: Result<Action, Error>)
    requires
        pre.ready(),
        TableWrite::places(pre, part, post, r),
        0 <= i < pre.partition_writers@.len(),
        pre.partition_writers@[i].partition@ == part.partition@,
        pre.partition_writers@[i].bucket == part.bucket,
    ensures
        post.partition_writers@.len() == pre.partition_writers@.len(),
        forall|j: int|
            0 <= j < pre.partition_writers@.len() && j != i ==> #[trigger] post.partition_writers@[j]
                == pre.partition_writers@[j],
        post.partition_writers@[i].partition@ == part.partition@,
        post.partition_writers@[i].bucket == part.bucket,
        BucketWriter::writes(
            pre.partition_writers@[i].writer,
            part.batch,
            post.partition_writers@[i].writer,
            result,
        ),
        result matches Err(error) ==> r == Err::<Step, Error>(error),
        result matches Ok(action) ==> {
            &&& r is Ok
            &&& !(action is Done) ==> {
                &&& r matches Ok(Step::Bucket { partition, bucket, action: asked })
                &&& partition@ == part.partition@
                &&& bucket == part.bucket
                &&& asked == action
            }
        },
{
    let places = writer_places(pre.partition_writers@);
    assert(places[i] == part.place());
    assert(places.contains(part.place()));
    let k = choose|k: int|
        {
            &&& 0 <= k < pre.partition_writers@.len()
            &&& (#[trigger] pre.partition_writers@[k]).place() == part.place()
            &&& TableWrite::writes_at(pre, k, part.batch, post, r)
        };
    assert(places[k] == places[i]);
    assert(k == i);
    let (writer, result) = choose|writer: BucketWriter, result: Result<Action, Error>|
        {
            &&& #[trigger] BucketWriter::writes(
                pre.partition_writers@[k].writer,
                part.batch,
                writer,
                result,
            )
            &&& TableWrite::write_goes_on(pre, k, writer, result, post, r)
        };
    result
}

/// What a write knows of its table, and how it routes rows, never changes.
#[verifier::rlimit(50)]
pub proof fn law_settings_stay(
    pre: TableWrite,
    batch: RecordBatch,
    batches: Seq<RecordBatch>,
    event: Event,
    post: TableWrite,
    r: Result<Step, Error>,
)
    requires
        TableWrite::takes(pre, batch, post, r) || TableWrite::queues(pre, batches, post, r)
            || TableWrite::commits(pre, post, r) || TableWrite::resumes(pre, event, post, r),
    ensures
        post.settings == pre.settings,
        post.router == pre.router,
{
}

/// A commit of an append-only writer closes the open file first; without one it waits for the
/// files that are being closed, and hands all closed files over where there are none.
pub proof fn law_append_commit_begins(
    pre: DataFileWriter,
    post: DataFileWriter,
    r: Result<Action, Error>,
)
    requires
        DataFileWriter::commits(pre, post, r),
    ensures
        pre.current_file_name matches Some(name) ==> {
            &&& r == Ok::<Action, Error>(Action::CloseFile)
            &&& post.phase == (Phase::Closing { file_name: name, row_count: pre.current_row_count })
            &&& post.written_files == pre.written_files
            &&& post.in_flight == pre.in_flight
        },
        pre.current_file_name is None && pre.in_flight@.len() > 0 ==> {
            &&& r == Ok::<Action, Error>(Action::AwaitClose)
            &&& post.phase is Joining
            &&& post.written_files@ == pre.written_files@
            &&& post.in_flight@ == pre.in_flight@
        },
        pre.current_file_name is None && pre.in_flight@.len() == 0 ==> {
            &&& r matches Ok(Action::Files { files }) && files@ == pre.written_files@
            &&& post.phase is Idle
            &&& post.written_files@.len() == 0
        },
        post.current_file_name is None,
{
}

/// A commit of a primary-key writer with nothing buffered hands all closed files over; else it
/// asks for a file for what is buffered, or fails.
pub proof fn law_key_value_commit_begins(
    pre: KeyValueFileWriter,
    post: KeyValueFileWriter,
    r: Result<Action, Error>,
)
    requires
        KeyValueFileWriter::commits(pre, post, r),
    ensures
        pre.buffer@.len() == 0 ==> {
            &&& r matches Ok(Action::Files { files }) && files@ == pre.written_files@
            &&& post.phase is Idle
            &&& post.written_files@.len() == 0
            &&& post.next_sequence_number == pre.next_sequence_number
        },
        pre.buffer@.len() > 0 ==> {
            &&& r matches Ok(action) ==> action is OpenFile && post.committing
            &&& post.written_files == pre.written_files
            &&& post.buffer@.len() == 0
            &&& post.buffer_bytes == 0
        },
{
}

/// A task that panics while it closes a file is told of in words, and its file is given up.
pub proof fn law_panic_is_told(
    pre: DataFileWriter,
    file_name: String,
    text: String,
    post: DataFileWriter,
    r: Result<Action, Error>,
)
    requires
        pre.phase is Joining,
        exists|i: int| is_first_named(pre.in_flight@, file_name@, i),
        DataFileWriter::resumes(pre, Event::ClosePanicked { file_name, text }, post, r),
    ensures
        r matches Err(Error::DataInvalid { message }) && message@
            == "Background file close task panicked: "@ + text@,
        post.in_flight@.len() == pre.in_flight@.len() - 1,
        post.phase is Idle,
        post.written_files == pre.written_files,
{
}

/// The files that a writer has finished go to the commit in a message of their own, with the
/// writer's partition and bucket, behind the messages before it; a writer without files has none.
/// The messages are handed over after the last writer.
pub proof fn law_message_of_a_writer(
    pre: TableWrite,
    entry: PartitionWriter,
    files: Vec<DataFileMeta>,
    post: TableWrite,
    r: Result<Step, Error>,
)
    requires
        TableWrite::commit_goes_on(
            pre,
            entry,
            Ok::<Action, Error>(Action::Files { files }),
            post,
            r,
        ),
    ensures
        ({
            let messages = match r {
                Ok(Step::Committed { messages }) => messages@,
                _ => post.messages@,
            };
            &&& r is Ok
            &&& r->Ok_0 is Committed <==> pre.drained@.len() == 0
            &&& files@.len() == 0 ==> messages == pre.messages@
            &&& files@.len() > 0 ==> {
                &&& messages.len() == pre.messages@.len() + 1
                &&& messages.drop_last() == pre.messages@
                &&& messages.last().partition@ == entry.partition@
                &&& messages.last().bucket == entry.bucket
                &&& messages.last().new_files@ == files@
            }
        }),
{
}

/// A batch that a write takes is divided, and its parts are next; without rows it is passed over.
/// A batch that cannot be divided leaves the writers as they are, and nothing of it waits.
pub proof fn law_taken_batch_is_divided(
    pre: TableWrite,
    batch: RecordBatch,
    post: TableWrite,
    r: Result<Step, Error>,
)
    requires
        pre.task is Idle,
        pre.wf(),
        TableWrite::takes(pre, batch, post, r),
    ensures
        post.partition_writers == pre.partition_writers,
        batch_rows(batch) == 0 ==> {
            &&& r == Ok::<Step, Error>(Step::Done)
            &&& post.parts@.len() == 0
            &&& post.task is Idle
        },
        batch_rows(batch) > 0 && r is Ok ==> {
            &&& pre.router.division(batch, Ok::<Vec<RoutedBatch>, Error>(post.parts))
            &&& post.parts@.len() > 0 ==> r == Ok::<Step, Error>(Step::Proceed)
        },
        batch_rows(batch) > 0 ==> (r matches Err(error) ==> {
            &&& pre.router.division(batch, Err::<Vec<RoutedBatch>, Error>(error))
            &&& post.parts@.len() == 0
            &&& post.task is Idle
        }),
{
}

} // verus!
