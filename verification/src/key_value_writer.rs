//! The writer of one bucket of a primary-key table: batches are buffered, and each time the
//! buffer exceeds its size, or a commit begins, its rows go to one file.

use crate::arrow::{
    batch_columns, batch_rows, batch_schema, can_measure, column_at, total_rows, RecordBatch,
};
use crate::binary_row::MAX_ARITY;
use crate::error::{arrow_failed, Error};
use crate::files::{fresh_file_name, is_file_name, NewFile, WriterConfig};
use crate::key_value_file::{
    concatenated, extract_key_binary_row, is_physical, is_sorted, key_row, physical_batch,
    physical_of, sort_batches, sorted_by, sorts,
};
use crate::meta::{is_new_file, new_file, rows_in_files, DataFileMeta, FileReceipt};
use crate::nested::sum_of;
use crate::protocol::{Action, Event};
use arrow_schema::Schema;
use std::sync::Arc;
use vstd::prelude::*;

verus! {

/// What will be recorded of a file that is being written.
pub struct PendingFile {
    pub file_name: String,
    pub row_count: i64,
    pub min_key: Vec<u8>,
    pub max_key: Vec<u8>,
    pub min_sequence_number: i64,
    pub max_sequence_number: i64,
}

/// What the writer waits for.
pub enum KeyValuePhase {
    /// Nothing.
    Idle,
    /// A file is being opened for the batch.
    Opening { file: PendingFile, batch: RecordBatch },
    /// The batch is being written.
    Writing { file: PendingFile },
    /// The file is being closed.
    Closing { file: PendingFile },
}

/// The writer of one bucket of a primary-key table.
pub struct KeyValueFileWriter {
    pub config: WriterConfig,
    /// The columns of the primary key.
    pub primary_key_indices: Vec<usize>,
    /// The next sequence number to assign.
    pub next_sequence_number: i64,
    /// The batches that wait to be written.
    pub buffer: Vec<RecordBatch>,
    /// The approximate bytes of the buffered batches.
    pub buffer_bytes: usize,
    /// The files that are closed.
    pub written_files: Vec<DataFileMeta>,
    pub phase: KeyValuePhase,
    /// Whether the files are to be handed over when the file being written is closed.
    pub committing: bool,
}

proof fn lemma_total_rows_monotone(batches: Seq<RecordBatch>, i: int)
    requires
        0 <= i <= batches.len(),
    ensures
        total_rows(batches.take(i)) <= total_rows(batches),
    decreases batches.len() - i,
{
    if i < batches.len() {
        lemma_total_rows_monotone(batches, i + 1);
        assert(batches.take(i + 1).drop_last() =~= batches.take(i));
    } else {
        assert(batches.take(i) =~= batches);
    }
}

/// The rows of all batches, if row numbers can tell them apart.
fn count_rows(batches: &Vec<RecordBatch>) -> (r: Option<usize>)
    ensures
        match r {
            Some(n) => n == total_rows(batches@) && n <= u32::MAX,
            None => total_rows(batches@) > u32::MAX,
        },
{
    let mut n: usize = 0;
    let mut i: usize = 0;
    while i < batches.len()
        invariant
            i <= batches@.len(),
            n == total_rows(batches@.take(i as int)),
            n <= u32::MAX,
        decreases batches@.len() - i,
    {
        let rows: usize = batches[i].num_rows();
        proof {
            assert(batches@.take(i + 1).drop_last() =~= batches@.take(i as int));
            lemma_total_rows_monotone(batches@, i + 1);
        }
        if rows > u32::MAX as usize - n {
            return None;
        }
        n = n + rows;
        i += 1;
    }
    assert(batches@.take(i as int) =~= batches@);
    Some(n)
}

/// The sum of the sizes, as far as the machine can count.
pub open spec fn counted(sizes: Seq<usize>) -> int {
    if sum_of(sizes) > usize::MAX {
        usize::MAX as int
    } else {
        sum_of(sizes)
    }
}

/// Whether the sizes are those that the columns of the batch were found to have, column by
/// column. The size of a column is the machine's affair: it goes by how the buffers were
/// allocated.
pub open spec fn measures_columns(batch: RecordBatch, sizes: Seq<usize>) -> bool {
    &&& sizes.len() == batch_columns(batch).len()
    &&& forall|j: int|
        0 <= j < sizes.len() ==> can_measure(column_at(batch, j), #[trigger] sizes[j])
}

/// Whether the number is the sum of the sizes that the columns of the batch were found to have.
pub open spec fn sums_columns(batch: RecordBatch, bytes: usize) -> bool {
    exists|sizes: Seq<usize>| #[trigger]
        measures_columns(batch, sizes) && bytes == counted(sizes)
}

/// The bytes that the columns of a batch use, column by column.
fn column_sizes(batch: &RecordBatch) -> (r: Vec<usize>)
    ensures
        measures_columns(*batch, r@),
{
    let count: usize = batch.num_columns();
    let mut r: Vec<usize> = Vec::new();
    let mut j: usize = 0;
    while j < count
        invariant
            j <= count,
            count == batch_columns(*batch).len(),
            r@.len() == j,
            forall|i: int|
                0 <= i < j ==> can_measure(column_at(*batch, i), #[trigger] r@[i]),
        decreases count - j,
    {
        r.push(batch.column(j).memory_size());
        j += 1;
    }
    r
}

/// The sum of the sizes, as far as the machine can count.
pub fn total_size(sizes: &Vec<usize>) -> (r: usize)
    ensures
        r == counted(sizes@),
{
    let mut r: usize = 0;
    let mut j: usize = 0;
    while j < sizes.len()
        invariant
            j <= sizes@.len(),
            0 <= sum_of(sizes@.take(j as int)),
            r == counted(sizes@.take(j as int)),
        decreases sizes@.len() - j,
    {
        assert(sizes@.take(j + 1).drop_last() =~= sizes@.take(j as int));
        r = r.saturating_add(sizes[j]);
        j += 1;
    }
    assert(sizes@.take(j as int) =~= sizes@);
    r
}

/// The bytes that the columns of a batch use, as far as the machine can count.
fn batch_bytes(batch: &RecordBatch) -> (r: usize)
    ensures
        sums_columns(*batch, r),
{
    let sizes: Vec<usize> = column_sizes(batch);
    total_size(&sizes)
}

impl KeyValueFileWriter {
    /// Every buffered batch has rows.
    pub open spec fn wf(&self) -> bool {
        &&& self.primary_key_indices@.len() <= MAX_ARITY
        &&& buffer_wf(self.buffer@)
        &&& self.phase is Idle ==> !self.committing
    }

    /// The file being written, if any.
    pub open spec fn pending(&self) -> Option<PendingFile> {
        match self.phase {
            KeyValuePhase::Idle => None,
            KeyValuePhase::Opening { file, .. } => Some(file),
            KeyValuePhase::Writing { file } => Some(file),
            KeyValuePhase::Closing { file } => Some(file),
        }
    }

    /// The rows that the writer has taken and not handed over in files.
    pub open spec fn rows(&self) -> int {
        rows_in_files(self.written_files@) + total_rows(self.buffer@) + match self.pending() {
            Some(file) => file.row_count as int,
            None => 0,
        }
    }

    /// The laid out rows go to a new file, under the sequence numbers from the next one on.
    pub open spec fn opens(
        pre: Self,
        sorted: RecordBatch,
        physical: RecordBatch,
        committing: bool,
        post: Self,
        action: Action,
    ) -> bool {
        let start = pre.next_sequence_number;
        let count = batch_rows(sorted);
        let keys = pre.primary_key_indices@;
        &&& action matches Action::OpenFile { file: request, schema }
        &&& *schema == batch_schema(physical)
        &&& post == (KeyValueFileWriter {
            next_sequence_number: (start + count) as i64,
            buffer: post.buffer,
            buffer_bytes: post.buffer_bytes,
            phase: post.phase,
            committing,
            ..pre
        })
        &&& post.phase matches KeyValuePhase::Opening { file, batch }
        &&& batch == physical
        &&& is_file_name(file.file_name@, pre.written_files@.len() as int)
        &&& pre.config.creates(file.file_name@, request)
        &&& file.row_count == count
        &&& file.min_key@ == key_row(batch_columns(sorted), keys, 0)
        &&& file.max_key@ == key_row(batch_columns(sorted), keys, count - 1)
        &&& file.min_sequence_number == start
        &&& file.max_sequence_number == start + count - 1
    }

    /// Nothing changes but the buffer and the next sequence number.
    pub open spec fn gives_up(pre: Self, next_sequence_number: int, post: Self) -> bool {
        post == (KeyValueFileWriter {
            next_sequence_number: next_sequence_number as i64,
            buffer: post.buffer,
            buffer_bytes: post.buffer_bytes,
            ..pre
        })
    }

    /// Sorted rows are numbered, laid out and sent to a new file.
    pub open spec fn stores(
        pre: Self,
        sorted: RecordBatch,
        committing: bool,
        post: Self,
        r: Result<Action, Error>,
    ) -> bool {
        let start = pre.next_sequence_number;
        let count = batch_rows(sorted);
        if start + count > i64::MAX {
            &&& r == Err::<Action, Error>(Error::SequenceOverflow)
            &&& Self::gives_up(pre, start as int, post)
        } else {
            match physical_of(sorted, pre.primary_key_indices@, start as int) {
                Ok(physical) => {
                    &&& is_physical(sorted, pre.primary_key_indices@, start as int, physical)
                    &&& r matches Ok(action)
                    &&& Self::opens(pre, sorted, physical, committing, post, action)
                },
                Err(cause) => {
                    &&& r matches Err(error)
                    &&& arrow_failed(error, "Failed to create physical batch: "@, cause)
                    &&& Self::gives_up(pre, start + count, post)
                },
            }
        }
    }

    /// The given batches leave the buffer and go, sorted, to a new file.
    pub open spec fn flushes(
        pre: Self,
        batches: Seq<RecordBatch>,
        committing: bool,
        post: Self,
        r: Result<Action, Error>,
    ) -> bool {
        &&& post.buffer@ == Seq::<RecordBatch>::empty()
        &&& post.buffer_bytes == 0
        &&& if total_rows(batches) > u32::MAX {
            &&& r == Err::<Action, Error>(Error::TooManyRows)
            &&& Self::gives_up(pre, pre.next_sequence_number as int, post)
        } else {
            exists|sorting: Result<RecordBatch, Error>|
                {
                    &&& #[trigger] sorts(batches, pre.primary_key_indices@, sorting)
                    &&& match sorting {
                        Ok(sorted) => {
                            &&& is_sorted(batches, pre.primary_key_indices@, sorted)
                            &&& Self::stores(pre, sorted, committing, post, r)
                        },
                        Err(error) => {
                            &&& r == Err::<Action, Error>(error)
                            &&& Self::gives_up(pre, pre.next_sequence_number as int, post)
                        },
                    }
                }
        }
    }

    /// A batch of the given size in bytes is buffered, and the buffer flushed where it exceeds
    /// its size.
    /// An empty batch is passed over.
    pub open spec fn buffers(
        pre: Self,
        batch: RecordBatch,
        bytes: usize,
        post: Self,
        r: Result<Action, Error>,
    ) -> bool {
        let total = pre.buffer_bytes.saturating_add(bytes);
        if batch_rows(batch) == 0 {
            r == Ok::<Action, Error>(Action::Done) && post == pre
        } else if total as i64 > pre.config.write_buffer_size {
            Self::flushes(pre, pre.buffer@.push(batch), false, post, r)
        } else {
            &&& r == Ok::<Action, Error>(Action::Done)
            &&& post.buffer@ == pre.buffer@.push(batch)
            &&& post == (KeyValueFileWriter { buffer: post.buffer, buffer_bytes: total, ..pre })
        }
    }

    /// A batch is taken, with the sum of the sizes of its columns as its size in bytes.
    pub open spec fn writes(
        pre: Self,
        batch: RecordBatch,
        post: Self,
        r: Result<Action, Error>,
    ) -> bool {
        exists|bytes: usize|
            sums_columns(batch, bytes) && #[trigger] Self::buffers(pre, batch, bytes, post, r)
    }

    /// The files are handed over.
    pub open spec fn settles(
        pre: Self,
        written: Seq<DataFileMeta>,
        post: Self,
        r: Result<Action, Error>,
    ) -> bool {
        &&& r matches Ok(Action::Files { files })
        &&& files@ == written
        &&& post.written_files@ == Seq::<DataFileMeta>::empty()
        &&& post == (KeyValueFileWriter {
            written_files: post.written_files,
            phase: KeyValuePhase::Idle,
            committing: false,
            ..pre
        })
    }

    /// A commit begins: what is buffered is written first.
    pub open spec fn commits(pre: Self, post: Self, r: Result<Action, Error>) -> bool {
        if pre.buffer@.len() == 0 {
            Self::settles(pre, pre.written_files@, post, r)
        } else {
            Self::flushes(pre, pre.buffer@, true, post, r)
        }
    }

    /// The record of a file that was closed.
    pub open spec fn records(
        pre: Self,
        file: PendingFile,
        receipt: FileReceipt,
        meta: DataFileMeta,
    ) -> bool {
        is_new_file(
            meta,
            file.file_name@,
            receipt,
            file.row_count,
            file.min_key@,
            file.max_key@,
            file.min_sequence_number,
            file.max_sequence_number,
            pre.config.schema_id,
        )
    }

    /// Storage has answered.
    pub open spec fn resumes(
        pre: Self,
        event: Event,
        post: Self,
        r: Result<Action, Error>,
    ) -> bool {
        match (pre.phase, event) {
            (_, Event::Failed { error }) => {
                &&& r == Err::<Action, Error>(error)
                &&& post == (KeyValueFileWriter {
                    phase: KeyValuePhase::Idle,
                    committing: false,
                    ..pre
                })
            },
            (KeyValuePhase::Opening { file, batch }, Event::Done) => {
                &&& r == Ok::<Action, Error>(Action::WriteBatch { batch })
                &&& post == (KeyValueFileWriter { phase: KeyValuePhase::Writing { file }, ..pre })
            },
            (KeyValuePhase::Writing { file }, Event::Written { .. }) => {
                &&& r == Ok::<Action, Error>(Action::CloseFile)
                &&& post == (KeyValueFileWriter { phase: KeyValuePhase::Closing { file }, ..pre })
            },
            (KeyValuePhase::Closing { file }, Event::Closed { receipt }) =>
                exists|meta: DataFileMeta|
                {
                    &&& #[trigger] Self::records(pre, file, receipt, meta)
                    &&& if pre.committing {
                        Self::settles(pre, pre.written_files@.push(meta), post, r)
                    } else {
                        &&& r == Ok::<Action, Error>(Action::Done)
                        &&& post.written_files@ == pre.written_files@.push(meta)
                        &&& post == (KeyValueFileWriter {
                            written_files: post.written_files,
                            phase: KeyValuePhase::Idle,
                            ..pre
                        })
                    }
                },
            _ => r == Err::<Action, Error>(Error::UnexpectedEvent) && post == pre,
        }
    }

    /// A writer that has written nothing and assigns sequence numbers from the given one on.
    pub fn new(
        config: WriterConfig,
        primary_key_indices: Vec<usize>,
        next_sequence_number: i64,
    ) -> (r: Self)
        requires
            primary_key_indices@.len() <= MAX_ARITY,
        ensures
            r.wf(),
            r.phase is Idle,
            r.config == config,
            r.primary_key_indices == primary_key_indices,
            r.next_sequence_number == next_sequence_number,
            r.buffer@ == Seq::<RecordBatch>::empty(),
            r.buffer_bytes == 0,
            r.written_files@ == Seq::<DataFileMeta>::empty(),
            r.rows() == 0,
    {
        KeyValueFileWriter {
            config,
            primary_key_indices,
            next_sequence_number,
            buffer: Vec::new(),
            buffer_bytes: 0,
            written_files: Vec::new(),
            phase: KeyValuePhase::Idle,
            committing: false,
        }
    }

    /// Takes a batch.
    pub fn write(&mut self, batch: RecordBatch) -> (r: Result<Action, Error>)
        requires
            old(self).wf(),
            old(self).phase is Idle,
        ensures
            final(self).wf(),
            Self::writes(*old(self), batch, *final(self), r),
    {
        let bytes: usize = batch_bytes(&batch);
        self.write_sized(batch, bytes)
    }

    /// Takes a batch of the given size in bytes.
    pub fn write_sized(&mut self, batch: RecordBatch, bytes: usize) -> (r: Result<Action, Error>)
        requires
            old(self).wf(),
            old(self).phase is Idle,
        ensures
            final(self).wf(),
            Self::buffers(*old(self), batch, bytes, *final(self), r),
    {
        if batch.num_rows() == 0 {
            return Ok(Action::Done);
        }
        self.buffer.push(batch);
        self.buffer_bytes = self.buffer_bytes.saturating_add(bytes);
        assert(buffer_wf(self.buffer@));
        if self.buffer_bytes as i64 > self.config.write_buffer_size {
            return self.flush(false);
        }
        Ok(Action::Done)
    }

    /// Sends the buffered rows, if any, sorted to a new file.
    fn flush(&mut self, committing: bool) -> (r: Result<Action, Error>)
        requires
            old(self).wf(),
            old(self).phase is Idle,
        ensures
            final(self).wf(),
            if old(self).buffer@.len() == 0 {
                r == Ok::<Action, Error>(Action::Done) && *final(self) == *old(self)
            } else {
                Self::flushes(*old(self), old(self).buffer@, committing, *final(self), r)
            },
    {
        if self.buffer.len() == 0 {
            return Ok(Action::Done);
        }
        let mut batches: Vec<RecordBatch> = Vec::new();
        std::mem::swap(&mut batches, &mut self.buffer);
        self.buffer_bytes = 0;
        if count_rows(&batches).is_none() {
            return Err(Error::TooManyRows);
        }
        let sorting: Result<RecordBatch, Error> = sort_batches(
            &batches,
            &self.primary_key_indices,
        );
        assert(sorts(batches@, self.primary_key_indices@, sorting));
        let sorted: RecordBatch = match sorting {
            Ok(sorted) => sorted,
            Err(error) => return Err(error),
        };
        proof {
            let rows = choose|rows: Seq<int>| #[trigger]
                sorted_by(batches@, self.primary_key_indices@, rows, sorted);
            assert(batch_columns(sorted).len() == concatenated(batches@).len());
            lemma_total_rows_monotone(batches@, 1);
            assert(batches@.take(1).drop_last() =~= Seq::<RecordBatch>::empty());
            assert(batches@.take(1).last() == batches@[0]);
        }
        self.store_sorted(&sorted, committing)
    }

    /// Sends sorted rows to a new file: numbers them, lays the columns out, and asks for the file.
    pub fn store_sorted(&mut self, sorted: &RecordBatch, committing: bool) -> (r: Result<
        Action,
        Error,
    >)
        requires
            old(self).wf(),
            old(self).phase is Idle,
            0 < batch_rows(*sorted) <= i64::MAX,
            forall|k: int|
                0 <= k < old(self).primary_key_indices@.len() ==> (#[trigger] old(
                    self,
                ).primary_key_indices@[k]) < batch_columns(*sorted).len(),
        ensures
            final(self).wf(),
            final(self).buffer == old(self).buffer,
            final(self).buffer_bytes == old(self).buffer_bytes,
            Self::stores(*old(self), *sorted, committing, *final(self), r),
    {
        let count: usize = sorted.num_rows();
        let start: i64 = self.next_sequence_number;
        if start as i128 + count as i128 > i64::MAX as i128 {
            return Err(Error::SequenceOverflow);
        }
        self.next_sequence_number = (start as i128 + count as i128) as i64;
        match physical_batch(sorted, &self.primary_key_indices, start) {
            Ok(physical) => Ok(self.open_file(sorted, physical, start, committing)),
            Err(error) => Err(error),
        }
    }

    /// Asks for a new file for the laid out rows, which are numbered from `start` on.
    pub fn open_file(
        &mut self,
        sorted: &RecordBatch,
        physical: RecordBatch,
        start: i64,
        committing: bool,
    ) -> (r: Action)
        requires
            old(self).wf(),
            old(self).phase is Idle,
            0 < batch_rows(*sorted) <= i64::MAX,
            forall|k: int|
                0 <= k < old(self).primary_key_indices@.len() ==> (#[trigger] old(
                    self,
                ).primary_key_indices@[k]) < batch_columns(*sorted).len(),
            old(self).next_sequence_number == start + batch_rows(*sorted),
        ensures
            final(self).wf(),
            final(self).buffer == old(self).buffer,
            final(self).buffer_bytes == old(self).buffer_bytes,
            Self::opens(
                (KeyValueFileWriter { next_sequence_number: start, ..*old(self) }),
                *sorted,
                physical,
                committing,
                *final(self),
                r,
            ),
    {
        let count: usize = sorted.num_rows();
        let file_name: String = fresh_file_name(self.written_files.len());
        let request: NewFile = self.config.create_file(&file_name);
        let schema: Arc<Schema> = physical.schema();
        let min_key: Vec<u8> = extract_key_binary_row(sorted, &self.primary_key_indices, 0);
        let max_key: Vec<u8> = extract_key_binary_row(sorted, &self.primary_key_indices, count - 1);
        let file: PendingFile = PendingFile {
            file_name,
            row_count: count as i64,
            min_key,
            max_key,
            min_sequence_number: start,
            max_sequence_number: self.next_sequence_number - 1,
        };
        self.phase = KeyValuePhase::Opening { file, batch: physical };
        self.committing = committing;
        Action::OpenFile { file: request, schema }
    }

    /// Begins a commit: writes what is buffered and hands the files over.
    pub fn prepare_commit(&mut self) -> (r: Result<Action, Error>)
        requires
            old(self).wf(),
            old(self).phase is Idle,
        ensures
            final(self).wf(),
            Self::commits(*old(self), *final(self), r),
    {
        if self.buffer.len() == 0 {
            return Ok(self.hand_over());
        }
        self.flush(true)
    }

    /// Hands the closed files over.
    fn hand_over(&mut self) -> (r: Action)
        requires
            old(self).wf(),
            old(self).phase is Idle,
        ensures
            final(self).wf(),
            Self::settles(*old(self), old(self).written_files@, *final(self), Ok(r)),
    {
        let mut files: Vec<DataFileMeta> = Vec::new();
        std::mem::swap(&mut files, &mut self.written_files);
        Action::Files { files }
    }

    /// Goes on after storage has answered.
    pub fn resume(&mut self, event: Event) -> (r: Result<Action, Error>)
        requires
            old(self).wf(),
        ensures
            final(self).wf(),
            Self::resumes(*old(self), event, *final(self), r),
    {
        let mut phase: KeyValuePhase = KeyValuePhase::Idle;
        std::mem::swap(&mut phase, &mut self.phase);
        match (phase, event) {
            (_, Event::Failed { error }) => {
                self.committing = false;
                Err(error)
            },
            (KeyValuePhase::Opening { file, batch }, Event::Done) => {
                self.phase = KeyValuePhase::Writing { file };
                Ok(Action::WriteBatch { batch })
            },
            (KeyValuePhase::Writing { file }, Event::Written { num_bytes, in_progress_size }) => {
                self.phase = KeyValuePhase::Closing { file };
                Ok(Action::CloseFile)
            },
            (KeyValuePhase::Closing { file }, Event::Closed { receipt }) => {
                let meta: DataFileMeta = new_file(
                    file.file_name,
                    receipt,
                    file.row_count,
                    file.min_key,
                    file.max_key,
                    file.min_sequence_number,
                    file.max_sequence_number,
                    self.config.schema_id,
                );
                assert(Self::records(*old(self), file, receipt, meta));
                self.written_files.push(meta);
                if self.committing {
                    self.committing = false;
                    Ok(self.hand_over())
                } else {
                    Ok(Action::Done)
                }
            },
            (phase, _) => {
                self.phase = phase;
                Err(Error::UnexpectedEvent)
            },
        }
    }
}

/// Whether every batch has rows.
pub open spec fn buffer_wf(buffer: Seq<RecordBatch>) -> bool {
    forall|i: int| 0 <= i < buffer.len() ==> batch_rows(#[trigger] buffer[i]) > 0
}

} // verus!
