//! The writer of one bucket of an append-only table: batches go to one open file until it has
//! reached its target size; a full file is closed in the background.

use crate::arrow::{batch_rows, batch_schema, RecordBatch};
use crate::error::{close_panic, close_panicked, Error};
use crate::files::{fresh_file_name, is_file_name, NewFile, WriterConfig};
use crate::meta::{build_meta, is_append_file, rows_in_files, DataFileMeta, FileReceipt};
use crate::protocol::{Action, Event};
use vstd::prelude::*;

verus! {

/// A full file that is being closed.
pub struct RolledFile {
    pub file_name: String,
    pub row_count: i64,
}

/// What the writer waits for.
pub enum Phase {
    /// Nothing.
    Idle,
    /// A file is being opened for the batch.
    Opening { batch: RecordBatch, file_name: String },
    /// A batch is being written.
    Writing,
    /// The full file is handed over to be closed.
    Rolling,
    /// The open file is being flushed.
    Flushing,
    /// The last file is being closed for a commit.
    Closing { file_name: String, row_count: i64 },
    /// A commit waits for full files to be closed.
    Joining,
}

/// The writer of one bucket of an append-only table.
pub struct DataFileWriter {
    pub config: WriterConfig,
    /// The files that are closed.
    pub written_files: Vec<DataFileMeta>,
    /// The files that are being closed.
    pub in_flight: Vec<RolledFile>,
    /// The open file, if any.
    pub current_file_name: Option<String>,
    /// The rows written to the open file.
    pub current_row_count: i64,
    pub phase: Phase,
}

/// The rows of the files that are being closed.
pub open spec fn rows_rolled(files: Seq<RolledFile>) -> int
    decreases files.len(),
{
    if files.len() == 0 {
        0
    } else {
        rows_rolled(files.drop_last()) + files.last().row_count
    }
}

/// Whether `i` is the first of the files that has the given name.
pub open spec fn is_first_named(files: Seq<RolledFile>, name: Seq<char>, i: int) -> bool {
    &&& 0 <= i < files.len()
    &&& files[i].file_name@ == name
    &&& forall|k: int| 0 <= k < i ==> (#[trigger] files[k]).file_name@ != name
}

/// The first of the files that has the given name.
fn find_named(files: &Vec<RolledFile>, name: &String) -> (r: Option<usize>)
    ensures
        match r {
            Some(i) => is_first_named(files@, name@, i as int),
            None => forall|k: int| 0 <= k < files@.len() ==> (#[trigger] files@[k]).file_name@
                != name@,
        },
{
    let mut i: usize = 0;
    while i < files.len()
        invariant
            i <= files@.len(),
            forall|k: int| 0 <= k < i ==> (#[trigger] files@[k]).file_name@ != name@,
        decreases files@.len() - i,
    {
        if files[i].file_name == *name {
            return Some(i);
        }
        i += 1;
    }
    None
}

impl DataFileWriter {
    /// The counters are not negative, no rows are counted without an open file, and a file is
    /// open exactly where the phase says so.
    pub open spec fn wf(&self) -> bool {
        &&& self.current_row_count >= 0
        &&& self.current_file_name is None ==> self.current_row_count == 0
        &&& match self.phase {
            Phase::Idle => true,
            Phase::Writing | Phase::Flushing => self.current_file_name is Some,
            Phase::Closing { row_count, .. } => self.current_file_name is None && row_count >= 0,
            _ => self.current_file_name is None,
        }
    }

    /// The rows that the writer has taken and not handed over in files.
    pub open spec fn rows(&self) -> int {
        rows_in_files(self.written_files@) + rows_rolled(self.in_flight@) + self.current_row_count
            + match self.phase {
            Phase::Opening { batch, .. } => batch_rows(batch) as int,
            Phase::Closing { row_count, .. } => row_count as int,
            _ => 0,
        }
    }

    /// Whether the states differ only in their closed and closing files and in the phase.
    pub open spec fn same_file(self, other: Self) -> bool {
        &&& self.config == other.config
        &&& self.current_file_name == other.current_file_name
        &&& self.current_row_count == other.current_row_count
    }

    /// A batch goes to the open file.
    pub open spec fn appends(
        pre: Self,
        batch: RecordBatch,
        post: Self,
        r: Result<Action, Error>,
    ) -> bool {
        if pre.current_row_count + batch_rows(batch) > i64::MAX {
            &&& r == Err::<Action, Error>(Error::RowCountOverflow)
            &&& post == (DataFileWriter { phase: Phase::Idle, ..pre })
        } else {
            &&& r == Ok::<Action, Error>(Action::WriteBatch { batch })
            &&& post == (DataFileWriter {
                phase: Phase::Writing,
                current_row_count: (pre.current_row_count + batch_rows(batch)) as i64,
                ..pre
            })
        }
    }

    /// A batch is taken: an empty one is passed over, and a file is opened first where none is
    /// open.
    pub open spec fn writes(
        pre: Self,
        batch: RecordBatch,
        post: Self,
        r: Result<Action, Error>,
    ) -> bool {
        if batch_rows(batch) == 0 {
            r == Ok::<Action, Error>(Action::Done) && post == pre
        } else if pre.current_file_name is None {
            &&& r matches Ok(Action::OpenFile { file, schema })
            &&& *schema == batch_schema(batch)
            &&& post == (DataFileWriter { phase: post.phase, ..pre })
            &&& post.phase matches Phase::Opening { batch: kept, file_name }
            &&& kept == batch
            &&& is_file_name(file_name@, pre.written_files@.len() as int)
            &&& pre.config.creates(file_name@, file)
        } else {
            Self::appends(pre, batch, post, r)
        }
    }

    /// A batch was written: a file that has reached its target size is closed in the background,
    /// and one that buffers too much is flushed.
    pub open spec fn has_written(
        pre: Self,
        num_bytes: usize,
        in_progress_size: usize,
        post: Self,
        r: Result<Action, Error>,
    ) -> bool {
        if num_bytes as i64 >= pre.config.target_file_size {
            &&& r matches Ok(Action::CloseInBackground { file_name })
            &&& Some(file_name) == pre.current_file_name
            &&& post.in_flight@ == pre.in_flight@.push(
                RolledFile { file_name, row_count: pre.current_row_count },
            )
            &&& post == (DataFileWriter {
                in_flight: post.in_flight,
                current_file_name: None,
                current_row_count: 0,
                phase: Phase::Rolling,
                ..pre
            })
        } else if in_progress_size as i64 >= pre.config.write_buffer_size {
            &&& r == Ok::<Action, Error>(Action::FlushFile)
            &&& post == (DataFileWriter { phase: Phase::Flushing, ..pre })
        } else {
            &&& r == Ok::<Action, Error>(Action::Done)
            &&& post == (DataFileWriter { phase: Phase::Idle, ..pre })
        }
    }

    /// A commit goes on with the given files closed and being closed: it waits while any is
    /// being closed, then hands the closed ones over.
    pub open spec fn settles(
        pre: Self,
        written: Seq<DataFileMeta>,
        in_flight: Seq<RolledFile>,
        post: Self,
        r: Result<Action, Error>,
    ) -> bool {
        &&& post.same_file(pre)
        &&& post.in_flight@ == in_flight
        &&& if in_flight.len() > 0 {
            &&& r == Ok::<Action, Error>(Action::AwaitClose)
            &&& post.phase is Joining
            &&& post.written_files@ == written
        } else {
            &&& r matches Ok(Action::Files { files })
            &&& files@ == written
            &&& post.phase is Idle
            &&& post.written_files@ == Seq::<DataFileMeta>::empty()
        }
    }

    /// A commit begins: the open file is closed first.
    pub open spec fn commits(pre: Self, post: Self, r: Result<Action, Error>) -> bool {
        match pre.current_file_name {
            Some(file_name) => {
                &&& r == Ok::<Action, Error>(Action::CloseFile)
                &&& post == (DataFileWriter {
                    current_file_name: None,
                    current_row_count: 0,
                    phase: Phase::Closing { file_name, row_count: pre.current_row_count },
                    ..pre
                })
            },
            None => Self::settles(pre, pre.written_files@, pre.in_flight@, post, r),
        }
    }

    /// A file that was being closed is closed.
    pub open spec fn joins(
        pre: Self,
        name: Seq<char>,
        receipt: FileReceipt,
        post: Self,
        r: Result<Action, Error>,
    ) -> bool {
        if exists|i: int| is_first_named(pre.in_flight@, name, i) {
            exists|i: int, meta: DataFileMeta|
                {
                    &&& #[trigger] is_first_named(pre.in_flight@, name, i)
                    &&& #[trigger] is_append_file(
                        meta,
                        name,
                        receipt,
                        pre.in_flight@[i].row_count,
                        pre.config.schema_id,
                    )
                    &&& Self::settles(
                        pre,
                        pre.written_files@.push(meta),
                        pre.in_flight@.remove(i),
                        post,
                        r,
                    )
                }
        } else {
            r == Err::<Action, Error>(Error::UnexpectedEvent) && post == pre
        }
    }

    /// A file that was being closed could not be closed: it is given up.
    pub open spec fn loses(
        pre: Self,
        name: Seq<char>,
        error: Error,
        post: Self,
        r: Result<Action, Error>,
    ) -> bool {
        if exists|i: int| is_first_named(pre.in_flight@, name, i) {
            exists|i: int|
                {
                    &&& #[trigger] is_first_named(pre.in_flight@, name, i)
                    &&& r == Err::<Action, Error>(error)
                    &&& post.in_flight@ == pre.in_flight@.remove(i)
                    &&& post == (DataFileWriter {
                        in_flight: post.in_flight,
                        phase: Phase::Idle,
                        ..pre
                    })
                }
        } else {
            r == Err::<Action, Error>(Error::UnexpectedEvent) && post == pre
        }
    }

    /// Storage has answered.
    pub open spec fn resumes(
        pre: Self,
        event: Event,
        post: Self,
        r: Result<Action, Error>,
    ) -> bool {
        match (pre.phase, event) {
            (_, Event::Failed { error }) => {
                &&& r == Err::<Action, Error>(error)
                &&& post == (DataFileWriter { phase: Phase::Idle, ..pre })
            },
            (Phase::Opening { batch, file_name }, Event::Done) => Self::appends(
                DataFileWriter {
                    current_file_name: Some(file_name),
                    current_row_count: 0,
                    ..pre
                },
                batch,
                post,
                r,
            ),
            (Phase::Writing, Event::Written { num_bytes, in_progress_size }) => Self::has_written(
                pre,
                num_bytes,
                in_progress_size,
                post,
                r,
            ),
            (Phase::Rolling, Event::Done) | (Phase::Flushing, Event::Done) => {
                &&& r == Ok::<Action, Error>(Action::Done)
                &&& post == (DataFileWriter { phase: Phase::Idle, ..pre })
            },
            (Phase::Closing { file_name, row_count }, Event::Closed { receipt }) =>
                exists|meta: DataFileMeta|
                {
                    &&& #[trigger] is_append_file(
                        meta,
                        file_name@,
                        receipt,
                        row_count,
                        pre.config.schema_id,
                    )
                    &&& Self::settles(
                        pre,
                        pre.written_files@.push(meta),
                        pre.in_flight@,
                        post,
                        r,
                    )
                },
            (Phase::Joining, Event::ClosedInBackground { file_name, receipt }) => Self::joins(
                pre,
                file_name@,
                receipt,
                post,
                r,
            ),
            (Phase::Joining, Event::CloseFailed { file_name, error }) => Self::loses(
                pre,
                file_name@,
                error,
                post,
                r,
            ),
            (Phase::Joining, Event::ClosePanicked { file_name, text }) => exists|error: Error|
                #[trigger] close_panicked(error, text@) && Self::loses(
                    pre,
                    file_name@,
                    error,
                    post,
                    r,
                ),
            _ => r == Err::<Action, Error>(Error::UnexpectedEvent) && post == pre,
        }
    }

    /// A writer that has written nothing.
    pub fn new(config: WriterConfig) -> (r: Self)
        ensures
            r.wf(),
            r.phase is Idle,
            r.config == config,
            r.written_files@ == Seq::<DataFileMeta>::empty(),
            r.in_flight@ == Seq::<RolledFile>::empty(),
            r.current_file_name is None,
            r.rows() == 0,
    {
        DataFileWriter {
            config,
            written_files: Vec::new(),
            in_flight: Vec::new(),
            current_file_name: None,
            current_row_count: 0,
            phase: Phase::Idle,
        }
    }

    /// Takes a batch.
    pub fn write(&mut self, batch: RecordBatch) -> (r: Result<Action, Error>)
        requires
            old(self).wf(),
            old(self).phase is Idle,
        ensures
            final(self).wf(),
            Self::writes(*old(self), batch, *final(self), r),
    {
        if batch.num_rows() == 0 {
            return Ok(Action::Done);
        }
        if self.current_file_name.is_none() {
            let (file_name, file): (String, NewFile) = self.open_new_file();
            let schema: std::sync::Arc<arrow_schema::Schema> = batch.schema();
            self.phase = Phase::Opening { batch, file_name };
            return Ok(Action::OpenFile { file, schema });
        }
        self.append(batch)
    }

    /// A new file: its name and the request to create it.
    fn open_new_file(&self) -> (r: (String, NewFile))
        ensures
            is_file_name(r.0@, self.written_files@.len() as int),
            self.config.creates(r.0@, r.1),
    {
        let file_name: String = fresh_file_name(self.written_files.len());
        let file: NewFile = self.config.create_file(&file_name);
        (file_name, file)
    }

    /// Sends a batch to the open file.
    fn append(&mut self, batch: RecordBatch) -> (r: Result<Action, Error>)
        requires
            old(self).wf(),
            old(self).phase is Idle,
            old(self).current_file_name is Some,
        ensures
            final(self).wf(),
            Self::appends(*old(self), batch, *final(self), r),
    {
        let rows: usize = batch.num_rows();
        if rows as u64 > (i64::MAX - self.current_row_count) as u64 {
            return Err(Error::RowCountOverflow);
        }
        self.current_row_count = self.current_row_count + rows as i64;
        self.phase = Phase::Writing;
        Ok(Action::WriteBatch { batch })
    }

    /// Hands the open file over to be closed in the background.
    fn roll_file(&mut self, file_name: String) -> (r: Action)
        requires
            old(self).wf(),
            old(self).phase is Idle,
            old(self).current_file_name == Some(file_name),
        ensures
            final(self).wf(),
            r == (Action::CloseInBackground { file_name }),
            final(self).in_flight@ == old(self).in_flight@.push(
                RolledFile { file_name, row_count: old(self).current_row_count },
            ),
            *final(self) == (DataFileWriter {
                in_flight: final(self).in_flight,
                current_file_name: None,
                current_row_count: 0,
                phase: Phase::Rolling,
                ..*old(self)
            }),
    {
        let row_count: i64 = self.current_row_count;
        self.current_file_name = None;
        self.current_row_count = 0;
        self.in_flight.push(RolledFile { file_name: file_name.clone(), row_count });
        self.phase = Phase::Rolling;
        Action::CloseInBackground { file_name }
    }

    /// Begins a commit: closes the open file, waits for the others, and hands the files over.
    pub fn prepare_commit(&mut self) -> (r: Result<Action, Error>)
        requires
            old(self).wf(),
            old(self).phase is Idle,
        ensures
            final(self).wf(),
            Self::commits(*old(self), *final(self), r),
    {
        match self.close_current_file() {
            Some(action) => Ok(action),
            None => Ok(self.settle()),
        }
    }

    /// Asks for the open file, if any, to be closed.
    fn close_current_file(&mut self) -> (r: Option<Action>)
        requires
            old(self).wf(),
            old(self).phase is Idle,
        ensures
            final(self).wf(),
            match old(self).current_file_name {
                Some(file_name) => {
                    &&& r == Some(Action::CloseFile)
                    &&& *final(self) == (DataFileWriter {
                        current_file_name: None,
                        current_row_count: 0,
                        phase: Phase::Closing { file_name, row_count: old(self).current_row_count },
                        ..*old(self)
                    })
                },
                None => r is None && *final(self) == *old(self),
            },
    {
        match self.current_file_name.take() {
            Some(file_name) => {
                let row_count: i64 = self.current_row_count;
                self.current_row_count = 0;
                self.phase = Phase::Closing { file_name, row_count };
                Some(Action::CloseFile)
            },
            None => None,
        }
    }

    /// Waits for the files that are being closed, or hands the closed ones over.
    fn settle(&mut self) -> (r: Action)
        requires
            old(self).wf(),
            old(self).phase is Idle,
            old(self).current_file_name is None,
        ensures
            final(self).wf(),
            Self::settles(
                *old(self),
                old(self).written_files@,
                old(self).in_flight@,
                *final(self),
                Ok(r),
            ),
    {
        if self.in_flight.len() > 0 {
            self.phase = Phase::Joining;
            return Action::AwaitClose;
        }
        let mut files: Vec<DataFileMeta> = Vec::new();
        std::mem::swap(&mut files, &mut self.written_files);
        Action::Files { files }
    }

    /// Gives up a file that was being closed and could not be closed.
    fn lose_file(&mut self, file_name: &String, error: Error) -> (r: Result<Action, Error>)
        requires
            old(self).wf(),
            old(self).phase is Joining,
        ensures
            final(self).wf(),
            Self::loses(*old(self), file_name@, error, *final(self), r),
    {
        match find_named(&self.in_flight, file_name) {
            Some(i) => {
                self.in_flight.remove(i);
                self.phase = Phase::Idle;
                Err(error)
            },
            None => Err(Error::UnexpectedEvent),
        }
    }

    /// Goes on after storage has answered.
    pub fn resume(&mut self, event: Event) -> (r: Result<Action, Error>)
        requires
            old(self).wf(),
        ensures
            final(self).wf(),
            Self::resumes(*old(self), event, *final(self), r),
    {
        let mut phase: Phase = Phase::Idle;
        std::mem::swap(&mut phase, &mut self.phase);
        match (phase, event) {
            (_, Event::Failed { error }) => Err(error),
            (Phase::Opening { batch, file_name }, Event::Done) => {
                self.current_file_name = Some(file_name);
                self.current_row_count = 0;
                self.append(batch)
            },
            (Phase::Writing, Event::Written { num_bytes, in_progress_size }) => {
                if num_bytes as i64 >= self.config.target_file_size {
                    match self.current_file_name.take() {
                        Some(file_name) => {
                            self.current_file_name = Some(file_name.clone());
                            return Ok(self.roll_file(file_name));
                        },
                        None => {},
                    }
                }
                if in_progress_size as i64 >= self.config.write_buffer_size {
                    self.phase = Phase::Flushing;
                    return Ok(Action::FlushFile);
                }
                Ok(Action::Done)
            },
            (Phase::Rolling, Event::Done) => Ok(Action::Done),
            (Phase::Flushing, Event::Done) => Ok(Action::Done),
            (Phase::Closing { file_name, row_count }, Event::Closed { receipt }) => {
                let meta: DataFileMeta = build_meta(
                    file_name,
                    receipt,
                    row_count,
                    self.config.schema_id,
                );
                self.written_files.push(meta);
                Ok(self.settle())
            },
            (Phase::Joining, Event::ClosedInBackground { file_name, receipt }) => {
                match find_named(&self.in_flight, &file_name) {
                    Some(i) => {
                        let file: RolledFile = self.in_flight.remove(i);
                        let meta: DataFileMeta = build_meta(
                            file.file_name,
                            receipt,
                            file.row_count,
                            self.config.schema_id,
                        );
                        self.written_files.push(meta);
                        Ok(self.settle())
                    },
                    None => {
                        self.phase = Phase::Joining;
                        Err(Error::UnexpectedEvent)
                    },
                }
            },
            (Phase::Joining, Event::CloseFailed { file_name, error }) => {
                self.phase = Phase::Joining;
                self.lose_file(&file_name, error)
            },
            (Phase::Joining, Event::ClosePanicked { file_name, text }) => {
                self.phase = Phase::Joining;
                let error: Error = close_panic(&text);
                assert(close_panicked(error, text@));
                self.lose_file(&file_name, error)
            },
            (phase, _) => {
                self.phase = phase;
                Err(Error::UnexpectedEvent)
            },
        }
    }
}

} // verus!
