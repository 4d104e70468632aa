//! The write of a table: rows are routed to the writer of their bucket, and a commit collects the
//! files of all writers.

use crate::arrow::{batch_columns, batch_rows, RecordBatch};
use crate::binary_row::MAX_ARITY;
use crate::bucket_writer::BucketWriter;
use crate::data_file_writer::{DataFileWriter, RolledFile};
use crate::error::Error;
use crate::files::WriterConfig;
use crate::key_value_writer::KeyValueFileWriter;
use crate::meta::{CommitMessage, DataFileMeta};
use crate::protocol::{Action, Event, Step};
use crate::route::{Route, RoutedBatch, Router};
use crate::schema::{key_positions, positions, DataField, Table};
use vstd::prelude::*;
use vstd::string::*;

verus! {

/// What a write knows of its table.
pub struct TableSettings {
    pub location: String,
    pub partition_keys: Vec<String>,
    pub schema_id: i64,
    pub target_file_size: i64,
    pub file_compression: String,
    pub file_compression_zstd_level: i32,
    pub write_buffer_size: i64,
    /// The columns of the primary key, none for an append-only table.
    pub primary_key_indices: Vec<usize>,
    /// The first sequence number that a writer of a primary-key table assigns.
    pub next_sequence_number: i64,
}

/// The writer of one bucket of one partition.
pub struct PartitionWriter {
    pub partition: Vec<u8>,
    pub bucket: i32,
    pub writer: BucketWriter,
}

/// What a write is doing.
pub enum Task {
    /// Nothing.
    Idle,
    /// It is about to take the next part or batch.
    Between,
    /// It waits for the directory of the part's partition.
    Resolving { part: RoutedBatch },
    /// The writer at the index takes a part.
    Writing { index: usize },
    /// It is about to commit the next writer.
    Draining,
    /// The writer is being committed.
    Closing { entry: PartitionWriter },
}

/// A write of a table.
pub struct TableWrite {
    pub settings: TableSettings,
    pub router: Router,
    /// The writers, one for each place that rows went to.
    pub partition_writers: Vec<PartitionWriter>,
    /// The batches that wait to be divided, behind those that were divided already.
    pub batches: Vec<RecordBatch>,
    /// The first of the batches that waits.
    pub next_batch: usize,
    /// The parts of a batch that wait to be written.
    pub parts: Vec<RoutedBatch>,
    /// The writers that wait to be committed.
    pub drained: Vec<PartitionWriter>,
    /// The messages of the writers that were committed.
    pub messages: Vec<CommitMessage>,
    pub task: Task,
}

impl TableSettings {
    /// Whether the configuration is that of a writer below the given directory.
    pub open spec fn configures(&self, path: Seq<char>, bucket: i32, config: WriterConfig) -> bool {
        &&& config.table_location@ == self.location@
        &&& config.partition_path@ == path
        &&& config.bucket == bucket
        &&& config.schema_id == self.schema_id
        &&& config.target_file_size == self.target_file_size
        &&& config.file_compression@ == self.file_compression@
        &&& config.file_compression_zstd_level == self.file_compression_zstd_level
        &&& config.write_buffer_size == self.write_buffer_size
    }

    /// Whether the writer is a new one below the given directory: one that sorts by primary key
    /// exactly where the table has one.
    pub open spec fn starts(&self, path: Seq<char>, bucket: i32, writer: BucketWriter) -> bool {
        match writer {
            BucketWriter::Append(w) => {
                &&& self.primary_key_indices@.len() == 0
                &&& self.configures(path, bucket, w.config)
                &&& w.phase is Idle
                &&& w.written_files@ == Seq::<DataFileMeta>::empty()
                &&& w.in_flight@ == Seq::<RolledFile>::empty()
                &&& w.current_file_name is None
                &&& w.current_row_count == 0
            },
            BucketWriter::KeyValue(w) => {
                &&& self.primary_key_indices@.len() > 0
                &&& self.configures(path, bucket, w.config)
                &&& w.phase is Idle
                &&& !w.committing
                &&& w.primary_key_indices@ == self.primary_key_indices@
                &&& w.next_sequence_number == self.next_sequence_number
                &&& w.buffer@ == Seq::<RecordBatch>::empty()
                &&& w.buffer_bytes == 0
                &&& w.written_files@ == Seq::<DataFileMeta>::empty()
            },
        }
    }

    /// A new writer below the given directory.
    fn start_writer(&self, partition_path: String, bucket: i32) -> (r: BucketWriter)
        requires
            self.primary_key_indices@.len() <= MAX_ARITY,
        ensures
            r.wf(),
            self.starts(partition_path@, bucket, r),
            r.rows() == 0,
    {
        let config: WriterConfig = WriterConfig {
            table_location: self.location.clone(),
            partition_path,
            bucket,
            schema_id: self.schema_id,
            target_file_size: self.target_file_size,
            file_compression: self.file_compression.clone(),
            file_compression_zstd_level: self.file_compression_zstd_level,
            write_buffer_size: self.write_buffer_size,
        };
        if self.primary_key_indices.len() == 0 {
            BucketWriter::Append(DataFileWriter::new(config))
        } else {
            let keys: Vec<usize> = self.primary_key_indices.clone();
            assert(keys@ =~= self.primary_key_indices@);
            BucketWriter::KeyValue(KeyValueFileWriter::new(config, keys, self.next_sequence_number))
        }
    }
}

impl PartitionWriter {
    /// The place whose rows the writer takes.
    pub open spec fn place(&self) -> Route {
        Route { partition: self.partition@, bucket: self.bucket as int }
    }
}

/// The places of the writers.
pub open spec fn writer_places(writers: Seq<PartitionWriter>) -> Seq<Route> {
    Seq::new(writers.len(), |i: int| writers[i].place())
}

/// The places of the messages.
pub open spec fn message_places(messages: Seq<CommitMessage>) -> Seq<Route> {
    Seq::new(
        messages.len(),
        |i: int| Route { partition: messages[i].partition@, bucket: messages[i].bucket as int },
    )
}

/// The same columns again.
fn copy_fields(fields: &Vec<DataField>) -> (r: Vec<DataField>)
    ensures
        r@ == fields@,
{
    let mut r: Vec<DataField> = Vec::new();
    let mut i: usize = 0;
    while i < fields.len()
        invariant
            i <= fields@.len(),
            r@ == fields@.take(i as int),
        decreases fields@.len() - i,
    {
        r.push(DataField { name: fields[i].name.clone(), data_type: fields[i].data_type });
        assert(r@ =~= fields@.take(i + 1));
        i += 1;
    }
    assert(fields@.take(i as int) =~= fields@);
    r
}

/// The writer of the given place.
fn find_writer(writers: &Vec<PartitionWriter>, partition: &Vec<u8>, bucket: i32) -> (r: Option<
    usize,
>)
    ensures
        match r {
            Some(i) => {
                &&& i < writers@.len()
                &&& writers@[i as int].place() == (Route {
                    partition: partition@,
                    bucket: bucket as int,
                })
            },
            None => !writer_places(writers@).contains(
                (Route { partition: partition@, bucket: bucket as int }),
            ),
        },
        r is Some ==> writer_places(writers@).contains(
            (Route { partition: partition@, bucket: bucket as int }),
        ),
{
    let mut i: usize = 0;
    while i < writers.len()
        invariant
            i <= writers@.len(),
            forall|k: int|
                #![trigger writers@[k]]
                0 <= k < i ==> writers@[k].place() != (Route {
                    partition: partition@,
                    bucket: bucket as int,
                }),
        decreases writers@.len() - i,
    {
        if writers[i].bucket == bucket && writers[i].partition == *partition {
            assert(writers@[i as int].partition@ =~= partition@);
            assert(writer_places(writers@)[i as int] == writers@[i as int].place());
            return Some(i);
        }
        i += 1;
    }
    None
}

impl TableWrite {
    /// The writers are sound and of different places, and only the one that the task names waits
    /// for storage. Work waits only where the task will come to it.
    pub open spec fn wf(&self) -> bool {
        &&& self.router.wf()
        &&& self.settings.primary_key_indices@.len() <= MAX_ARITY
        &&& self.next_batch <= self.batches@.len()
        &&& writers_wf(self.partition_writers@)
        &&& writers_wf(self.drained@)
        &&& forall|i: int|
            #![trigger self.drained@[i]]
            0 <= i < self.drained@.len() ==> self.drained@[i].writer.idle()
        &&& forall|i: int|
            #![trigger self.partition_writers@[i]]
            0 <= i < self.partition_writers@.len() ==> self.partition_writers@[i].writer.idle() || (
            self.task matches Task::Writing { index } && index == i)
        &&& writer_places(self.partition_writers@).no_duplicates()
        &&& self.commit_places().no_duplicates()
        &&& forall|i: int|
            #![trigger self.messages@[i]]
            0 <= i < self.messages@.len() ==> self.messages@[i].new_files@.len() > 0
        &&& match self.task {
            Task::Idle => self.nothing_waits() && self.commit_empty(),
            Task::Between => self.commit_empty() && !self.queues_empty(),
            Task::Resolving { part } => {
                &&& self.commit_empty()
                &&& !writer_places(self.partition_writers@).contains(part.place())
            },
            Task::Writing { index } => {
                &&& self.commit_empty()
                &&& index < self.partition_writers@.len()
                &&& self.partition_writers@[index as int].writer.in_write()
            },
            Task::Draining => {
                &&& self.nothing_waits()
                &&& self.partition_writers@.len() == 0
                &&& self.drained@.len() > 0
            },
            Task::Closing { entry } => {
                &&& self.nothing_waits()
                &&& self.partition_writers@.len() == 0
                &&& entry.writer.wf()
                &&& entry.writer.in_commit()
            },
        }
    }

    /// Whether the next part or batch can be taken, whatever the task is.
    pub open spec fn ready(&self) -> bool {
        &&& self.router.wf()
        &&& self.settings.primary_key_indices@.len() <= MAX_ARITY
        &&& self.next_batch <= self.batches@.len()
        &&& writers_wf(self.partition_writers@)
        &&& forall|i: int|
            #![trigger self.partition_writers@[i]]
            0 <= i < self.partition_writers@.len() ==> self.partition_writers@[i].writer.idle()
        &&& writer_places(self.partition_writers@).no_duplicates()
        &&& self.commit_empty()
    }

    /// Whether the next writer can be committed, whatever the task is, with the given places
    /// between those of the messages and those to come.
    pub open spec fn ready_to_commit(&self, between: Seq<Route>) -> bool {
        &&& self.router.wf()
        &&& self.settings.primary_key_indices@.len() <= MAX_ARITY
        &&& self.nothing_waits()
        &&& self.partition_writers@.len() == 0
        &&& writers_wf(self.drained@)
        &&& forall|i: int|
            #![trigger self.drained@[i]]
            0 <= i < self.drained@.len() ==> self.drained@[i].writer.idle()
        &&& (message_places(self.messages@) + between + writer_places(
            self.drained@,
        )).no_duplicates()
        &&& forall|i: int|
            #![trigger self.messages@[i]]
            0 <= i < self.messages@.len() ==> self.messages@[i].new_files@.len() > 0
    }

    /// The batches that wait to be divided.
    pub open spec fn queue(&self) -> Seq<RecordBatch> {
        self.batches@.skip(self.next_batch as int)
    }

    /// Nothing waits to be written.
    pub open spec fn queues_empty(&self) -> bool {
        self.next_batch == self.batches@.len() && self.parts@.len() == 0
    }

    /// Nothing waits to be written, and no batch is kept.
    pub open spec fn nothing_waits(&self) -> bool {
        self.batches@.len() == 0 && self.next_batch == 0 && self.parts@.len() == 0
    }

    /// Nothing waits to be committed.
    pub open spec fn commit_empty(&self) -> bool {
        self.drained@.len() == 0 && self.messages@.len() == 0
    }

    /// The places of a commit: those of its messages, and those still to come.
    pub open spec fn commit_places(&self) -> Seq<Route> {
        message_places(self.messages@) + (match self.task {
            Task::Closing { entry } => seq![entry.place()],
            _ => Seq::empty(),
        }) + writer_places(self.drained@)
    }

    /// The write is the one that a table and a first sequence number ask for.
    pub open spec fn writes_to(&self, table: Table, next_sequence_number: i64) -> bool {
        let fields = table.schema.fields@;
        &&& self.settings.location@ == table.location@
        &&& self.settings.partition_keys@ == table.schema.partition_keys@
        &&& self.settings.schema_id == table.schema.id
        &&& self.settings.target_file_size == table.options.target_file_size
        &&& self.settings.file_compression@ == table.options.file_compression@
        &&& self.settings.file_compression_zstd_level == table.options.file_compression_zstd_level
        &&& self.settings.write_buffer_size == table.options.write_parquet_buffer_size
        &&& self.settings.primary_key_indices@ == key_positions(fields, table.schema.primary_keys@)
        &&& self.settings.next_sequence_number == next_sequence_number
        &&& self.router.fields@ == fields
        &&& self.router.partition_field_indices@ == key_positions(
            fields,
            table.schema.partition_keys@,
        )
        &&& self.router.bucket_key_indices@ == key_positions(fields, table.schema.bucket_keys@)
        &&& self.router.total_buckets == table.options.bucket
        &&& self.partition_writers@.len() == 0
        &&& self.task is Idle
    }

    /// Everything that waits is dropped; the writers stay.
    pub open spec fn abandons(pre: Self, post: Self) -> bool {
        &&& post.settings == pre.settings
        &&& post.router == pre.router
        &&& post.partition_writers == pre.partition_writers
        &&& post.nothing_waits()
        &&& post.commit_empty()
        &&& post.task is Idle
    }

    /// The write goes on with the next part or batch, or is over.
    pub open spec fn rests(pre: Self, post: Self, step: Step) -> bool {
        if pre.queues_empty() {
            &&& step == Step::Done
            &&& post.batches@.len() == 0
            &&& post == (TableWrite {
                batches: post.batches,
                next_batch: 0,
                task: Task::Idle,
                ..pre
            })
        } else {
            step == Step::Proceed && post == (TableWrite { task: Task::Between, ..pre })
        }
    }

    /// The batch is divided, and its parts are next. An empty batch is passed over.
    pub open spec fn takes(
        pre: Self,
        batch: RecordBatch,
        post: Self,
        r: Result<Step, Error>,
    ) -> bool {
        if batch_rows(batch) == 0 {
            r matches Ok(step) && Self::rests(pre, post, step)
        } else {
            exists|division: Result<Vec<RoutedBatch>, Error>|
                {
                    &&& #[trigger] pre.router.division(batch, division)
                    &&& match division {
                        Ok(parts) => r matches Ok(step) && Self::rests(
                            TableWrite { parts, ..pre },
                            post,
                            step,
                        ),
                        Err(error) => r == Err::<Step, Error>(error) && Self::abandons(pre, post),
                    }
                }
        }
    }

    /// The batches wait to be divided, in order.
    pub open spec fn queues(
        pre: Self,
        batches: Seq<RecordBatch>,
        post: Self,
        r: Result<Step, Error>,
    ) -> bool {
        &&& r matches Ok(step)
        &&& post.batches@ == batches
        &&& Self::rests(TableWrite { batches: post.batches, next_batch: 0, ..pre }, post, step)
    }

    /// The writer at the index has answered `result` and is now `writer`.
    pub open spec fn write_goes_on(
        pre: Self,
        index: int,
        writer: BucketWriter,
        result: Result<Action, Error>,
        post: Self,
        r: Result<Step, Error>,
    ) -> bool {
        let entry = pre.partition_writers@[index];
        let writers = pre.partition_writers@.update(index, PartitionWriter { writer, ..entry });
        &&& post.partition_writers@ == writers
        &&& match result {
            Ok(action) => if action is Done {
                r matches Ok(step) && Self::rests(
                    TableWrite { partition_writers: post.partition_writers, ..pre },
                    post,
                    step,
                )
            } else {
                &&& r matches Ok(Step::Bucket { partition, bucket, action: asked })
                &&& partition@ == entry.partition@
                &&& bucket == entry.bucket
                &&& asked == action
                &&& post == (TableWrite {
                    partition_writers: post.partition_writers,
                    task: Task::Writing { index: index as usize },
                    ..pre
                })
            },
            Err(error) => {
                &&& r == Err::<Step, Error>(error)
                &&& if writer.idle() {
                    Self::abandons(
                        TableWrite { partition_writers: post.partition_writers, ..pre },
                        post,
                    )
                } else {
                    post == (TableWrite { partition_writers: post.partition_writers, ..pre })
                }
            },
        }
    }

    /// The writer at the index takes the batch.
    pub open spec fn writes_at(
        pre: Self,
        index: int,
        batch: RecordBatch,
        post: Self,
        r: Result<Step, Error>,
    ) -> bool {
        exists|writer: BucketWriter, result: Result<Action, Error>|
            {
                &&& #[trigger] BucketWriter::writes(
                    pre.partition_writers@[index].writer,
                    batch,
                    writer,
                    result,
                )
                &&& Self::write_goes_on(pre, index, writer, result, post, r)
            }
    }

    /// A new writer is made for the part's place, below the given directory, and takes the part.
    pub open spec fn writes_new(
        pre: Self,
        path: Seq<char>,
        part: RoutedBatch,
        post: Self,
        r: Result<Step, Error>,
    ) -> bool {
        exists|mid: Self|
            {
                &&& #[trigger] pre.adds_writer(path, part, mid)
                &&& Self::writes_at(mid, pre.partition_writers@.len() as int, part.batch, post, r)
            }
    }

    /// `post` has one writer more, a new one for the part's place.
    pub open spec fn adds_writer(self, path: Seq<char>, part: RoutedBatch, post: Self) -> bool {
        &&& post.partition_writers@.len() == self.partition_writers@.len() + 1
        &&& post.partition_writers@.drop_last() == self.partition_writers@
        &&& post.partition_writers@.last().partition@ == part.partition@
        &&& post.partition_writers@.last().bucket == part.bucket
        &&& self.settings.starts(path, part.bucket, post.partition_writers@.last().writer)
        &&& post == (TableWrite { partition_writers: post.partition_writers, ..self })
    }

    /// The part goes to the writer of its place, which is made first where there is none. Where
    /// the table has partitions, the directory must be asked for.
    pub open spec fn places(
        pre: Self,
        part: RoutedBatch,
        post: Self,
        r: Result<Step, Error>,
    ) -> bool {
        let place = part.place();
        if writer_places(pre.partition_writers@).contains(place) {
            exists|i: int|
                {
                    &&& 0 <= i < pre.partition_writers@.len()
                    &&& (#[trigger] pre.partition_writers@[i]).place() == place
                    &&& Self::writes_at(pre, i, part.batch, post, r)
                }
        } else if pre.settings.partition_keys@.len() == 0 {
            Self::writes_new(pre, Seq::empty(), part, post, r)
        } else {
            &&& r matches Ok(Step::ResolvePartition { partition })
            &&& partition@ == part.partition@
            &&& post == (TableWrite { task: Task::Resolving { part }, ..pre })
        }
    }

    /// The next part is placed, or else the next batch taken.
    pub open spec fn advances(pre: Self, post: Self, r: Result<Step, Error>) -> bool {
        if pre.parts@.len() > 0 {
            exists|mid: Self|
                {
                    &&& #[trigger] pre.drops_part(mid)
                    &&& Self::places(mid, pre.parts@[0], post, r)
                }
        } else {
            exists|mid: Self|
                {
                    &&& #[trigger] pre.drops_batch(mid)
                    &&& Self::takes(mid, pre.queue()[0], post, r)
                }
        }
    }

    /// `post` lacks the first of the parts.
    pub open spec fn drops_part(self, post: Self) -> bool {
        &&& post.parts@ == self.parts@.skip(1)
        &&& post == (TableWrite { parts: post.parts, ..self })
    }

    /// In `post` the first of the batches waits no more.
    pub open spec fn drops_batch(self, post: Self) -> bool {
        &&& post.next_batch == self.next_batch + 1
        &&& post == (TableWrite { next_batch: post.next_batch, ..self })
    }

    /// The commit goes on with the next writer, or hands the messages over.
    pub open spec fn collects(pre: Self, post: Self, r: Result<Step, Error>) -> bool {
        if pre.drained@.len() == 0 {
            &&& r matches Ok(Step::Committed { messages })
            &&& messages@ == pre.messages@
            &&& post.messages@.len() == 0
            &&& post == (TableWrite { messages: post.messages, task: Task::Idle, ..pre })
        } else {
            &&& r == Ok::<Step, Error>(Step::Proceed)
            &&& post == (TableWrite { task: Task::Draining, ..pre })
        }
    }

    /// `post` has one message more, that of the entry with the given files; none where there are
    /// no files.
    pub open spec fn adds_message(
        self,
        entry: PartitionWriter,
        files: Vec<DataFileMeta>,
        post: Self,
    ) -> bool {
        if files@.len() == 0 {
            post == self
        } else {
            &&& post.messages@.len() == self.messages@.len() + 1
            &&& post.messages@.drop_last() == self.messages@
            &&& post.messages@.last().partition@ == entry.partition@
            &&& post.messages@.last().bucket == entry.bucket
            &&& post.messages@.last().new_files == files
            &&& post == (TableWrite { messages: post.messages, ..self })
        }
    }

    /// The writer of the entry, as it is now, has answered `result`.
    pub open spec fn commit_goes_on(
        pre: Self,
        entry: PartitionWriter,
        result: Result<Action, Error>,
        post: Self,
        r: Result<Step, Error>,
    ) -> bool {
        match result {
            Ok(Action::Files { files }) => exists|mid: Self|
                {
                    &&& #[trigger] pre.adds_message(entry, files, mid)
                    &&& Self::collects(mid, post, r)
                },
            Ok(action) => {
                &&& r matches Ok(Step::Bucket { partition, bucket, action: asked })
                &&& partition@ == entry.partition@
                &&& bucket == entry.bucket
                &&& asked == action
                &&& post == (TableWrite { task: Task::Closing { entry }, ..pre })
            },
            Err(error) => {
                &&& r == Err::<Step, Error>(error)
                &&& if entry.writer.idle() {
                    Self::abandons(pre, post)
                } else {
                    post == (TableWrite { task: Task::Closing { entry }, ..pre })
                }
            },
        }
    }

    /// The next writer is committed; the messages are handed over where there is none.
    pub open spec fn drains(pre: Self, post: Self, r: Result<Step, Error>) -> bool {
        if pre.drained@.len() == 0 {
            Self::collects(pre, post, r)
        } else {
            let entry = pre.drained@[0];
            exists|mid: Self, writer: BucketWriter, result: Result<Action, Error>|
                {
                    &&& #[trigger] pre.drops_drained(mid)
                    &&& #[trigger] BucketWriter::commits(entry.writer, writer, result)
                    &&& Self::commit_goes_on(
                        mid,
                        PartitionWriter { writer, ..entry },
                        result,
                        post,
                        r,
                    )
                }
        }
    }

    /// `post` lacks the first of the writers that wait to be committed.
    pub open spec fn drops_drained(self, post: Self) -> bool {
        &&& post.drained@ == self.drained@.skip(1)
        &&& post == (TableWrite { drained: post.drained, ..self })
    }

    /// A commit begins: all writers wait to be committed, and none is left.
    pub open spec fn commits(pre: Self, post: Self, r: Result<Step, Error>) -> bool {
        exists|mid: Self|
            {
                &&& #[trigger] pre.drains_all(mid)
                &&& Self::drains(mid, post, r)
            }
    }

    /// In `post` the writers wait to be committed.
    pub open spec fn drains_all(self, post: Self) -> bool {
        &&& post.drained@ == self.partition_writers@
        &&& post.partition_writers@.len() == 0
        &&& post == (TableWrite {
            drained: post.drained,
            partition_writers: post.partition_writers,
            ..self
        })
    }

    /// The step that was asked for is answered.
    pub open spec fn resumes(pre: Self, event: Event, post: Self, r: Result<Step, Error>) -> bool {
        let free = TableWrite { task: Task::Idle, ..pre };
        match (pre.task, event) {
            (Task::Writing { index }, _) => exists|
                writer: BucketWriter,
                result: Result<Action, Error>,
            |
                {
                    &&& #[trigger] BucketWriter::resumes(
                        pre.partition_writers@[index as int].writer,
                        event,
                        writer,
                        result,
                    )
                    &&& Self::write_goes_on(pre, index as int, writer, result, post, r)
                },
            (Task::Closing { entry }, _) => exists|
                writer: BucketWriter,
                result: Result<Action, Error>,
            |
                {
                    &&& #[trigger] BucketWriter::resumes(entry.writer, event, writer, result)
                    &&& Self::commit_goes_on(
                        free,
                        PartitionWriter { writer, ..entry },
                        result,
                        post,
                        r,
                    )
                },
            (_, Event::Failed { error }) => {
                &&& r == Err::<Step, Error>(error)
                &&& Self::abandons(pre, post)
            },
            (Task::Between, Event::Done) => Self::advances(free, post, r),
            (Task::Resolving { part }, Event::PartitionPath { path }) => Self::writes_new(
                free,
                path@,
                part,
                post,
                r,
            ),
            (Task::Draining, Event::Done) => Self::drains(free, post, r),
            _ => r == Err::<Step, Error>(Error::UnexpectedEvent) && post == pre,
        }
    }
}

impl TableWrite {
    /// A write of the table, whose primary-key writers assign sequence numbers from the given one
    /// on. Tables with data evolution are not supported, nor append-only tables with a fixed
    /// number of buckets and no bucket key.
    pub fn new(table: &Table, next_sequence_number: i64) -> (r: Result<Self, Error>)
        requires
            table.schema.partition_keys@.len() <= MAX_ARITY,
            table.schema.primary_keys@.len() <= MAX_ARITY,
            table.schema.bucket_keys@.len() <= MAX_ARITY,
        ensures
            if table.options.data_evolution_enabled {
                r matches Err(Error::Unsupported { message }) && message@
                    == "TableWrite does not support data-evolution.enabled mode"@
            } else if table.schema.primary_keys@.len() == 0 && table.options.bucket != -1
                && table.options.bucket_key is None {
                r matches Err(Error::Unsupported { message }) && message@
                    == "Append tables with fixed bucket must configure 'bucket-key'"@
            } else {
                r matches Ok(write) && write.wf() && write.writes_to(*table, next_sequence_number)
            },
    {
        if table.options.data_evolution_enabled {
            let mut message: String = String::new();
            message.append("TableWrite does not support data-evolution.enabled mode");
            assert(message@ =~= "TableWrite does not support data-evolution.enabled mode"@);
            return Err(Error::Unsupported { message });
        }
        if table.schema.primary_keys.len() == 0 && table.options.bucket != -1
            && table.options.bucket_key.is_none() {
            let mut message: String = String::new();
            message.append("Append tables with fixed bucket must configure 'bucket-key'");
            assert(message@ =~= "Append tables with fixed bucket must configure 'bucket-key'"@);
            return Err(Error::Unsupported { message });
        }
        let fields: Vec<DataField> = copy_fields(&table.schema.fields);
        let partition_field_indices: Vec<usize> = positions(&fields, &table.schema.partition_keys);
        let bucket_key_indices: Vec<usize> = positions(&fields, &table.schema.bucket_keys);
        let primary_key_indices: Vec<usize> = positions(&fields, &table.schema.primary_keys);
        let partition_keys: Vec<String> = table.schema.partition_keys.clone();
        assert(partition_keys@ =~= table.schema.partition_keys@);
        Ok(
            TableWrite {
                settings: TableSettings {
                    location: table.location.clone(),
                    partition_keys,
                    schema_id: table.schema.id,
                    target_file_size: table.options.target_file_size,
                    file_compression: table.options.file_compression.clone(),
                    file_compression_zstd_level: table.options.file_compression_zstd_level,
                    write_buffer_size: table.options.write_parquet_buffer_size,
                    primary_key_indices,
                    next_sequence_number,
                },
                router: Router {
                    fields,
                    partition_field_indices,
                    bucket_key_indices,
                    total_buckets: table.options.bucket,
                },
                partition_writers: Vec::new(),
                batches: Vec::new(),
                next_batch: 0,
                parts: Vec::new(),
                drained: Vec::new(),
                messages: Vec::new(),
                task: Task::Idle,
            },
        )
    }

    /// Where a row goes.
    pub fn extract_partition_bucket(&self, batch: &RecordBatch, row: usize) -> (r: Result<
        (Vec<u8>, i32),
        Error,
    >)
        requires
            self.wf(),
            row < batch_rows(*batch),
        ensures
            match self.router.row_fault(batch_columns(*batch), row as int) {
                Some(error) => r == Err::<(Vec<u8>, i32), Error>(error),
                None => {
                    let route = self.router.route(batch_columns(*batch), row as int);
                    &&& r matches Ok(place)
                    &&& place.0@ == route.partition
                    &&& place.1 == route.bucket
                },
            },
    {
        self.router.extract_partition_bucket(batch, row)
    }

    /// Writes a batch: its rows go to the writers of their places.
    pub fn write_arrow_batch(&mut self, batch: &RecordBatch) -> (r: Result<Step, Error>)
        requires
            old(self).wf(),
            old(self).task is Idle,
        ensures
            final(self).wf(),
            Self::takes(*old(self), *batch, *final(self), r),
    {
        self.take_batch(batch)
    }

    /// Writes batches, one after the other.
    pub fn write_arrow(&mut self, batches: &[RecordBatch]) -> (r: Result<Step, Error>)
        requires
            old(self).wf(),
            old(self).task is Idle,
        ensures
            final(self).wf(),
            Self::queues(*old(self), batches@, *final(self), r),
    {
        let mut queue: Vec<RecordBatch> = Vec::new();
        let mut i: usize = 0;
        while i < batches.len()
            invariant
                i <= batches@.len(),
                queue@ == batches@.take(i as int),
            decreases batches@.len() - i,
        {
            queue.push(batches[i].share());
            assert(queue@ =~= batches@.take(i + 1));
            i += 1;
        }
        assert(batches@.take(i as int) =~= batches@);
        self.batches = queue;
        self.next_batch = 0;
        let step: Step = self.rest();
        assert(self.batches@ =~= batches@);
        Ok(step)
    }

    /// Goes on with the next part or batch, or is done.
    fn rest(&mut self) -> (r: Step)
        requires
            old(self).ready(),
        ensures
            final(self).wf(),
            Self::rests(*old(self), *final(self), r),
    {
        if self.parts.len() == 0 && self.next_batch == self.batches.len() {
            self.batches = Vec::new();
            self.next_batch = 0;
            self.task = Task::Idle;
            return Step::Done;
        }
        self.task = Task::Between;
        Step::Proceed
    }

    /// Divides a batch, so that its parts are next.
    fn take_batch(&mut self, batch: &RecordBatch) -> (r: Result<Step, Error>)
        requires
            old(self).ready(),
            old(self).parts@.len() == 0,
        ensures
            final(self).wf(),
            Self::takes(*old(self), *batch, *final(self), r),
    {
        if batch.num_rows() == 0 {
            return Ok(self.rest());
        }
        match self.router.divide_by_partition_bucket(batch) {
            Ok(parts) => {
                assert(self.router.division(*batch, Ok::<Vec<RoutedBatch>, Error>(parts)));
                self.parts = parts;
                Ok(self.rest())
            },
            Err(error) => {
                assert(self.router.division(*batch, Err::<Vec<RoutedBatch>, Error>(error)));
                self.abandon();
                Err(error)
            },
        }
    }

    /// Drops everything that waits.
    fn abandon(&mut self)
        requires
            old(self).router.wf(),
            old(self).settings.primary_key_indices@.len() <= MAX_ARITY,
            writers_wf(old(self).partition_writers@),
            forall|i: int|
                #![trigger old(self).partition_writers@[i]]
                0 <= i < old(self).partition_writers@.len() ==> old(
                    self,
                ).partition_writers@[i].writer.idle(),
            writer_places(old(self).partition_writers@).no_duplicates(),
        ensures
            final(self).wf(),
            Self::abandons(*old(self), *final(self)),
    {
        self.batches = Vec::new();
        self.next_batch = 0;
        self.parts = Vec::new();
        self.drained = Vec::new();
        self.messages = Vec::new();
        self.task = Task::Idle;
        assert(self.commit_places() =~= Seq::<Route>::empty());
    }

    /// Hands a part to the writer of its place.
    fn write_bucket(&mut self, part: RoutedBatch) -> (r: Result<Step, Error>)
        requires
            old(self).ready(),
        ensures
            final(self).wf(),
            Self::places(*old(self), part, *final(self), r),
    {
        match find_writer(&self.partition_writers, &part.partition, part.bucket) {
            Some(index) => self.write_at(index, part.batch),
            None => {
                if self.settings.partition_keys.len() == 0 {
                    let path: String = String::new();
                    assert(path@ =~= Seq::<char>::empty());
                    self.write_new(path, part)
                } else {
                    let partition: Vec<u8> = part.partition.clone();
                    assert(partition@ =~= part.partition@);
                    self.task = Task::Resolving { part };
                    assert(self.commit_places() =~= Seq::<Route>::empty());
                    Ok(Step::ResolvePartition { partition })
                }
            },
        }
    }

    /// Makes the writer of a part's place and hands the part to it.
    fn write_new(&mut self, path: String, part: RoutedBatch) -> (r: Result<Step, Error>)
        requires
            old(self).ready(),
            !writer_places(old(self).partition_writers@).contains(part.place()),
        ensures
            final(self).wf(),
            Self::writes_new(*old(self), path@, part, *final(self), r),
    {
        let partition: Vec<u8> = part.partition.clone();
        assert(partition@ =~= part.partition@);
        self.create_writer(path, partition, part.bucket);
        let ghost mid = *self;
        assert(old(self).adds_writer(path@, part, mid));
        let index: usize = self.partition_writers.len() - 1;
        self.write_at(index, part.batch)
    }

    /// Makes the writer of a place.
    fn create_writer(&mut self, path: String, partition: Vec<u8>, bucket: i32)
        requires
            old(self).ready(),
            !writer_places(old(self).partition_writers@).contains(
                (Route { partition: partition@, bucket: bucket as int }),
            ),
        ensures
            final(self).ready(),
            final(self).partition_writers@.len() == old(self).partition_writers@.len() + 1,
            final(self).partition_writers@.drop_last() == old(self).partition_writers@,
            final(self).partition_writers@.last().partition == partition,
            final(self).partition_writers@.last().bucket == bucket,
            old(self).settings.starts(
                path@,
                bucket,
                final(self).partition_writers@.last().writer,
            ),
            *final(self) == (TableWrite {
                partition_writers: final(self).partition_writers,
                ..*old(self)
            }),
    {
        let writer: BucketWriter = self.settings.start_writer(path, bucket);
        let entry: PartitionWriter = PartitionWriter { partition, bucket, writer };
        self.partition_writers.push(entry);
        proof {
            let before = writer_places(old(self).partition_writers@);
            let after = writer_places(self.partition_writers@);
            assert(self.partition_writers@.drop_last() =~= old(self).partition_writers@);
            assert(after =~= before.push(entry.place()));
            assert forall|i: int, j: int| 0 <= i < after.len() && 0 <= j < after.len() && i
                != j implies after[i] != after[j] by {
                if i < before.len() && j == before.len() {
                    assert(before.contains(before[i]));
                }
                if j < before.len() && i == before.len() {
                    assert(before.contains(before[j]));
                }
            }
        }
    }

    /// Hands a batch to the writer at the index.
    fn write_at(&mut self, index: usize, batch: RecordBatch) -> (r: Result<Step, Error>)
        requires
            old(self).ready(),
            index < old(self).partition_writers@.len(),
        ensures
            final(self).wf(),
            Self::writes_at(*old(self), index as int, batch, *final(self), r),
    {
        let result: Result<Action, Error> = self.partition_writers[index].writer.write(batch);
        let ghost writer = self.partition_writers@[index as int].writer;
        assert(BucketWriter::writes(
            old(self).partition_writers@[index as int].writer,
            batch,
            writer,
            result,
        ));
        proof {
            lemma_same_places(old(self).partition_writers@, self.partition_writers@);
        }
        self.finish_write(index, result)
    }

    /// Goes on after the writer at the index has answered.
    fn finish_write(&mut self, index: usize, result: Result<Action, Error>) -> (r: Result<
        Step,
        Error,
    >)
        requires
            old(self).router.wf(),
            old(self).settings.primary_key_indices@.len() <= MAX_ARITY,
            writers_wf(old(self).partition_writers@),
            writer_places(old(self).partition_writers@).no_duplicates(),
            old(self).commit_empty(),
            old(self).next_batch <= old(self).batches@.len(),
            index < old(self).partition_writers@.len(),
            forall|i: int|
                #![trigger old(self).partition_writers@[i]]
                0 <= i < old(self).partition_writers@.len() && i != index ==> old(
                    self,
                ).partition_writers@[i].writer.idle(),
            match result {
                Ok(action) => if action is Done {
                    old(self).partition_writers@[index as int].writer.idle()
                } else {
                    old(self).partition_writers@[index as int].writer.in_write()
                },
                Err(_) => {
                    ||| old(self).partition_writers@[index as int].writer.idle()
                    ||| old(self).wf() && old(self).task == (Task::Writing { index })
                },
            },
        ensures
            final(self).wf(),
            final(self).partition_writers == old(self).partition_writers,
            Self::write_goes_on(
                *old(self),
                index as int,
                old(self).partition_writers@[index as int].writer,
                result,
                *final(self),
                r,
            ),
    {
        assert(self.partition_writers@.update(
            index as int,
            self.partition_writers@[index as int],
        ) =~= self.partition_writers@);
        match result {
            Ok(Action::Done) => Ok(self.rest()),
            Ok(action) => {
                let partition: Vec<u8> = self.partition_writers[index].partition.clone();
                assert(partition@ =~= self.partition_writers@[index as int].partition@);
                let bucket: i32 = self.partition_writers[index].bucket;
                self.task = Task::Writing { index };
                assert(self.commit_places() =~= Seq::<Route>::empty());
                Ok(Step::Bucket { partition, bucket, action })
            },
            Err(error) => {
                if self.partition_writers[index].writer.is_idle() {
                    self.abandon();
                }
                Err(error)
            },
        }
    }

    /// Closes all writers and collects the messages for a commit. No writers are left, so that
    /// the write can be used again.
    pub fn prepare_commit(&mut self) -> (r: Result<Step, Error>)
        requires
            old(self).wf(),
            old(self).task is Idle,
        ensures
            final(self).wf(),
            Self::commits(*old(self), *final(self), r),
    {
        std::mem::swap(&mut self.drained, &mut self.partition_writers);
        let ghost mid = *self;
        proof {
            assert(old(self).drains_all(mid));
            assert(message_places(self.messages@) + Seq::<Route>::empty() + writer_places(
                self.drained@,
            ) =~= writer_places(old(self).partition_writers@));
        }
        self.drain()
    }

    /// Commits the next writer, or hands the messages over.
    fn drain(&mut self) -> (r: Result<Step, Error>)
        requires
            old(self).ready_to_commit(Seq::empty()),
        ensures
            final(self).wf(),
            Self::drains(*old(self), *final(self), r),
    {
        if self.drained.len() == 0 {
            return Ok(self.collect());
        }
        let mut entry: PartitionWriter = self.drained.remove(0);
        let ghost first = entry;
        let ghost mid = *self;
        proof {
            assert(mid.drained@ =~= old(self).drained@.skip(1));
            assert(old(self).drops_drained(mid));
            assert(message_places(mid.messages@) + seq![first.place()] + writer_places(mid.drained@)
                =~= message_places(old(self).messages@) + Seq::<Route>::empty() + writer_places(
                old(self).drained@,
            ));
        }
        let result: Result<Action, Error> = entry.writer.prepare_commit();
        assert(BucketWriter::commits(first.writer, entry.writer, result));
        self.finish_close(entry, result)
    }

    /// Goes on with the next writer, or hands the messages over.
    fn collect(&mut self) -> (r: Step)
        requires
            old(self).ready_to_commit(Seq::empty()),
        ensures
            final(self).wf(),
            Self::collects(*old(self), *final(self), Ok(r)),
    {
        if self.drained.len() == 0 {
            let mut messages: Vec<CommitMessage> = Vec::new();
            std::mem::swap(&mut messages, &mut self.messages);
            self.task = Task::Idle;
            assert(self.commit_places() =~= Seq::<Route>::empty());
            assert(writer_places(self.partition_writers@) =~= Seq::<Route>::empty());
            return Step::Committed { messages };
        }
        self.task = Task::Draining;
        assert(writer_places(self.partition_writers@) =~= Seq::<Route>::empty());
        Step::Proceed
    }

    /// Goes on after the writer of the entry has answered.
    fn finish_close(&mut self, entry: PartitionWriter, result: Result<Action, Error>) -> (r: Result<
        Step,
        Error,
    >)
        requires
            old(self).ready_to_commit(seq![entry.place()]),
            entry.writer.wf(),
            match result {
                Ok(action) => if action is Files {
                    entry.writer.idle()
                } else {
                    entry.writer.in_commit()
                },
                Err(_) => entry.writer.idle() || entry.writer.in_commit(),
            },
        ensures
            final(self).wf(),
            Self::commit_goes_on(*old(self), entry, result, *final(self), r),
    {
        assert(writer_places(self.partition_writers@) =~= Seq::<Route>::empty());
        match result {
            Ok(Action::Files { files }) => {
                if files.len() > 0 {
                    let message: CommitMessage = CommitMessage {
                        partition: entry.partition,
                        bucket: entry.bucket,
                        new_files: files,
                    };
                    self.messages.push(message);
                    assert(message_places(self.messages@) =~= message_places(
                        old(self).messages@,
                    ).push(entry.place()));
                    assert(message_places(self.messages@) + Seq::<Route>::empty() + writer_places(
                        self.drained@,
                    ) =~= message_places(old(self).messages@) + seq![entry.place()]
                        + writer_places(old(self).drained@));
                    assert(self.messages@.drop_last() =~= old(self).messages@);
                } else {
                    proof {
                        lemma_drop_middle(
                            message_places(self.messages@),
                            entry.place(),
                            writer_places(self.drained@),
                        );
                    }
                }
                let ghost mid = *self;
                assert(old(self).adds_message(entry, files, mid));
                Ok(self.collect())
            },
            Ok(action) => {
                let partition: Vec<u8> = entry.partition.clone();
                assert(partition@ =~= entry.partition@);
                let bucket: i32 = entry.bucket;
                self.task = Task::Closing { entry };
                Ok(Step::Bucket { partition, bucket, action })
            },
            Err(error) => {
                if entry.writer.is_idle() {
                    self.abandon();
                } else {
                    self.task = Task::Closing { entry };
                }
                Err(error)
            },
        }
    }

    /// Goes on after a step was carried out.
    pub fn resume(&mut self, event: Event) -> (r: Result<Step, Error>)
        requires
            old(self).wf(),
        ensures
            final(self).wf(),
            Self::resumes(*old(self), event, *final(self), r),
    {
        let mut task: Task = Task::Idle;
        std::mem::swap(&mut task, &mut self.task);
        match (task, event) {
            (Task::Writing { index }, event) => {
                self.task = Task::Writing { index };
                let result: Result<Action, Error> = self.partition_writers[index].writer.resume(
                    event,
                );
                let ghost writer = self.partition_writers@[index as int].writer;
                proof {
                    lemma_same_places(old(self).partition_writers@, self.partition_writers@);
                    assert(BucketWriter::resumes(
                        old(self).partition_writers@[index as int].writer,
                        event,
                        writer,
                        result,
                    ));
                }
                self.finish_write(index, result)
            },
            (Task::Closing { entry }, event) => {
                let ghost first = entry;
                let mut entry: PartitionWriter = entry;
                let result: Result<Action, Error> = entry.writer.resume(event);
                assert(BucketWriter::resumes(first.writer, event, entry.writer, result));
                self.finish_close(entry, result)
            },
            (_, Event::Failed { error }) => {
                self.abandon();
                Err(error)
            },
            (Task::Between, Event::Done) => self.advance(),
            (Task::Resolving { part }, Event::PartitionPath { path }) => self.write_new(path, part),
            (Task::Draining, Event::Done) => self.drain(),
            (task, _) => {
                self.task = task;
                Err(Error::UnexpectedEvent)
            },
        }
    }

    /// Places the next part, or takes the next batch.
    fn advance(&mut self) -> (r: Result<Step, Error>)
        requires
            old(self).ready(),
            !old(self).queues_empty(),
        ensures
            final(self).wf(),
            Self::advances(*old(self), *final(self), r),
    {
        if self.parts.len() > 0 {
            let part: RoutedBatch = self.parts.remove(0);
            let ghost mid = *self;
            assert(mid.parts@ =~= old(self).parts@.skip(1));
            assert(old(self).drops_part(mid));
            return self.write_bucket(part);
        }
        let batch: RecordBatch = self.batches[self.next_batch].share();
        assert(batch == self.queue()[0]);
        assert(self.next_batch < self.batches.len());
        self.next_batch = self.next_batch + 1;
        let ghost mid = *self;
        assert(old(self).drops_batch(mid));
        self.take_batch(&batch)
    }
}

/// What waits once the first of the batches waits no more.
pub proof fn lemma_next_batch(pre: TableWrite, post: TableWrite)
    requires
        pre.drops_batch(post),
        pre.next_batch < pre.batches@.len(),
    ensures
        post.queue() == pre.queue().skip(1),
        pre.queue().len() > 0,
        pre.queue()[0] == pre.batches@[pre.next_batch as int],
{
    assert(post.queue() =~= pre.queue().skip(1));
}

proof fn lemma_drop_middle(a: Seq<Route>, x: Route, b: Seq<Route>)
    requires
        (a + seq![x] + b).no_duplicates(),
    ensures
        (a + Seq::<Route>::empty() + b).no_duplicates(),
{
    let all = a + seq![x] + b;
    let rest = a + Seq::<Route>::empty() + b;
    assert forall|i: int, j: int| 0 <= i < rest.len() && 0 <= j < rest.len() && i
        != j implies rest[i] != rest[j] by {
        let i2 = if i < a.len() { i } else { i + 1 };
        let j2 = if j < a.len() { j } else { j + 1 };
        assert(rest[i] == all[i2] && rest[j] == all[j2]);
    }
}

proof fn lemma_same_places(a: Seq<PartitionWriter>, b: Seq<PartitionWriter>)
    requires
        a.len() == b.len(),
        forall|i: int| #![trigger a[i]] 0 <= i < a.len() ==> a[i].place() == b[i].place(),
    ensures
        writer_places(a) == writer_places(b),
{
    assert(writer_places(a) =~= writer_places(b));
}

/// Whether each writer is sound.
pub open spec fn writers_wf(writers: Seq<PartitionWriter>) -> bool {
    forall|i: int| #![trigger writers[i]] 0 <= i < writers.len() ==> writers[i].writer.wf()
}

} // verus!
