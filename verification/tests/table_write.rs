use arrow_array::{Array, Int32Array, Int64Array, StringArray};
use arrow_schema::{DataType as ArrowDataType, Field, Schema, TimeUnit};
use paimon_write::arrow::RecordBatch;
use paimon_write::binary_row::{empty_serialized_row, BinaryRowBuilder};
use paimon_write::datum::DataType;
use paimon_write::error::Error;
use paimon_write::meta::{CommitMessage, FileReceipt};
use paimon_write::protocol::{Action, Event, Step};
use paimon_write::schema::{CoreOptions, DataField, Table, TableSchema};
use paimon_write::sequence::next_sequence_number;
use paimon_write::table_write::TableWrite;
use std::collections::HashMap;
use std::sync::Arc;

/// A file that is open, with what was written to it.
struct OpenFile {
    path: String,
    batches: Vec<arrow_array::RecordBatch>,
}

impl OpenFile {
    fn num_bytes(&self) -> usize {
        self.batches.iter().map(|b| b.num_rows() * b.num_columns() * 4).sum()
    }
}

/// Storage in memory that carries out what a write asks for.
struct Storage {
    open: HashMap<(Vec<u8>, i32), OpenFile>,
    closing: HashMap<(Vec<u8>, i32), Vec<(String, OpenFile)>>,
    files: HashMap<String, Vec<arrow_array::RecordBatch>>,
    directories: Vec<String>,
    schemas: HashMap<String, Arc<Schema>>,
    flushes: usize,
    steps: Vec<&'static str>,
    /// The name of the action that is to fail, if any.
    fail_on: Option<&'static str>,
}

impl Storage {
    fn new() -> Self {
        Storage {
            open: HashMap::new(),
            closing: HashMap::new(),
            files: HashMap::new(),
            directories: Vec::new(),
            schemas: HashMap::new(),
            flushes: 0,
            steps: Vec::new(),
            fail_on: None,
        }
    }

    fn close(&mut self, file: OpenFile) -> FileReceipt {
        let size = file.num_bytes() as u64;
        self.files.insert(file.path, file.batches);
        FileReceipt::closed_now(size)
    }

    fn act(&mut self, key: (Vec<u8>, i32), action: Action) -> Event {
        let name = match &action {
            Action::Done => "done",
            Action::OpenFile { .. } => "open",
            Action::WriteBatch { .. } => "write",
            Action::CloseInBackground { .. } => "roll",
            Action::FlushFile => "flush",
            Action::CloseFile => "close",
            Action::AwaitClose => "await",
            Action::Files { .. } => "files",
        };
        self.steps.push(name);
        if self.fail_on == Some(name) {
            return Event::Failed { error: Error::Io { message: format!("{name} failed") } };
        }
        match action {
            Action::OpenFile { file, schema } => {
                self.directories.push(file.directory.clone());
                self.schemas.insert(file.path.clone(), schema);
                self.open.insert(key, OpenFile { path: file.path, batches: Vec::new() });
                Event::Done
            }
            Action::WriteBatch { batch } => {
                let file = self.open.get_mut(&key).unwrap();
                file.batches.push(batch.inner);
                Event::Written { num_bytes: file.num_bytes(), in_progress_size: file.num_bytes() }
            }
            Action::CloseInBackground { file_name } => {
                let file = self.open.remove(&key).unwrap();
                assert!(file.path.ends_with(&file_name));
                self.closing.entry(key).or_default().push((file_name, file));
                Event::Done
            }
            Action::FlushFile => {
                self.flushes += 1;
                Event::Done
            }
            Action::CloseFile => {
                let file = self.open.remove(&key).unwrap();
                Event::Closed { receipt: self.close(file) }
            }
            Action::AwaitClose => {
                let (file_name, file) = self.closing.get_mut(&key).unwrap().pop().unwrap();
                Event::ClosedInBackground { file_name, receipt: self.close(file) }
            }
            Action::Done | Action::Files { .. } => unreachable!(),
        }
    }

    /// Carries out steps until the operation is over.
    fn run(
        &mut self,
        write: &mut TableWrite,
        first: Result<Step, Error>,
    ) -> Result<Vec<CommitMessage>, Error> {
        let mut step = first?;
        loop {
            let event = match step {
                Step::Done => return Ok(Vec::new()),
                Step::Committed { messages } => return Ok(messages),
                Step::Proceed => Event::Done,
                Step::ResolvePartition { partition } => {
                    self.steps.push("resolve");
                    if self.fail_on == Some("resolve") {
                        Event::Failed { error: Error::Io { message: "resolve failed".to_string() } }
                    } else {
                        let text = inline_text(&partition);
                        Event::PartitionPath { path: format!("pt={text}") }
                    }
                }
                Step::Bucket { partition, bucket, action } => self.act((partition, bucket), action),
            };
            step = write.resume(event)?;
        }
    }

    fn write(&mut self, write: &mut TableWrite, batch: &RecordBatch) -> Result<(), Error> {
        let first = write.write_arrow_batch(batch);
        self.run(write, first).map(|_| ())
    }

    fn write_all(&mut self, write: &mut TableWrite, batches: &[RecordBatch]) -> Result<(), Error> {
        let batches: Vec<RecordBatch> =
            batches.iter().map(|b| RecordBatch { inner: b.inner.clone() }).collect();
        let first = write.write_arrow(&batches);
        self.run(write, first).map(|_| ())
    }

    fn commit(&mut self, write: &mut TableWrite) -> Result<Vec<CommitMessage>, Error> {
        let first = write.prepare_commit();
        self.run(write, first)
    }

    /// The values of a column in the file of the given name.
    fn int32(&self, file_name: &str, column: usize) -> Vec<i32> {
        self.batches(file_name)
            .iter()
            .flat_map(|b| {
                b.column(column)
                    .as_any()
                    .downcast_ref::<Int32Array>()
                    .unwrap()
                    .values()
                    .to_vec()
            })
            .collect()
    }

    fn int64(&self, file_name: &str, column: usize) -> Vec<i64> {
        self.batches(file_name)
            .iter()
            .flat_map(|b| {
                b.column(column)
                    .as_any()
                    .downcast_ref::<Int64Array>()
                    .unwrap()
                    .values()
                    .to_vec()
            })
            .collect()
    }

    fn path(&self, file_name: &str) -> String {
        self.files.keys().find(|path| path.ends_with(file_name)).unwrap().clone()
    }

    fn batches(&self, file_name: &str) -> &Vec<arrow_array::RecordBatch> {
        &self.files[&self.path(file_name)]
    }
}

/// The short text in the only field of a serialized row.
fn inline_text(row: &[u8]) -> String {
    let slot = &row[12..20];
    let len = (slot[7] & 0x7f) as usize;
    String::from_utf8(slot[..len].to_vec()).unwrap()
}

fn field(name: &str, data_type: DataType) -> DataField {
    DataField { name: name.to_string(), data_type }
}

fn names(keys: &[&str]) -> Vec<String> {
    keys.iter().map(|k| k.to_string()).collect()
}

fn options() -> CoreOptions {
    CoreOptions {
        data_evolution_enabled: false,
        bucket: -1,
        bucket_key: None,
        target_file_size: 256 * 1024 * 1024,
        file_compression: "zstd".to_string(),
        file_compression_zstd_level: 1,
        write_parquet_buffer_size: 256 * 1024 * 1024,
    }
}

fn schema(fields: Vec<DataField>) -> TableSchema {
    TableSchema {
        id: 0,
        fields,
        partition_keys: Vec::new(),
        primary_keys: Vec::new(),
        bucket_keys: Vec::new(),
    }
}

fn test_table(location: &str) -> Table {
    Table {
        location: location.to_string(),
        schema: schema(vec![field("id", DataType::Int), field("value", DataType::Int)]),
        options: options(),
    }
}

fn test_partitioned_table(location: &str) -> Table {
    let mut schema = schema(vec![field("pt", DataType::VarChar), field("id", DataType::Int)]);
    schema.partition_keys = names(&["pt"]);
    Table { location: location.to_string(), schema, options: options() }
}

fn test_bucketed_table(location: &str) -> Table {
    let mut table = test_table(location);
    table.schema.bucket_keys = names(&["id"]);
    table.options.bucket = 4;
    table.options.bucket_key = Some("id".to_string());
    table
}

fn test_pk_table(location: &str) -> Table {
    let mut table = test_table(location);
    table.schema.primary_keys = names(&["id"]);
    table.schema.bucket_keys = names(&["id"]);
    table
}

fn batch_of(fields: Vec<Field>, columns: Vec<Arc<dyn Array>>) -> RecordBatch {
    let schema = Arc::new(Schema::new(fields));
    RecordBatch { inner: arrow_array::RecordBatch::try_new(schema, columns).unwrap() }
}

fn make_batch(ids: Vec<i32>, values: Vec<i32>) -> RecordBatch {
    batch_of(
        vec![
            Field::new("id", ArrowDataType::Int32, false),
            Field::new("value", ArrowDataType::Int32, false),
        ],
        vec![Arc::new(Int32Array::from(ids)), Arc::new(Int32Array::from(values))],
    )
}

fn make_partitioned_batch(pts: Vec<&str>, ids: Vec<i32>) -> RecordBatch {
    batch_of(
        vec![
            Field::new("pt", ArrowDataType::Utf8, false),
            Field::new("id", ArrowDataType::Int32, false),
        ],
        vec![Arc::new(StringArray::from(pts)), Arc::new(Int32Array::from(ids))],
    )
}

fn make_nullable_id_batch(ids: Vec<Option<i32>>, values: Vec<i32>) -> RecordBatch {
    batch_of(
        vec![
            Field::new("id", ArrowDataType::Int32, true),
            Field::new("value", ArrowDataType::Int32, false),
        ],
        vec![Arc::new(Int32Array::from(ids)), Arc::new(Int32Array::from(values))],
    )
}

fn total_rows(messages: &[CommitMessage]) -> i64 {
    messages.iter().flat_map(|m| &m.new_files).map(|f| f.row_count).sum()
}

#[test]
fn test_write_and_commit() {
    let table = test_table("memory:/test_table_write");
    let mut storage = Storage::new();
    let mut table_write = TableWrite::new(&table, 0).unwrap();

    let batch = make_batch(vec![1, 2, 3], vec![10, 20, 30]);
    storage.write(&mut table_write, &batch).unwrap();

    let messages = storage.commit(&mut table_write).unwrap();
    assert_eq!(messages.len(), 1);
    assert_eq!(messages[0].bucket, 0);
    assert_eq!(messages[0].new_files.len(), 1);
    assert_eq!(messages[0].new_files[0].row_count, 3);
    assert_eq!(total_rows(&messages), 3);

    let name = &messages[0].new_files[0].file_name;
    assert_eq!(storage.int32(name, 0), vec![1, 2, 3]);
    assert_eq!(storage.int32(name, 1), vec![10, 20, 30]);
    assert_eq!(storage.directories, vec!["memory:/test_table_write/bucket-0/".to_string()]);
    assert_eq!(storage.path(name), format!("memory:/test_table_write/bucket-0/{name}"));
    assert!(name.starts_with("data-"));
    assert!(name.ends_with("-0.parquet"));
    assert_eq!(name.len(), "data-".len() + 36 + "-0.parquet".len());
}

#[test]
fn test_write_partitioned() {
    let table = test_partitioned_table("memory:/test_table_write_partitioned");
    let mut storage = Storage::new();
    let mut table_write = TableWrite::new(&table, 0).unwrap();

    let batch = make_partitioned_batch(vec!["a", "b", "a"], vec![1, 2, 3]);
    storage.write(&mut table_write, &batch).unwrap();

    let messages = storage.commit(&mut table_write).unwrap();
    // One message for each partition.
    assert_eq!(messages.len(), 2);
    assert_eq!(total_rows(&messages), 3);

    assert_eq!(inline_text(&messages[0].partition), "a");
    assert_eq!(inline_text(&messages[1].partition), "b");
    assert_eq!(storage.int32(&messages[0].new_files[0].file_name, 1), vec![1, 3]);
    assert_eq!(storage.int32(&messages[1].new_files[0].file_name, 1), vec![2]);
    assert_eq!(
        storage.directories,
        vec![
            "memory:/test_table_write_partitioned/pt=a/bucket-0/".to_string(),
            "memory:/test_table_write_partitioned/pt=b/bucket-0/".to_string(),
        ]
    );
}

#[test]
fn test_write_empty_batch() {
    let table = test_table("memory:/test_table_write_empty");
    let mut storage = Storage::new();
    let mut table_write = TableWrite::new(&table, 0).unwrap();

    let batch = make_batch(vec![], vec![]);
    storage.write(&mut table_write, &batch).unwrap();

    let messages = storage.commit(&mut table_write).unwrap();
    assert!(messages.is_empty());
    assert!(storage.steps.is_empty());
}

#[test]
fn test_prepare_commit_reusable() {
    let table = test_table("memory:/test_table_write_reuse");
    let mut storage = Storage::new();
    let mut table_write = TableWrite::new(&table, 0).unwrap();

    storage.write(&mut table_write, &make_batch(vec![1, 2], vec![10, 20])).unwrap();
    let messages1 = storage.commit(&mut table_write).unwrap();
    assert_eq!(messages1.len(), 1);
    assert_eq!(messages1[0].new_files[0].row_count, 2);

    storage.write(&mut table_write, &make_batch(vec![3, 4, 5], vec![30, 40, 50])).unwrap();
    let messages2 = storage.commit(&mut table_write).unwrap();
    assert_eq!(messages2.len(), 1);
    assert_eq!(messages2[0].new_files[0].row_count, 3);

    let messages3 = storage.commit(&mut table_write).unwrap();
    assert!(messages3.is_empty());
}

#[test]
fn test_write_multiple_batches() {
    let table = test_table("memory:/test_table_write_multi");
    let mut storage = Storage::new();
    let mut table_write = TableWrite::new(&table, 0).unwrap();

    storage.write(&mut table_write, &make_batch(vec![1, 2], vec![10, 20])).unwrap();
    storage.write(&mut table_write, &make_batch(vec![3, 4], vec![30, 40])).unwrap();

    let messages = storage.commit(&mut table_write).unwrap();
    assert_eq!(messages.len(), 1);
    // The batches go to one file.
    assert_eq!(messages[0].new_files.len(), 1);
    assert_eq!(total_rows(&messages), 4);
    assert_eq!(storage.int32(&messages[0].new_files[0].file_name, 0), vec![1, 2, 3, 4]);
}

#[test]
fn test_write_bucketed_with_null_bucket_key() {
    let table = test_bucketed_table("memory:/test_table_write_null_bk");
    let mut storage = Storage::new();
    let mut table_write = TableWrite::new(&table, 0).unwrap();

    let batch = make_nullable_id_batch(vec![None, Some(1), None], vec![10, 20, 30]);
    storage.write(&mut table_write, &batch).unwrap();

    let messages = storage.commit(&mut table_write).unwrap();
    assert_eq!(total_rows(&messages), 3);
    assert_eq!(messages.iter().map(|m| m.bucket).collect::<Vec<_>>(), vec![0, 2]);
    assert_eq!(storage.int32(&messages[0].new_files[0].file_name, 1), vec![10, 30]);
    assert_eq!(storage.int32(&messages[1].new_files[0].file_name, 1), vec![20]);
}

#[test]
fn test_null_bucket_key_routes_consistently() {
    let table = test_bucketed_table("memory:/test_table_write_null_bk_consistent");
    let mut storage = Storage::new();
    let mut table_write = TableWrite::new(&table, 0).unwrap();

    let batch = make_nullable_id_batch(vec![None, None], vec![10, 20]);
    storage.write(&mut table_write, &batch).unwrap();

    let messages = storage.commit(&mut table_write).unwrap();
    assert_eq!(total_rows(&messages), 2);
    assert_eq!(messages.len(), 1);
}

#[test]
fn test_null_vs_nonnull_bucket_key_differ() {
    let table = test_bucketed_table("memory:/test_table_write_null_vs_nonnull");
    let table_write = TableWrite::new(&table, 0).unwrap();

    let batch_null = make_nullable_id_batch(vec![None], vec![10]);
    let (_, bucket_null) = table_write.extract_partition_bucket(&batch_null, 0).unwrap();
    let batch_zero = make_nullable_id_batch(vec![Some(0)], vec![20]);
    let (_, bucket_zero) = table_write.extract_partition_bucket(&batch_zero, 0).unwrap();

    let mut builder_null = BinaryRowBuilder::new(1);
    builder_null.set_null_at(0);
    let hash_null = builder_null.build().hash_code();
    let mut builder_zero = BinaryRowBuilder::new(1);
    builder_zero.write_int(0, 0);
    let hash_zero = builder_zero.build().hash_code();

    assert_ne!(hash_null, hash_zero, "NULL and 0 should hash differently");
    assert_eq!((hash_null, hash_zero), (-1748325344, -300363099));
    assert_eq!((bucket_null, bucket_zero), (0, 3));
}

#[test]
fn test_non_compact_null_bucket_key() {
    let total_buckets = 16;
    for bucket_col in ["d", "ltz", "ntz"] {
        let mut table_schema = schema(vec![
            field("d", DataType::Decimal { precision: 38, scale: 18 }),
            field("ltz", DataType::LocalZonedTimestamp { precision: 6 }),
            field("ntz", DataType::Timestamp { precision: 6 }),
            field("k", DataType::Int),
        ]);
        table_schema.bucket_keys = names(&[bucket_col]);
        let mut table_options = options();
        table_options.bucket = total_buckets;
        table_options.bucket_key = Some(bucket_col.to_string());
        let table = Table {
            location: format!("memory:/test_null_bk_{bucket_col}"),
            schema: table_schema,
            options: table_options,
        };
        let table_write = TableWrite::new(&table, 0).unwrap();

        let batch = batch_of(
            vec![
                Field::new("d", ArrowDataType::Decimal128(38, 18), true),
                Field::new(
                    "ltz",
                    ArrowDataType::Timestamp(TimeUnit::Microsecond, Some("UTC".into())),
                    true,
                ),
                Field::new("ntz", ArrowDataType::Timestamp(TimeUnit::Microsecond, None), true),
                Field::new("k", ArrowDataType::Int32, false),
            ],
            vec![
                Arc::new(
                    arrow_array::Decimal128Array::from(vec![None::<i128>])
                        .with_precision_and_scale(38, 18)
                        .unwrap(),
                ),
                Arc::new(
                    arrow_array::TimestampMicrosecondArray::from(vec![None::<i64>])
                        .with_timezone("UTC"),
                ),
                Arc::new(arrow_array::TimestampMicrosecondArray::from(vec![None::<i64>])),
                Arc::new(Int32Array::from(vec![1])),
            ],
        );
        let (_, bucket) = table_write.extract_partition_bucket(&batch, 0).unwrap();

        let mut builder = BinaryRowBuilder::new(1);
        builder.set_null_at(0);
        let expected_bucket = (builder.build().hash_code() % total_buckets).abs();
        assert_eq!(
            bucket, expected_bucket,
            "NULL bucket-key '{bucket_col}' should produce bucket {expected_bucket}, got {bucket}"
        );
        assert_eq!(bucket, 0);
    }
}

#[test]
fn test_write_rolling_on_target_file_size() {
    let mut table = test_table("memory:/test_table_write_rolling");
    table.options.target_file_size = 1;
    let mut storage = Storage::new();
    let mut table_write = TableWrite::new(&table, 0).unwrap();

    storage.write(&mut table_write, &make_batch(vec![1, 2], vec![10, 20])).unwrap();
    storage.write(&mut table_write, &make_batch(vec![3, 4], vec![30, 40])).unwrap();

    let messages = storage.commit(&mut table_write).unwrap();
    assert_eq!(messages.len(), 1);
    // Each batch fills a file of its own.
    assert_eq!(messages[0].new_files.len(), 2);
    assert_eq!(total_rows(&messages), 4);
    assert_eq!(
        storage.steps,
        vec!["open", "write", "roll", "open", "write", "roll", "await", "await"]
    );
}

#[test]
fn test_pk_write_and_commit() {
    let table = test_pk_table("memory:/test_pk_write");
    let mut storage = Storage::new();
    let mut table_write = TableWrite::new(&table, 0).unwrap();

    let batch = make_batch(vec![3, 1, 2], vec![30, 10, 20]);
    storage.write(&mut table_write, &batch).unwrap();

    let messages = storage.commit(&mut table_write).unwrap();
    assert_eq!(messages.len(), 1);
    assert_eq!(messages[0].new_files.len(), 1);

    let file = &messages[0].new_files[0];
    assert_eq!(file.row_count, 3);
    assert_eq!(file.level, 0);
    assert_eq!(file.min_sequence_number, 0);
    assert_eq!(file.max_sequence_number, 2);
    assert!(!file.min_key.is_empty());
    assert!(!file.max_key.is_empty());
    assert_eq!(total_rows(&messages), 3);

    let mut min_key = BinaryRowBuilder::new(1);
    min_key.write_int(0, 1);
    let mut max_key = BinaryRowBuilder::new(1);
    max_key.write_int(0, 3);
    assert_eq!(file.min_key, min_key.build_serialized());
    assert_eq!(file.max_key, max_key.build_serialized());
    assert_eq!(file.delete_row_count, Some(0));
    assert_eq!(file.file_source, Some(0));
    assert_eq!(file.file_size, 36);
    assert!(file.creation_time.is_some());
    assert_eq!(file.key_stats.min_values, empty_serialized_row());
}

#[test]
fn test_pk_write_sorted_output() {
    let table = test_pk_table("memory:/test_pk_sorted");
    let mut storage = Storage::new();
    let mut table_write = TableWrite::new(&table, 0).unwrap();

    let batch = make_batch(vec![5, 2, 4, 1, 3], vec![50, 20, 40, 10, 30]);
    storage.write(&mut table_write, &batch).unwrap();
    let messages = storage.commit(&mut table_write).unwrap();

    let name = &messages[0].new_files[0].file_name;
    assert_eq!(storage.int32(name, 0), vec![1, 2, 3, 4, 5]);
    assert_eq!(storage.int64(name, 1), vec![0, 1, 2, 3, 4]);
    assert_eq!(storage.int32(name, 2), vec![10, 20, 30, 40, 50]);
    let schema = &storage.schemas[&storage.path(name)];
    let columns: Vec<&str> = schema.fields().iter().map(|f| f.name().as_str()).collect();
    assert_eq!(columns, vec!["id", "_SEQUENCE_NUMBER", "value"]);
    assert!(!schema.field(1).is_nullable());
}

#[test]
fn test_pk_write_dedup_across_commits() {
    let table = test_pk_table("memory:/test_pk_dedup");
    let mut storage = Storage::new();

    let mut tw1 = TableWrite::new(&table, 0).unwrap();
    storage.write(&mut tw1, &make_batch(vec![1, 2, 3], vec![10, 20, 30])).unwrap();
    let msgs1 = storage.commit(&mut tw1).unwrap();

    let latest: Vec<i64> =
        msgs1.iter().flat_map(|m| &m.new_files).map(|f| f.max_sequence_number).collect();
    let next_seq = next_sequence_number(&Some(latest));
    assert_eq!(next_seq, 3);
    let mut tw2 = TableWrite::new(&table, next_seq).unwrap();
    storage.write(&mut tw2, &make_batch(vec![2, 3, 4], vec![200, 300, 400])).unwrap();
    let msgs2 = storage.commit(&mut tw2).unwrap();

    // Of the rows with one key, the one with the largest sequence number counts.
    let mut merged: HashMap<i32, (i64, i32)> = HashMap::new();
    for message in msgs1.iter().chain(msgs2.iter()) {
        for file in &message.new_files {
            let ids = storage.int32(&file.file_name, 0);
            let numbers = storage.int64(&file.file_name, 1);
            let values = storage.int32(&file.file_name, 2);
            for i in 0..ids.len() {
                let newer = match merged.get(&ids[i]) {
                    Some((number, _)) => numbers[i] > *number,
                    None => true,
                };
                if newer {
                    merged.insert(ids[i], (numbers[i], values[i]));
                }
            }
        }
    }
    let mut ids: Vec<i32> = merged.keys().copied().collect();
    ids.sort();
    let values: Vec<i32> = ids.iter().map(|id| merged[id].1).collect();
    assert_eq!(ids, vec![1, 2, 3, 4]);
    assert_eq!(values, vec![10, 200, 300, 400]);
}

#[test]
fn test_pk_write_sequence_number_in_file() {
    let table = test_pk_table("memory:/test_pk_seq");
    let mut storage = Storage::new();
    let mut table_write = TableWrite::new(&table, 5).unwrap();

    let batch = make_batch(vec![1, 2], vec![10, 20]);
    storage.write(&mut table_write, &batch).unwrap();

    let messages = storage.commit(&mut table_write).unwrap();
    let file = &messages[0].new_files[0];
    assert_eq!(file.min_sequence_number, 5);
    assert_eq!(file.max_sequence_number, 6);
    assert_eq!(storage.int64(&file.file_name, 1), vec![5, 6]);
}

#[test]
fn write_arrow_takes_batches_in_order() {
    let table = test_table("memory:/t");
    let mut storage = Storage::new();
    let mut table_write = TableWrite::new(&table, 0).unwrap();
    let batches = vec![
        make_batch(vec![1], vec![10]),
        make_batch(vec![], vec![]),
        make_batch(vec![2, 3], vec![20, 30]),
    ];
    storage.write_all(&mut table_write, &batches).unwrap();
    storage.write_all(&mut table_write, &[]).unwrap();
    let messages = storage.commit(&mut table_write).unwrap();
    assert_eq!(total_rows(&messages), 3);
    assert_eq!(storage.int32(&messages[0].new_files[0].file_name, 0), vec![1, 2, 3]);
    assert_eq!(storage.steps, vec!["open", "write", "write", "close"]);
}

#[test]
fn full_buffer_of_open_file_is_flushed() {
    let mut table = test_table("memory:/t");
    table.options.write_parquet_buffer_size = 1;
    let mut storage = Storage::new();
    let mut table_write = TableWrite::new(&table, 0).unwrap();
    storage.write(&mut table_write, &make_batch(vec![1], vec![10])).unwrap();
    assert_eq!(storage.flushes, 1);
    let messages = storage.commit(&mut table_write).unwrap();
    assert_eq!(total_rows(&messages), 1);
}

#[test]
fn full_key_value_buffer_is_written_at_once() {
    let mut table = test_pk_table("memory:/t");
    table.options.write_parquet_buffer_size = 1;
    let mut storage = Storage::new();
    let mut table_write = TableWrite::new(&table, 10).unwrap();
    storage.write(&mut table_write, &make_batch(vec![2, 1], vec![20, 10])).unwrap();
    storage.write(&mut table_write, &make_batch(vec![4, 3], vec![40, 30])).unwrap();
    assert_eq!(storage.steps, vec!["open", "write", "close", "open", "write", "close"]);
    let messages = storage.commit(&mut table_write).unwrap();
    let files = &messages[0].new_files;
    assert_eq!(files.len(), 2);
    assert_eq!((files[0].min_sequence_number, files[0].max_sequence_number), (10, 11));
    assert_eq!((files[1].min_sequence_number, files[1].max_sequence_number), (12, 13));
    assert!(files[0].file_name.ends_with("-0.parquet"));
    assert!(files[1].file_name.ends_with("-1.parquet"));
}

#[test]
fn buffered_batches_are_sorted_together() {
    let table = test_pk_table("memory:/t");
    let mut storage = Storage::new();
    let mut table_write = TableWrite::new(&table, 0).unwrap();
    storage.write(&mut table_write, &make_batch(vec![4, 2], vec![40, 20])).unwrap();
    storage.write(&mut table_write, &make_batch(vec![3, 1], vec![30, 10])).unwrap();
    let messages = storage.commit(&mut table_write).unwrap();
    let name = &messages[0].new_files[0].file_name;
    assert_eq!(storage.int32(name, 0), vec![1, 2, 3, 4]);
    assert_eq!(storage.int32(name, 2), vec![10, 20, 30, 40]);
}

#[test]
fn nulls_sort_first() {
    let table = test_pk_table("memory:/t");
    let mut storage = Storage::new();
    let mut table_write = TableWrite::new(&table, 0).unwrap();
    let batch = make_nullable_id_batch(vec![Some(-5), None, Some(-9)], vec![1, 2, 3]);
    storage.write(&mut table_write, &batch).unwrap();
    let messages = storage.commit(&mut table_write).unwrap();
    let file = &messages[0].new_files[0];
    assert_eq!(storage.int32(&file.file_name, 2), vec![2, 3, 1]);
    let mut null_key = BinaryRowBuilder::new(1);
    null_key.set_null_at(0);
    assert_eq!(file.min_key, null_key.build_serialized());
}

#[test]
fn key_columns_move_to_the_front_of_the_file() {
    let mut table = test_pk_table("memory:/t");
    table.schema.primary_keys = names(&["value"]);
    table.schema.bucket_keys = names(&["value"]);
    let mut storage = Storage::new();
    let mut table_write = TableWrite::new(&table, 0).unwrap();
    storage.write(&mut table_write, &make_batch(vec![1, 2], vec![9, 8])).unwrap();
    let messages = storage.commit(&mut table_write).unwrap();
    let name = &messages[0].new_files[0].file_name;
    assert_eq!(storage.int32(name, 0), vec![8, 9]);
    assert_eq!(storage.int32(name, 2), vec![2, 1]);
}

#[test]
fn rows_go_to_the_buckets_of_their_keys() {
    let table = test_bucketed_table("memory:/t");
    let mut storage = Storage::new();
    let mut table_write = TableWrite::new(&table, 0).unwrap();
    let ids = vec![0, 1, 2, 3, 7, 42];
    storage.write(&mut table_write, &make_batch(ids, vec![0, 1, 2, 3, 4, 5])).unwrap();
    let messages = storage.commit(&mut table_write).unwrap();
    let found: Vec<(i32, Vec<i32>)> = messages
        .iter()
        .map(|m| (m.bucket, storage.int32(&m.new_files[0].file_name, 0)))
        .collect();
    assert_eq!(
        found,
        vec![(3, vec![0, 7]), (2, vec![1]), (0, vec![2]), (1, vec![3, 42])]
    );
}

#[test]
fn batch_of_one_place_stays_whole() {
    let table = test_bucketed_table("memory:/t");
    let mut storage = Storage::new();
    let mut table_write = TableWrite::new(&table, 0).unwrap();
    storage.write(&mut table_write, &make_batch(vec![7, 0, 7], vec![1, 2, 3])).unwrap();
    let messages = storage.commit(&mut table_write).unwrap();
    assert_eq!(messages.len(), 1);
    assert_eq!(storage.int32(&messages[0].new_files[0].file_name, 1), vec![1, 2, 3]);
}

#[test]
fn data_evolution_is_unsupported() {
    let mut table = test_table("memory:/t");
    table.options.data_evolution_enabled = true;
    match TableWrite::new(&table, 0) {
        Err(Error::Unsupported { message }) => {
            assert_eq!(message, "TableWrite does not support data-evolution.enabled mode")
        }
        _ => panic!("a table with data evolution was accepted"),
    }
}

#[test]
fn fixed_buckets_need_a_bucket_key() {
    let mut table = test_table("memory:/t");
    table.options.bucket = 4;
    match TableWrite::new(&table, 0) {
        Err(Error::Unsupported { message }) => {
            assert_eq!(message, "Append tables with fixed bucket must configure 'bucket-key'")
        }
        _ => panic!("a table without a bucket key was accepted"),
    }
    let mut keyed = test_pk_table("memory:/t");
    keyed.options.bucket = 4;
    assert!(TableWrite::new(&keyed, 0).is_ok());
}

#[test]
fn key_column_of_another_type_is_refused() {
    let table = test_bucketed_table("memory:/t");
    let mut storage = Storage::new();
    let mut table_write = TableWrite::new(&table, 0).unwrap();
    let batch = make_partitioned_batch(vec!["a", "b"], vec![1, 2]);
    match storage.write(&mut table_write, &batch) {
        Err(Error::TypeMismatch { column }) => assert_eq!(column, 0),
        _ => panic!("text was accepted for a number"),
    }
    // The write can go on.
    storage.write(&mut table_write, &make_batch(vec![1], vec![1])).unwrap();
    assert_eq!(total_rows(&storage.commit(&mut table_write).unwrap()), 1);
}

#[test]
fn batch_without_a_key_column_is_refused() {
    let mut table = test_pk_table("memory:/t");
    table.schema.primary_keys = names(&["value"]);
    let mut storage = Storage::new();
    let mut table_write = TableWrite::new(&table, 0).unwrap();
    let batch = batch_of(
        vec![Field::new("id", ArrowDataType::Int32, false)],
        vec![Arc::new(Int32Array::from(vec![1]))],
    );
    storage.write(&mut table_write, &batch).unwrap();
    match storage.commit(&mut table_write) {
        Err(Error::MissingColumn { column }) => assert_eq!(column, 1),
        _ => panic!("a batch without its key was sorted"),
    }
}

#[test]
fn narrower_batch_than_buffered_is_refused() {
    let table = test_pk_table("memory:/t");
    let mut storage = Storage::new();
    let mut table_write = TableWrite::new(&table, 0).unwrap();
    storage.write(&mut table_write, &make_batch(vec![1], vec![10])).unwrap();
    let batch = batch_of(
        vec![Field::new("id", ArrowDataType::Int32, false)],
        vec![Arc::new(Int32Array::from(vec![1]))],
    );
    storage.write(&mut table_write, &batch).unwrap();
    match storage.commit(&mut table_write) {
        Err(Error::MissingColumn { column }) => assert_eq!(column, 1),
        _ => panic!("a narrower batch was joined"),
    }
    assert!(storage.commit(&mut table_write).unwrap().is_empty());
}

#[test]
fn batches_of_different_types_cannot_be_joined() {
    let table = test_pk_table("memory:/t");
    let mut storage = Storage::new();
    let mut table_write = TableWrite::new(&table, 0).unwrap();
    storage.write(&mut table_write, &make_batch(vec![1], vec![10])).unwrap();
    let batch = make_partitioned_batch(vec!["a"], vec![1]);
    storage.write(&mut table_write, &batch).unwrap();
    match storage.commit(&mut table_write) {
        Err(Error::DataInvalid { message }) => {
            assert!(message.starts_with("Failed to concat batches: "));
            assert!(message.len() > "Failed to concat batches: ".len());
        }
        _ => panic!("batches of different types were joined"),
    }
}

#[test]
fn sequence_numbers_can_run_out() {
    let table = test_pk_table("memory:/t");
    let mut storage = Storage::new();
    let mut table_write = TableWrite::new(&table, i64::MAX - 1).unwrap();
    storage.write(&mut table_write, &make_batch(vec![1, 2], vec![10, 20])).unwrap();
    assert!(matches!(storage.commit(&mut table_write), Err(Error::SequenceOverflow)));
}

#[test]
fn storage_failures_end_the_operation() {
    for step in ["resolve", "open", "write"] {
        let table = test_partitioned_table("memory:/t");
        let mut storage = Storage::new();
        let mut table_write = TableWrite::new(&table, 0).unwrap();
        storage.fail_on = Some(step);
        let batch = make_partitioned_batch(vec!["a", "b"], vec![1, 2]);
        match storage.write(&mut table_write, &batch) {
            Err(Error::Io { message }) => assert_eq!(message, format!("{step} failed")),
            _ => panic!("a failure was passed over"),
        }
        // The parts that were left are dropped, and the write can go on.
        storage.fail_on = None;
        let batch = make_partitioned_batch(vec!["c"], vec![3]);
        storage.write(&mut table_write, &batch).unwrap();
        let messages = storage.commit(&mut table_write).unwrap();
        assert!(messages.iter().any(|m| inline_text(&m.partition) == "c"));
        assert!(!messages.iter().any(|m| inline_text(&m.partition) == "b"));
    }
}

#[test]
fn failed_commit_leaves_no_writers() {
    let table = test_partitioned_table("memory:/t");
    let mut storage = Storage::new();
    let mut table_write = TableWrite::new(&table, 0).unwrap();
    let batch = make_partitioned_batch(vec!["a", "b"], vec![1, 2]);
    storage.write(&mut table_write, &batch).unwrap();
    storage.fail_on = Some("close");
    assert!(matches!(storage.commit(&mut table_write), Err(Error::Io { .. })));
    storage.fail_on = None;
    assert!(storage.commit(&mut table_write).unwrap().is_empty());
}

#[test]
fn answers_to_other_questions_are_refused() {
    let table = test_table("memory:/t");
    let mut table_write = TableWrite::new(&table, 0).unwrap();
    assert!(matches!(table_write.resume(Event::Done), Err(Error::UnexpectedEvent)));
    let first = table_write.write_arrow_batch(&make_batch(vec![1], vec![10])).unwrap();
    assert!(matches!(first, Step::Proceed));
    let second = table_write.resume(Event::Done).unwrap();
    assert!(matches!(second, Step::Bucket { action: Action::OpenFile { .. }, .. }));
    let wrong = Event::Written { num_bytes: 1, in_progress_size: 1 };
    assert!(matches!(table_write.resume(wrong), Err(Error::UnexpectedEvent)));
    // The question still stands.
    let third = table_write.resume(Event::Done).unwrap();
    assert!(matches!(third, Step::Bucket { action: Action::WriteBatch { .. }, .. }));
}

#[test]
fn list_of_batches_is_written_as_one_batch_after_the_other() {
    let table = test_partitioned_table("memory:/t");
    let batches = [
        make_partitioned_batch(vec!["a", "b"], vec![1, 2]),
        make_partitioned_batch(vec!["c"], vec![3]),
        make_partitioned_batch(vec!["b"], vec![4]),
    ];
    let mut together = Storage::new();
    let mut write = TableWrite::new(&table, 0).unwrap();
    together.write_all(&mut write, &batches).unwrap();
    let whole = together.commit(&mut write).unwrap();
    let mut apart = Storage::new();
    let mut write = TableWrite::new(&table, 0).unwrap();
    apart.write_all(&mut write, &batches[..1]).unwrap();
    apart.write(&mut write, &batches[1]).unwrap();
    apart.write_all(&mut write, &batches[2..]).unwrap();
    let parts = apart.commit(&mut write).unwrap();
    assert_eq!(together.steps, apart.steps);
    let rows = |messages: &[CommitMessage]| -> Vec<(String, i64)> {
        messages
            .iter()
            .map(|m| (inline_text(&m.partition), m.new_files.iter().map(|f| f.row_count).sum()))
            .collect()
    };
    assert_eq!(rows(&whole), rows(&parts));
    assert_eq!(
        rows(&whole),
        vec![("a".to_string(), 1), ("b".to_string(), 2), ("c".to_string(), 1)]
    );
    // A list of no batches is over at once.
    assert!(matches!(write.write_arrow(&[]), Ok(Step::Done)));
}

#[test]
fn failed_batch_ends_a_list_as_it_ends_a_batch() {
    let table = test_partitioned_table("memory:/t");
    let batches = [
        make_partitioned_batch(vec!["a"], vec![1]),
        make_batch(vec![2], vec![20]),
        make_partitioned_batch(vec!["c"], vec![3]),
    ];
    let mut together = Storage::new();
    let mut write = TableWrite::new(&table, 0).unwrap();
    let failed = together.write_all(&mut write, &batches);
    assert!(matches!(failed, Err(Error::TypeMismatch { .. })));
    let whole = together.commit(&mut write).unwrap();
    let mut apart = Storage::new();
    let mut write = TableWrite::new(&table, 0).unwrap();
    apart.write_all(&mut write, &batches[..1]).unwrap();
    let failed = apart.write_all(&mut write, &batches[1..]);
    assert!(matches!(failed, Err(Error::TypeMismatch { .. })));
    let parts = apart.commit(&mut write).unwrap();
    assert_eq!(together.steps, apart.steps);
    assert_eq!(total_rows(&whole), 1);
    assert_eq!(total_rows(&parts), 1);
}

#[test]
fn next_sequence_number_follows_the_largest() {
    assert_eq!(next_sequence_number(&None), 0);
    assert_eq!(next_sequence_number(&Some(vec![])), 1);
    assert_eq!(next_sequence_number(&Some(vec![4, 9, 2])), 10);
    assert_eq!(next_sequence_number(&Some(vec![-7, -3])), -2);
}
