use arrow_array::{Array, Int32Array, Int64Array, NullArray};
use arrow_schema::{DataType as ArrowDataType, Field, Schema};
use paimon_write::arrow::RecordBatch;
use paimon_write::binary_row::MAX_ARITY;
use paimon_write::data_file_writer::DataFileWriter;
use paimon_write::error::Error;
use paimon_write::files::WriterConfig;
use paimon_write::key_value_writer::{total_size, KeyValueFileWriter};
use paimon_write::meta::{FileReceipt, UtcTime};
use paimon_write::protocol::{Action, Event};
use std::sync::Arc;

fn config() -> WriterConfig {
    WriterConfig {
        table_location: "mem:/t".to_string(),
        partition_path: String::new(),
        bucket: 0,
        schema_id: 7,
        target_file_size: 100,
        file_compression: "none".to_string(),
        file_compression_zstd_level: 1,
        write_buffer_size: 50,
    }
}

/// A batch of one column of nothing but nulls, which takes no memory.
fn nulls(rows: usize) -> RecordBatch {
    let schema = Arc::new(Schema::new(vec![Field::new("c", ArrowDataType::Null, true)]));
    let column: Arc<dyn Array> = Arc::new(NullArray::new(rows));
    RecordBatch { inner: arrow_array::RecordBatch::try_new(schema, vec![column]).unwrap() }
}

fn receipt(file_size: u64) -> FileReceipt {
    FileReceipt { file_size, creation_time: UtcTime { seconds: 5, nanos: 6 } }
}

#[test]
fn append_writer_rolls_flushes_and_commits() {
    let mut writer = DataFileWriter::new(config());
    assert!(matches!(writer.write(nulls(0)), Ok(Action::Done)));

    assert!(matches!(writer.write(nulls(3)), Ok(Action::OpenFile { .. })));
    assert!(matches!(writer.resume(Event::Done), Ok(Action::WriteBatch { .. })));
    let small = Event::Written { num_bytes: 49, in_progress_size: 49 };
    assert!(matches!(writer.resume(small), Ok(Action::Done)));

    assert!(matches!(writer.write(nulls(4)), Ok(Action::WriteBatch { .. })));
    let buffered = Event::Written { num_bytes: 99, in_progress_size: 50 };
    assert!(matches!(writer.resume(buffered), Ok(Action::FlushFile)));
    assert!(matches!(writer.resume(Event::Done), Ok(Action::Done)));

    assert!(matches!(writer.write(nulls(5)), Ok(Action::WriteBatch { .. })));
    let full = Event::Written { num_bytes: 100, in_progress_size: 100 };
    let rolled = match writer.resume(full) {
        Ok(Action::CloseInBackground { file_name }) => file_name,
        _ => panic!("a full file was kept open"),
    };
    assert!(matches!(writer.resume(Event::Done), Ok(Action::Done)));

    assert!(matches!(writer.write(nulls(6)), Ok(Action::OpenFile { .. })));
    assert!(matches!(writer.resume(Event::Done), Ok(Action::WriteBatch { .. })));
    let small = Event::Written { num_bytes: 1, in_progress_size: 1 };
    assert!(matches!(writer.resume(small), Ok(Action::Done)));

    assert!(matches!(writer.prepare_commit(), Ok(Action::CloseFile)));
    let closed = Event::Closed { receipt: receipt(10) };
    assert!(matches!(writer.resume(closed), Ok(Action::AwaitClose)));
    let unknown =
        Event::ClosedInBackground { file_name: "other".to_string(), receipt: receipt(1) };
    assert!(matches!(writer.resume(unknown), Err(Error::UnexpectedEvent)));
    let joined = Event::ClosedInBackground { file_name: rolled.clone(), receipt: receipt(20) };
    let files = match writer.resume(joined) {
        Ok(Action::Files { files }) => files,
        _ => panic!("the files were not handed over"),
    };
    assert_eq!(files.len(), 2);
    assert_eq!((files[0].row_count, files[0].file_size), (6, 10));
    assert_eq!((files[1].row_count, files[1].file_size), (12, 20));
    assert_eq!(files[1].file_name, rolled);
    assert_eq!(files[0].schema_id, 7);
    assert_eq!(files[0].creation_time, Some(UtcTime { seconds: 5, nanos: 6 }));
    assert_eq!((files[0].min_sequence_number, files[0].max_sequence_number), (0, 0));
    match writer.prepare_commit() {
        Ok(Action::Files { files }) => assert!(files.is_empty()),
        _ => panic!("an empty commit was not over at once"),
    }
}

#[test]
fn row_counter_of_a_file_can_run_out() {
    let mut writer = DataFileWriter::new(config());
    assert!(matches!(writer.write(nulls(i64::MAX as usize)), Ok(Action::OpenFile { .. })));
    assert!(matches!(writer.resume(Event::Done), Ok(Action::WriteBatch { .. })));
    let small = Event::Written { num_bytes: 1, in_progress_size: 1 };
    assert!(matches!(writer.resume(small), Ok(Action::Done)));
    assert!(matches!(writer.write(nulls(1)), Err(Error::RowCountOverflow)));
}

#[test]
fn key_value_writer_flushes_beyond_the_buffer_size() {
    let mut writer = KeyValueFileWriter::new(config(), vec![], 0);
    assert!(matches!(writer.write_sized(nulls(1), 49), Ok(Action::Done)));
    assert!(matches!(writer.write_sized(nulls(1), 1), Ok(Action::Done)));
    assert_eq!(writer.buffer_bytes, 50);
    // Without key columns the sort is refused and the buffer dropped.
    match writer.write_sized(nulls(1), 1) {
        Err(Error::DataInvalid { message }) => assert_eq!(
            message,
            "Failed to sort by primary key: Invalid argument error: Sort requires at least one \
             column"
        ),
        _ => panic!("rows were sorted by nothing"),
    }
    assert_eq!(writer.buffer_bytes, 0);
    assert_eq!(writer.next_sequence_number, 0);
}

#[test]
fn key_value_writer_counts_rows_in_four_bytes() {
    let mut writer = KeyValueFileWriter::new(config(), vec![0], 0);
    let rows = u32::MAX as usize + 1;
    assert!(matches!(writer.write_sized(nulls(rows), 51), Err(Error::TooManyRows)));
    match writer.prepare_commit() {
        Ok(Action::Files { files }) => assert!(files.is_empty()),
        _ => panic!("the refused rows stayed in the buffer"),
    }
}

#[test]
fn sizes_of_columns_are_summed() {
    assert_eq!(total_size(&vec![]), 0);
    assert_eq!(total_size(&vec![3, 4, 5]), 12);
    assert_eq!(total_size(&vec![usize::MAX, 1, 1]), usize::MAX);
}

#[test]
fn size_of_a_batch_is_that_of_its_columns() {
    let mut writer = KeyValueFileWriter::new(config(), vec![0], 0);
    // A column of nothing but nulls has no buffers.
    assert!(matches!(writer.write(nulls(1000)), Ok(Action::Done)));
    assert_eq!(writer.buffer_bytes, 0);
    let fields = vec![
        Field::new("a", ArrowDataType::Int64, false),
        Field::new("b", ArrowDataType::Int32, false),
    ];
    let columns: Vec<Arc<dyn Array>> = vec![
        Arc::new(Int64Array::from(vec![1, 2])),
        Arc::new(Int32Array::from(vec![1, 2])),
    ];
    let expected: usize = columns.iter().map(|c| c.get_buffer_memory_size()).sum();
    let batch = RecordBatch {
        inner: arrow_array::RecordBatch::try_new(Arc::new(Schema::new(fields)), columns).unwrap(),
    };
    let mut larger = config();
    larger.write_buffer_size = i64::MAX;
    let mut writer = KeyValueFileWriter::new(larger, vec![0], 0);
    assert!(matches!(writer.write(batch), Ok(Action::Done)));
    assert_eq!(writer.buffer_bytes, expected);
    assert!(expected >= 24);
}

fn keys(ids: Vec<i32>) -> RecordBatch {
    let schema = Arc::new(Schema::new(vec![Field::new("id", ArrowDataType::Int32, false)]));
    let column: Arc<dyn Array> = Arc::new(Int32Array::from(ids));
    RecordBatch { inner: arrow_array::RecordBatch::try_new(schema, vec![column]).unwrap() }
}

/// Answers what a primary-key writer asks for until its file is closed.
fn close_key_value_file(
    writer: &mut KeyValueFileWriter,
    first: Result<Action, Error>,
) -> Result<Action, Error> {
    assert!(matches!(first, Ok(Action::OpenFile { .. })));
    assert!(matches!(writer.resume(Event::Done), Ok(Action::WriteBatch { .. })));
    let written = Event::Written { num_bytes: 1, in_progress_size: 1 };
    assert!(matches!(writer.resume(written), Ok(Action::CloseFile)));
    writer.resume(Event::Closed { receipt: receipt(1) })
}

#[test]
fn files_of_a_commit_are_numbered_without_a_gap() {
    let mut writer = KeyValueFileWriter::new(config(), vec![0], 40);
    for rows in [vec![3, 1], vec![2]] {
        let first = writer.write_sized(keys(rows), 51);
        assert!(matches!(close_key_value_file(&mut writer, first), Ok(Action::Done)));
    }
    assert!(matches!(writer.write_sized(keys(vec![9, 8, 7]), 1), Ok(Action::Done)));
    let first = writer.prepare_commit();
    let files = match close_key_value_file(&mut writer, first) {
        Ok(Action::Files { files }) => files,
        _ => panic!("the files were not handed over"),
    };
    let ranges: Vec<(i64, i64, i64)> = files
        .iter()
        .map(|f| (f.min_sequence_number, f.max_sequence_number, f.row_count))
        .collect();
    assert_eq!(ranges, vec![(40, 41, 2), (42, 42, 1), (43, 45, 3)]);
    assert_eq!(writer.next_sequence_number, 46);
    match writer.prepare_commit() {
        Ok(Action::Files { files }) => assert!(files.is_empty()),
        _ => panic!("an empty commit was not over at once"),
    }
}

#[test]
fn file_that_cannot_be_closed_is_given_up() {
    let mut writer = DataFileWriter::new(config());
    let mut rolled = Vec::new();
    for rows in [3, 4] {
        assert!(matches!(writer.write(nulls(rows)), Ok(Action::OpenFile { .. })));
        assert!(matches!(writer.resume(Event::Done), Ok(Action::WriteBatch { .. })));
        match writer.resume(Event::Written { num_bytes: 100, in_progress_size: 0 }) {
            Ok(Action::CloseInBackground { file_name }) => rolled.push(file_name),
            _ => panic!("a full file was kept open"),
        }
        assert!(matches!(writer.resume(Event::Done), Ok(Action::Done)));
    }
    assert!(matches!(writer.prepare_commit(), Ok(Action::AwaitClose)));
    let failed = |name: &str| Event::CloseFailed {
        file_name: name.to_string(),
        error: Error::Io { message: "full".to_string() },
    };
    assert!(matches!(writer.resume(failed("other")), Err(Error::UnexpectedEvent)));
    match writer.resume(failed(&rolled[0])) {
        Err(Error::Io { message }) => assert_eq!(message, "full"),
        _ => panic!("a failure was passed over"),
    }
    // The commit can be tried again, with the files that are left.
    assert!(matches!(writer.prepare_commit(), Ok(Action::AwaitClose)));
    let joined =
        Event::ClosedInBackground { file_name: rolled[1].clone(), receipt: receipt(20) };
    match writer.resume(joined) {
        Ok(Action::Files { files }) => {
            assert_eq!(files.len(), 1);
            assert_eq!(files[0].file_name, rolled[1]);
            assert_eq!(files[0].row_count, 4);
        }
        _ => panic!("the files were not handed over"),
    }
}

#[test]
fn file_whose_closing_panics_is_given_up() {
    let mut writer = DataFileWriter::new(config());
    assert!(matches!(writer.write(nulls(3)), Ok(Action::OpenFile { .. })));
    assert!(matches!(writer.resume(Event::Done), Ok(Action::WriteBatch { .. })));
    let rolled = match writer.resume(Event::Written { num_bytes: 100, in_progress_size: 0 }) {
        Ok(Action::CloseInBackground { file_name }) => file_name,
        _ => panic!("a full file was kept open"),
    };
    assert!(matches!(writer.resume(Event::Done), Ok(Action::Done)));
    assert!(matches!(writer.prepare_commit(), Ok(Action::AwaitClose)));
    let panicked = |name: &str| Event::ClosePanicked {
        file_name: name.to_string(),
        text: "task 7 panicked".to_string(),
    };
    assert!(matches!(writer.resume(panicked("other")), Err(Error::UnexpectedEvent)));
    match writer.resume(panicked(&rolled)) {
        Err(Error::DataInvalid { message }) => {
            assert_eq!(message, "Background file close task panicked: task 7 panicked")
        }
        _ => panic!("a panic was passed over"),
    }
    match writer.prepare_commit() {
        Ok(Action::Files { files }) => assert!(files.is_empty()),
        _ => panic!("the file was kept"),
    }
}

#[test]
fn key_rows_can_have_as_many_fields_as_offsets_reach() {
    let fixed = |arity: u64| (arity + 71) / 64 * 8 + 8 * arity;
    assert!(fixed(MAX_ARITY as u64) <= u32::MAX as u64);
    assert!(fixed(MAX_ARITY as u64 + 1) > u32::MAX as u64);
}
