//! What is recorded of a data file, and the message that hands files to a commit.

use crate::binary_row::{empty_serialized_row, serialized_row};
use vstd::prelude::*;

verus! {

/// An instant in coordinated universal time.
#[derive(Clone, Copy, Debug, PartialEq, Eq, Structural)]
pub struct UtcTime {
    /// Seconds since the epoch.
    pub seconds: i64,
    /// Nanoseconds within the second; above a thousand million within a leap second.
    pub nanos: u32,
}

/// The statistics of the columns of a file.
#[derive(Debug)]
pub struct BinaryTableStats {
    pub min_values: Vec<u8>,
    pub max_values: Vec<u8>,
    pub null_counts: Vec<i64>,
}

/// What is recorded of a data file.
#[derive(Debug)]
pub struct DataFileMeta {
    pub file_name: String,
    pub file_size: i64,
    pub row_count: i64,
    pub min_key: Vec<u8>,
    pub max_key: Vec<u8>,
    pub key_stats: BinaryTableStats,
    pub value_stats: BinaryTableStats,
    pub min_sequence_number: i64,
    pub max_sequence_number: i64,
    pub schema_id: i64,
    pub level: i32,
    pub extra_files: Vec<String>,
    pub creation_time: Option<UtcTime>,
    pub delete_row_count: Option<i64>,
    pub embedded_index: Option<Vec<u8>>,
    pub file_source: Option<i32>,
    pub value_stats_cols: Option<Vec<String>>,
    pub external_path: Option<String>,
    pub first_row_id: Option<i64>,
    pub write_cols: Option<Vec<String>>,
}

/// The new files of one bucket of one partition.
#[derive(Debug)]
pub struct CommitMessage {
    pub partition: Vec<u8>,
    pub bucket: i32,
    pub new_files: Vec<DataFileMeta>,
}

/// What is known once a file is closed.
#[derive(Debug, Clone, Copy)]
pub struct FileReceipt {
    /// The bytes of the file.
    pub file_size: u64,
    /// When it was closed.
    pub creation_time: UtcTime,
}

/// A file source that says that the file was appended.
pub const FILE_SOURCE_APPEND: i32 = 0;

/// `Utc::now`: the time of the system's clock.
#[verifier::external_body]
fn now() -> (r: UtcTime)
    ensures
        r.nanos < 2_000_000_000,
{
    let time = chrono::Utc::now();
    UtcTime { seconds: time.timestamp(), nanos: time.timestamp_subsec_nanos() }
}

impl FileReceipt {
    /// The receipt of a file that is closed now.
    pub fn closed_now(file_size: u64) -> (r: Self)
        ensures
            r.file_size == file_size,
            r.creation_time.nanos < 2_000_000_000,
    {
        FileReceipt { file_size, creation_time: now() }
    }
}

/// Statistics of no columns.
pub open spec fn is_empty_stats(stats: BinaryTableStats) -> bool {
    &&& stats.min_values@ == serialized_row(Seq::empty())
    &&& stats.max_values@ == serialized_row(Seq::empty())
    &&& stats.null_counts@ == Seq::<i64>::empty()
}

/// Whether the record is that of a new file of the lowest level with the given content.
pub open spec fn is_new_file(
    meta: DataFileMeta,
    file_name: Seq<char>,
    receipt: FileReceipt,
    row_count: i64,
    min_key: Seq<u8>,
    max_key: Seq<u8>,
    min_sequence_number: i64,
    max_sequence_number: i64,
    schema_id: i64,
) -> bool {
    &&& meta.file_name@ == file_name
    &&& meta.file_size == receipt.file_size as i64
    &&& meta.row_count == row_count
    &&& meta.min_key@ == min_key
    &&& meta.max_key@ == max_key
    &&& is_empty_stats(meta.key_stats)
    &&& is_empty_stats(meta.value_stats)
    &&& meta.min_sequence_number == min_sequence_number
    &&& meta.max_sequence_number == max_sequence_number
    &&& meta.schema_id == schema_id
    &&& meta.level == 0
    &&& meta.extra_files@ == Seq::<String>::empty()
    &&& meta.creation_time == Some(receipt.creation_time)
    &&& meta.delete_row_count == Some(0i64)
    &&& meta.embedded_index is None
    &&& meta.file_source == Some(FILE_SOURCE_APPEND)
    &&& meta.value_stats_cols matches Some(cols) && cols@ == Seq::<String>::empty()
    &&& meta.external_path is None
    &&& meta.first_row_id is None
    &&& meta.write_cols is None
}

/// Whether the record is that of a new file without keys or sequence numbers.
pub open spec fn is_append_file(
    meta: DataFileMeta,
    file_name: Seq<char>,
    receipt: FileReceipt,
    row_count: i64,
    schema_id: i64,
) -> bool {
    is_new_file(
        meta,
        file_name,
        receipt,
        row_count,
        serialized_row(Seq::empty()),
        serialized_row(Seq::empty()),
        0,
        0,
        schema_id,
    )
}

/// Statistics of no columns.
fn empty_stats() -> (r: BinaryTableStats)
    ensures
        is_empty_stats(r),
{
    BinaryTableStats {
        min_values: empty_serialized_row(),
        max_values: empty_serialized_row(),
        null_counts: Vec::new(),
    }
}

/// The record of a new file of the lowest level.
pub fn new_file(
    file_name: String,
    receipt: FileReceipt,
    row_count: i64,
    min_key: Vec<u8>,
    max_key: Vec<u8>,
    min_sequence_number: i64,
    max_sequence_number: i64,
    schema_id: i64,
) -> (r: DataFileMeta)
    ensures
        is_new_file(
            r,
            file_name@,
            receipt,
            row_count,
            min_key@,
            max_key@,
            min_sequence_number,
            max_sequence_number,
            schema_id,
        ),
{
    DataFileMeta {
        file_name,
        file_size: receipt.file_size as i64,
        row_count,
        min_key,
        max_key,
        key_stats: empty_stats(),
        value_stats: empty_stats(),
        min_sequence_number,
        max_sequence_number,
        schema_id,
        level: 0,
        extra_files: Vec::new(),
        creation_time: Some(receipt.creation_time),
        delete_row_count: Some(0),
        embedded_index: None,
        file_source: Some(FILE_SOURCE_APPEND),
        value_stats_cols: Some(Vec::new()),
        external_path: None,
        first_row_id: None,
        write_cols: None,
    }
}

/// The record of a new file of an append-only table.
pub fn build_meta(
    file_name: String,
    receipt: FileReceipt,
    row_count: i64,
    schema_id: i64,
) -> (r: DataFileMeta)
    ensures
        is_append_file(r, file_name@, receipt, row_count, schema_id),
{
    new_file(
        file_name,
        receipt,
        row_count,
        empty_serialized_row(),
        empty_serialized_row(),
        0,
        0,
        schema_id,
    )
}

/// The rows that the files record together.
pub open spec fn rows_in_files(files: Seq<DataFileMeta>) -> int
    decreases files.len(),
{
    if files.len() == 0 {
        0
    } else {
        rows_in_files(files.drop_last()) + files.last().row_count
    }
}

/// The rows that the files of all messages record together.
pub open spec fn rows_in_messages(messages: Seq<CommitMessage>) -> int
    decreases messages.len(),
{
    if messages.len() == 0 {
        0
    } else {
        rows_in_messages(messages.drop_last()) + rows_in_files(messages.last().new_files@)
    }
}

} // verus!
