//! How a write and its storage take turns: the write asks for an action, storage carries it out
//! and answers with an event.

use crate::arrow::RecordBatch;
use crate::error::Error;
use crate::files::NewFile;
use crate::meta::{CommitMessage, DataFileMeta, FileReceipt};
use arrow_schema::Schema;
use std::sync::Arc;
use vstd::prelude::*;

verus! {

/// What a bucket's writer asks of storage.
pub enum Action {
    /// Nothing: the operation is over.
    Done,
    /// Make the directory, create the file in it, and keep it open as the bucket's file.
    OpenFile { file: NewFile, schema: Arc<Schema> },
    /// Write the batch to the bucket's file.
    WriteBatch { batch: RecordBatch },
    /// Start to close the bucket's file, without waiting for it.
    CloseInBackground { file_name: String },
    /// Flush what the bucket's file buffers.
    FlushFile,
    /// Close the bucket's file.
    CloseFile,
    /// Wait until one of the bucket's files that are being closed is closed.
    AwaitClose,
    /// Nothing: the operation is over, and these are the files that it finished.
    Files { files: Vec<DataFileMeta> },
}

/// What storage answers.
pub enum Event {
    /// The action was carried out, and there is nothing to report.
    Done,
    /// The partition's directory below the table.
    PartitionPath { path: String },
    /// The batch was written; the bytes of the file so far, and those not flushed yet.
    Written { num_bytes: usize, in_progress_size: usize },
    /// The bucket's file was closed.
    Closed { receipt: FileReceipt },
    /// One of the files that were being closed was closed.
    ClosedInBackground { file_name: String, receipt: FileReceipt },
    /// One of the files that were being closed could not be closed.
    CloseFailed { file_name: String, error: Error },
    /// The task that was closing one of the files panicked; what is told of it.
    ClosePanicked { file_name: String, text: String },
    /// The action failed.
    Failed { error: Error },
}

/// What a table write asks for.
pub enum Step {
    /// Nothing: the operation is over.
    Done,
    /// Nothing: the write goes on when told that this is done.
    Proceed,
    /// Tell the directory of the partition.
    ResolvePartition { partition: Vec<u8> },
    /// Carry out an action on the files of one bucket of one partition.
    Bucket { partition: Vec<u8>, bucket: i32, action: Action },
    /// Nothing: the operation is over, and these are the messages for the commit.
    Committed { messages: Vec<CommitMessage> },
}

/// The rows of the files that an action hands over.
pub open spec fn rows_handed_over(action: Action) -> int {
    match action {
        Action::Files { files } => crate::meta::rows_in_files(files@),
        _ => 0,
    }
}

} // verus!
