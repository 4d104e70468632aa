//! Table writes: Arrow batches are divided by partition and bucket, written to data files, and
//! handed to a commit as messages.
//!
//! A write does no input or output itself. Each operation returns the next step to carry out, and
//! is told the outcome through `resume`, until it is over.

pub mod append_laws;
pub mod arrow;
pub mod binary_row;
pub mod bucket;
pub mod bucket_laws;
pub mod bucket_writer;
pub mod column_laws;
pub mod commit_laws;
pub mod data_file_writer;
pub mod datum;
pub mod datum_laws;
pub mod error;
pub mod fault_laws;
pub mod file_laws;
pub mod files;
pub mod flush_laws;
pub mod gap_laws;
pub mod key_value_file;
pub mod key_value_laws;
pub mod key_value_writer;
pub mod message_laws;
pub mod meta;
pub mod nested;
pub mod number_laws;
pub mod order_laws;
pub mod partition_laws;
pub mod path_laws;
pub mod place_laws;
pub mod protocol;
pub mod queue_laws;
pub mod read_laws;
pub mod record_laws;
pub mod refusal_laws;
pub mod route;
pub mod route_laws;
pub mod row_laws;
pub mod schema;
pub mod schema_laws;
pub mod selection;
pub mod sequence;
pub mod step_laws;
pub mod table_laws;
pub mod table_write;
pub mod text;
