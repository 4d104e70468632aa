# paimon_write

Writes Arrow record batches to the data files of a table, with the logic verified by Verus.

Rows are routed to a bucket of a partition by their key columns. The writer of an append-only
bucket streams batches to one open file and closes full files in the background. The writer of a
primary-key bucket buffers batches, sorts their rows by key, numbers them, and writes them to a
file of their own once the buffer exceeds its size. A commit closes all files and hands them over
as messages.

The library does no input or output. An operation on a `TableWrite` returns the next step: a
directory to tell, an action on the files of a bucket, or nothing more to do. Whoever drives the
write carries the step out and calls `resume` with the outcome. `app/` holds such a driver for
asynchronous storage.

## Layout

- `src/table_write.rs`: the write of a table
- `src/route.rs`, `src/selection.rs`: how a batch is divided
- `src/bucket_writer.rs`, `src/data_file_writer.rs`, `src/key_value_writer.rs`,
  `src/key_value_file.rs`: the writers of buckets and what their files hold
- `src/protocol.rs`, `src/error.rs`: steps, actions, answers and errors
- `src/binary_row.rs`, `src/datum.rs`, `src/bucket.rs`: key rows, their values and their hash
- `src/schema.rs`, `src/meta.rs`, `src/files.rs`, `src/sequence.rs`, `src/text.rs`: tables, file
  records, file names and sequence numbers
- `src/arrow.rs`: what is taken on trust of Arrow
- `src/nested.rs`: which columns Arrow can choose rows from, join and sort
- `src/*_laws.rs`: what holds across operations: no row is lost or invented, every row is written
  to the place that its keys name, a commit has one message for each such place, a list of batches
  is written as its batches one after the other, sequence numbers only grow and leave no gap, and
  rows of a file are in key order
