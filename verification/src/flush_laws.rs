//! What a primary-key writer sends to a file: all rows that it has buffered, in key order, under
//! the next sequence numbers, and with them the keys of the first and the last row.

use crate::arrow::{
    batch_columns, batch_rows, batch_schema, cell_before, concat_column, schema_fields,
    stands_for_null, text_less, total_rows, Cell, RecordBatch,
};
use crate::error::Error;
use crate::file_laws::{
    law_different_values_different_keys, law_file_has_every_column, law_key_holds_numbers,
    law_key_holds_texts, law_key_tells_nulls, same_key_type, text_of,
};
use crate::files::is_file_name;
use crate::key_value_file::{concatenated, is_physical, is_sorted, sorted_by, sorts};
use crate::key_value_writer::{KeyValueFileWriter, PendingFile};
use crate::order_laws::law_rows_ascend_by_key_columns;
use crate::protocol::Action;
use vstd::prelude::*;
use vstd::utf8::*;

verus! {

/// Whether the writer, on taking the last of the batches or at the start of a commit, asks for a
/// file for the batches.
pub open spec fn begins_file(
    pre: KeyValueFileWriter,
    batches: Seq<RecordBatch>,
    post: KeyValueFileWriter,
    action: Action,
) -> bool {
    &&& action is OpenFile
    &&& batches.len() > 0
    &&& {
        ||| {
            &&& batches.drop_last() == pre.buffer@
            &&& KeyValueFileWriter::writes(pre, batches.last(), post, Ok::<Action, Error>(action))
        }
        ||| {
            &&& batches == pre.buffer@
            &&& KeyValueFileWriter::commits(pre, post, Ok::<Action, Error>(action))
        }
    }
}

/// The content of the file that the writer has asked for.
pub open spec fn sent(post: KeyValueFileWriter) -> RecordBatch {
    post.phase->Opening_batch
}

/// What will be recorded of the file that the writer has asked for.
pub open spec fn asked(post: KeyValueFileWriter) -> PendingFile {
    post.phase->Opening_file
}

/// Whether column `c` of a file is column `j` of the batches, one batch after the other, with the
/// rows in the given order.
pub open spec fn holds_column(
    batches: Seq<RecordBatch>,
    j: int,
    rows: Seq<int>,
    written: RecordBatch,
    c: int,
) -> bool {
    &&& 0 <= c < batch_columns(written).len()
    &&& schema_fields(batch_schema(written))[c] == schema_fields(batch_schema(batches[0]))[j]
    &&& batch_columns(written)[c] == Seq::new(
        rows.len(),
        |i: int| concat_column(batches, j)[rows[i]],
    )
}

/// Whether column `j` of the batches is one of the columns of a file, not the one at `numbers`.
pub open spec fn is_held(
    batches: Seq<RecordBatch>,
    j: int,
    rows: Seq<int>,
    written: RecordBatch,
    numbers: int,
) -> bool {
    exists|c: int| c != numbers && #[trigger] holds_column(batches, j, rows, written, c)
}

#[verifier::rlimit(50)]
proof fn lemma_begun(
    pre: KeyValueFileWriter,
    batches: Seq<RecordBatch>,
    post: KeyValueFileWriter,
    action: Action,
) -> (sorted: RecordBatch)
    requires
        pre.wf(),
        pre.phase is Idle,
        begins_file(pre, batches, post, action),
    ensures
        post.phase is Opening,
        is_sorted(batches, pre.primary_key_indices@, sorted),
        is_physical(
            sorted,
            pre.primary_key_indices@,
            pre.next_sequence_number as int,
            sent(post),
        ),
        pre.next_sequence_number + batch_rows(sorted) <= i64::MAX,
        exists|committing: bool| #[trigger]
            KeyValueFileWriter::opens(pre, sorted, sent(post), committing, post, action),
        post.buffer@.len() == 0,
{
    let r = Ok::<Action, Error>(action);
    let committing = if KeyValueFileWriter::flushes(pre, batches, false, post, r) {
        false
    } else {
        true
    };
    assert(batches.drop_last().push(batches.last()) =~= batches);
    assert(KeyValueFileWriter::flushes(pre, batches, committing, post, r));
    let keys = pre.primary_key_indices@;
    let sorting = choose|sorting: Result<RecordBatch, Error>|
        {
            &&& #[trigger] sorts(batches, keys, sorting)
            &&& match sorting {
                Ok(sorted) => {
                    &&& is_sorted(batches, keys, sorted)
                    &&& KeyValueFileWriter::stores(pre, sorted, committing, post, r)
                },
                Err(error) => {
                    &&& r == Err::<Action, Error>(error)
                    &&& KeyValueFileWriter::gives_up(pre, pre.next_sequence_number as int, post)
                },
            }
        };
    sorting->Ok_0
}

proof fn lemma_sent_columns(
    pre: KeyValueFileWriter,
    sorted: RecordBatch,
    written: RecordBatch,
    k: int,
)
    requires
        is_physical(
            sorted,
            pre.primary_key_indices@,
            pre.next_sequence_number as int,
            written,
        ),
        0 <= k < pre.primary_key_indices@.len(),
    ensures
        batch_columns(written)[k] == batch_columns(sorted)[pre.primary_key_indices@[k] as int],
{
}

/// The file holds every buffered row once, as `rows` lists them: its key columns come first, in
/// the order of the primary key, the numbers from the next sequence number on follow, and every
/// other column stands after them.
#[verifier::rlimit(50)]
pub proof fn law_file_holds_every_row(
    pre: KeyValueFileWriter,
    batches: Seq<RecordBatch>,
    post: KeyValueFileWriter,
    action: Action,
) -> (rows: Seq<int>)
    requires
        pre.wf(),
        pre.phase is Idle,
        begins_file(pre, batches, post, action),
        batch_columns(batches[0]).len() <= usize::MAX,
        schema_fields(batch_schema(batches[0])).len() == batch_columns(batches[0]).len(),
    ensures
        ({
            let keys = pre.primary_key_indices@;
            let columns = batch_columns(sent(post));
            &&& post.phase is Opening
            &&& rows.len() == total_rows(batches)
            &&& rows.no_duplicates()
            &&& forall|i: int| 0 <= i < rows.len() ==> 0 <= #[trigger] rows[i] < total_rows(batches)
            &&& batch_rows(sent(post)) == rows.len()
            &&& asked(post).row_count == rows.len()
            &&& asked(post).min_sequence_number == pre.next_sequence_number
            &&& asked(post).max_sequence_number == pre.next_sequence_number + rows.len() - 1
            &&& post.next_sequence_number == pre.next_sequence_number + rows.len()
            &&& post.buffer@.len() == 0
            &&& post.written_files == pre.written_files
            &&& forall|k: int, i: int|
                #![trigger columns[k][i]]
                0 <= k < keys.len() && 0 <= i < rows.len() ==> columns[k][i] == concat_column(
                    batches,
                    keys[k] as int,
                )[rows[i]]
            &&& forall|i: int|
                0 <= i < rows.len() ==> #[trigger] columns[keys.len() as int][i] == Cell::Int64(
                    (pre.next_sequence_number + i) as i64,
                )
            &&& forall|j: int|
                0 <= j < batch_columns(batches[0]).len() ==> #[trigger] is_held(
                    batches,
                    j,
                    rows,
                    sent(post),
                    keys.len() as int,
                )
        }),
{
    let keys = pre.primary_key_indices@;
    let start = pre.next_sequence_number as int;
    let sorted = lemma_begun(pre, batches, post, action);
    let rows = choose|rows: Seq<int>| #[trigger] sorted_by(batches, keys, rows, sorted);
    let written = sent(post);
    let columns = batch_columns(written);
    assert forall|j: int, i: int|
        #![trigger batch_columns(sorted)[j][i]]
        0 <= j < batch_columns(batches[0]).len() && 0 <= i < rows.len() implies batch_columns(
        sorted,
    )[j][i] == concat_column(batches, j)[rows[i]] by {
        assert(concatenated(batches)[j] == concat_column(batches, j));
    }
    let committing = choose|committing: bool| #[trigger]
        KeyValueFileWriter::opens(pre, sorted, written, committing, post, action);
    assert(post.next_sequence_number == pre.next_sequence_number + rows.len());
    assert(post.written_files == pre.written_files);
    assert(asked(post).row_count == rows.len());
    let values = law_file_has_every_column(sorted, keys, start, written);
    assert forall|i: int| 0 <= i < rows.len() implies #[trigger] columns[keys.len() as int][i]
        == Cell::Int64((pre.next_sequence_number + i) as i64) by {}
    assert forall|k: int, i: int| #![trigger columns[k][i]]
        0 <= k < keys.len() && 0 <= i < rows.len() implies columns[k][i] == concat_column(
        batches,
        keys[k] as int,
    )[rows[i]] by {
        assert(keys[k] < batch_columns(batches[0]).len());
        assert(columns[k][i] == batch_columns(sorted)[keys[k] as int][i]);
    }
    assert forall|j: int| 0 <= j < batch_columns(batches[0]).len() implies #[trigger] is_held(
        batches,
        j,
        rows,
        written,
        keys.len() as int,
    ) by {
        let c = if values.contains(j) {
            keys.len() + 1 + choose|m: int| 0 <= m < values.len() && values[m] == j
        } else {
            choose|k: int| 0 <= k < keys.len() && #[trigger] keys[k] == j
        };
        if values.contains(j) {
            let m = choose|m: int| 0 <= m < values.len() && values[m] == j;
            assert(values[m] == j);
        } else {
            assert(exists|k: int| 0 <= k < keys.len() && #[trigger] keys[k] == j);
        }
        assert(columns[c] == batch_columns(sorted)[j]);
        assert(columns[c] =~= Seq::new(
            rows.len(),
            |i: int| concat_column(batches, j)[rows[i]],
        )) by {
            assert forall|i: int| 0 <= i < rows.len() implies columns[c][i] == #[trigger]
            concat_column(batches, j)[rows[i]] by {
                assert(columns[c][i] == batch_columns(sorted)[j][i]);
            }
        }
        assert(holds_column(batches, j, rows, written, c));
    }
    rows
}

/// The rows of the file go by the first column of the primary key, among equals by the second,
/// and so on: of two rows that hold the same in the columns before column `k` of the file, the
/// earlier one does not hold more in column `k`.
#[verifier::rlimit(50)]
pub proof fn law_file_is_in_key_order(
    pre: KeyValueFileWriter,
    batches: Seq<RecordBatch>,
    post: KeyValueFileWriter,
    action: Action,
    i: int,
    j: int,
    k: int,
)
    requires
        pre.wf(),
        pre.phase is Idle,
        begins_file(pre, batches, post, action),
        0 <= i < j < batch_rows(sent(post)),
        0 <= k < pre.primary_key_indices@.len(),
        forall|m: int|
            0 <= m < k ==> (#[trigger] batch_columns(sent(post))[m])[i] == batch_columns(
                sent(post),
            )[m][j],
    ensures
        ({
            let a = batch_columns(sent(post))[k][i];
            let b = batch_columns(sent(post))[k][j];
            &&& !cell_before(b, a, false, true)
            &&& match (a, b) {
                (Cell::Boolean(x), Cell::Boolean(y)) => x ==> y,
                (Cell::Int8(x), Cell::Int8(y)) => x <= y,
                (Cell::Int16(x), Cell::Int16(y)) => x <= y,
                (Cell::Int32(x), Cell::Int32(y)) => x <= y,
                (Cell::Int64(x), Cell::Int64(y)) => x <= y,
                (Cell::Date32(x), Cell::Date32(y)) => x <= y,
                (Cell::TimestampMillis(x), Cell::TimestampMillis(y)) => x <= y,
                (Cell::TimestampMicros(x), Cell::TimestampMicros(y)) => x <= y,
                (Cell::Decimal128(x), Cell::Decimal128(y)) => x <= y,
                (Cell::Utf8(x), Cell::Utf8(y)) => x == y || text_less(x, y),
                (Cell::LargeUtf8(x), Cell::LargeUtf8(y)) => x == y || text_less(x, y),
                (_, Cell::Null) => stands_for_null(a),
                _ => true,
            }
        }),
{
    let keys = pre.primary_key_indices@;
    let sorted = lemma_begun(pre, batches, post, action);
    assert forall|m: int| #![trigger keys[m]] 0 <= m < k implies batch_columns(
        sorted,
    )[keys[m] as int][i] == batch_columns(sorted)[keys[m] as int][j] by {
        lemma_sent_columns(pre, sorted, sent(post), m);
        assert(batch_columns(sent(post))[m][i] == batch_columns(sent(post))[m][j]);
    }
    lemma_sent_columns(pre, sorted, sent(post), k);
    law_rows_ascend_by_key_columns(batches, keys, sorted, i, j, k);
}

/// The smallest key of the file is that of its first row and the largest that of its last row:
/// field `k` is null exactly where column `k` of the file holds no number or text there, and
/// gives a number back in the bytes of its type, least significant first.
#[verifier::rlimit(50)]
pub proof fn law_file_keys_hold_numbers(
    pre: KeyValueFileWriter,
    batches: Seq<RecordBatch>,
    post: KeyValueFileWriter,
    action: Action,
    last: bool,
    k: int,
)
    requires
        pre.wf(),
        pre.phase is Idle,
        begins_file(pre, batches, post, action),
        0 <= k < pre.primary_key_indices@.len(),
    ensures
        ({
            let bytes = if last {
                asked(post).max_key@
            } else {
                asked(post).min_key@
            };
            let row = if last {
                batch_rows(sent(post)) - 1
            } else {
                0
            };
            let cell = batch_columns(sent(post))[k][row];
            let count = pre.primary_key_indices@.len();
            let at = 4 + (count + 71) / 64 * 8 + 8 * k;
            let low = bytes[at] + 0x100 * bytes[at + 1] + 0x1_0000 * bytes[at + 2] + 0x100_0000
                * bytes[at + 3];
            let high = bytes[at + 4] + 0x100 * bytes[at + 5] + 0x1_0000 * bytes[at + 6]
                + 0x100_0000 * bytes[at + 7];
            &&& 0x100_0000 * bytes[0] + 0x1_0000 * bytes[1] + 0x100 * bytes[2] + bytes[3] == count
            &&& bytes[4 + (k + 8) / 8] & (1u8 << ((k % 8) as u8)) != 0 <==> !(cell is Int8
                || cell is Int16 || cell is Int32 || cell is Int64 || cell is Utf8
                || cell is LargeUtf8)
            &&& match cell {
                Cell::Int8(v) => low == (if v < 0 {
                    v + 0x100
                } else {
                    v as int
                }) && high == 0,
                Cell::Int16(v) => low == (if v < 0 {
                    v + 0x1_0000
                } else {
                    v as int
                }) && high == 0,
                Cell::Int32(v) => low == (if v < 0 {
                    v + 0x1_0000_0000
                } else {
                    v as int
                }) && high == 0,
                Cell::Int64(v) => low + 0x1_0000_0000 * high == if v < 0 {
                    v + 0x1_0000_0000_0000_0000
                } else {
                    v as int
                },
                _ => true,
            }
        }),
{
    let keys = pre.primary_key_indices@;
    let sorted = lemma_begun(pre, batches, post, action);
    let row = if last {
        batch_rows(sent(post)) - 1
    } else {
        0
    };
    lemma_sent_columns(pre, sorted, sent(post), k);
    law_key_tells_nulls(batch_columns(sorted), keys, row, k);
    law_key_holds_numbers(batch_columns(sorted), keys, row, k);
}

/// The smallest and the largest key of the file give all of each text of its first and its last
/// row back, as its UTF-8 bytes.
#[verifier::rlimit(50)]
pub proof fn law_file_keys_hold_texts(
    pre: KeyValueFileWriter,
    batches: Seq<RecordBatch>,
    post: KeyValueFileWriter,
    action: Action,
    last: bool,
    k: int,
)
    requires
        pre.wf(),
        pre.phase is Idle,
        begins_file(pre, batches, post, action),
        0 <= k < pre.primary_key_indices@.len(),
        asked(post).min_key@.len() < 0x8000_0000,
        asked(post).max_key@.len() < 0x8000_0000,
        ({
            let row = if last {
                batch_rows(sent(post)) - 1
            } else {
                0
            };
            let cell = batch_columns(sent(post))[k][row];
            cell is Utf8 || cell is LargeUtf8
        }),
    ensures
        ({
            let bytes = if last {
                asked(post).max_key@
            } else {
                asked(post).min_key@
            };
            let row = if last {
                batch_rows(sent(post)) - 1
            } else {
                0
            };
            let text = encode_utf8(text_of(batch_columns(sent(post))[k][row]));
            let at = 4 + (pre.primary_key_indices@.len() + 71) / 64 * 8 + 8 * k;
            let low = bytes[at] + 0x100 * bytes[at + 1] + 0x1_0000 * bytes[at + 2] + 0x100_0000
                * bytes[at + 3];
            let high = bytes[at + 4] + 0x100 * bytes[at + 5] + 0x1_0000 * bytes[at + 6]
                + 0x100_0000 * bytes[at + 7];
            &&& at + 8 <= bytes.len()
            &&& if text.len() <= 7 {
                bytes[at + 7] == 0x80 + text.len() && bytes.subrange(at, at + text.len()) == text
            } else {
                &&& bytes[at + 7] < 0x80
                &&& low == text.len()
                &&& 4 + high + text.len() <= bytes.len()
                &&& bytes.subrange(4 + high, 4 + high + text.len()) == text
            }
        }),
{
    let keys = pre.primary_key_indices@;
    let sorted = lemma_begun(pre, batches, post, action);
    let row = if last {
        batch_rows(sent(post)) - 1
    } else {
        0
    };
    lemma_sent_columns(pre, sorted, sent(post), k);
    law_key_holds_texts(batch_columns(sorted), keys, row, k);
}

/// Taking a batch uses up no sequence numbers where the batch is buffered, and one for each
/// buffered row where the buffer is sent away.
pub proof fn law_write_uses_a_number_for_each_row(
    pre: KeyValueFileWriter,
    batch: RecordBatch,
    post: KeyValueFileWriter,
    r: Result<Action, Error>,
)
    requires
        pre.phase is Idle,
        KeyValueFileWriter::writes(pre, batch, post, r),
    ensures
        r matches Ok(Action::Done) ==> post.next_sequence_number == pre.next_sequence_number,
        r matches Ok(Action::OpenFile { .. }) ==> post.next_sequence_number
            == pre.next_sequence_number + total_rows(pre.buffer@) + batch_rows(batch),
        r is Err ==> post.next_sequence_number == pre.next_sequence_number
            || post.next_sequence_number == pre.next_sequence_number + total_rows(pre.buffer@)
            + batch_rows(batch),
{
    let batches = pre.buffer@.push(batch);
    let keys = pre.primary_key_indices@;
    assert(batches.drop_last() =~= pre.buffer@);
    if KeyValueFileWriter::flushes(pre, batches, false, post, r) && total_rows(batches)
        <= u32::MAX {
        let sorting = choose|sorting: Result<RecordBatch, Error>|
            {
                &&& #[trigger] sorts(batches, keys, sorting)
                &&& match sorting {
                    Ok(sorted) => {
                        &&& is_sorted(batches, keys, sorted)
                        &&& KeyValueFileWriter::stores(pre, sorted, false, post, r)
                    },
                    Err(error) => {
                        &&& r == Err::<Action, Error>(error)
                        &&& KeyValueFileWriter::gives_up(pre, pre.next_sequence_number as int, post)
                    },
                }
            };
        if let Ok(sorted) = sorting {
            let rows = choose|rows: Seq<int>| #[trigger] sorted_by(batches, keys, rows, sorted);
            assert(batch_rows(sorted) == total_rows(batches));
        }
    }
}

/// The file is asked for under a fresh name that counts the files before it, in the directory of
/// the writer's bucket, with the schema of what is sent to it.
pub proof fn law_file_is_asked_for(
    pre: KeyValueFileWriter,
    batches: Seq<RecordBatch>,
    post: KeyValueFileWriter,
    action: Action,
)
    requires
        pre.wf(),
        pre.phase is Idle,
        begins_file(pre, batches, post, action),
    ensures
        action matches Action::OpenFile { file, schema } && {
            &&& is_file_name(asked(post).file_name@, pre.written_files@.len() as int)
            &&& pre.config.creates(asked(post).file_name@, file)
            &&& file.path@ == file.directory@ + asked(post).file_name@
            &&& *schema == batch_schema(sent(post))
        },
        post.config == pre.config,
        post.primary_key_indices == pre.primary_key_indices,
{
    let sorted = lemma_begun(pre, batches, post, action);
}

/// Files of one table whose first rows differ in a key column of numbers or texts have different
/// smallest keys, and those whose last rows do have different largest keys.
#[verifier::rlimit(50)]
pub proof fn law_different_rows_different_file_keys(
    pre: KeyValueFileWriter,
    batches: Seq<RecordBatch>,
    post: KeyValueFileWriter,
    action: Action,
    other_pre: KeyValueFileWriter,
    other_batches: Seq<RecordBatch>,
    other_post: KeyValueFileWriter,
    other_action: Action,
    last: bool,
    k: int,
)
    requires
        pre.wf(),
        pre.phase is Idle,
        begins_file(pre, batches, post, action),
        other_pre.wf(),
        other_pre.phase is Idle,
        begins_file(other_pre, other_batches, other_post, other_action),
        other_pre.primary_key_indices@ == pre.primary_key_indices@,
        0 <= k < pre.primary_key_indices@.len(),
        asked(post).min_key@.len() < 0x8000_0000,
        asked(post).max_key@.len() < 0x8000_0000,
        ({
            let x = batch_columns(sent(post))[k][if last {
                batch_rows(sent(post)) - 1
            } else {
                0
            }];
            let y = batch_columns(sent(other_post))[k][if last {
                batch_rows(sent(other_post)) - 1
            } else {
                0
            }];
            x != y && same_key_type(x, y)
        }),
    ensures
        !last ==> asked(post).min_key@ != asked(other_post).min_key@,
        last ==> asked(post).max_key@ != asked(other_post).max_key@,
{
    let keys = pre.primary_key_indices@;
    let sorted = lemma_begun(pre, batches, post, action);
    let other = lemma_begun(other_pre, other_batches, other_post, other_action);
    lemma_sent_columns(pre, sorted, sent(post), k);
    lemma_sent_columns(other_pre, other, sent(other_post), k);
    let r = if last {
        batch_rows(sent(post)) - 1
    } else {
        0
    };
    let s = if last {
        batch_rows(sent(other_post)) - 1
    } else {
        0
    };
    law_different_values_different_keys(
        batch_columns(sorted),
        r,
        batch_columns(other),
        s,
        keys,
        k,
    );
}

} // verus!
