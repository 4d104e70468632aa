//! The order of the rows of a primary-key file: by the first key column, then by the second, and
//! so on.

use crate::arrow::{
    batch_columns, batch_rows, bytes_less, cell_before, cell_order, cells_order, row_before,
    stands_for_null, text_less, Cell, RecordBatch,
};
use crate::key_value_file::{columns_at, is_sorted};
use crate::key_value_laws::law_sorted_rows_in_key_order;
use vstd::prelude::*;
use vstd::utf8::char_u32_cast;

verus! {

proof fn lemma_text_not_before_itself(a: Seq<char>)
    ensures
        !text_less(a, a),
    decreases a.len(),
{
    if a.len() > 0 {
        lemma_text_not_before_itself(a.drop_first());
    }
}

proof fn lemma_bytes_not_before_themselves(a: Seq<u8>)
    ensures
        !bytes_less(a, a),
    decreases a.len(),
{
    if a.len() > 0 {
        lemma_bytes_not_before_themselves(a.drop_first());
    }
}

proof fn lemma_text_total(a: Seq<char>, b: Seq<char>)
    ensures
        a == b || text_less(a, b) || text_less(b, a),
    decreases a.len(),
{
    if a.len() == 0 && b.len() == 0 {
        assert(a =~= b);
    } else if a.len() > 0 && b.len() > 0 && a[0] == b[0] {
        lemma_text_total(a.drop_first(), b.drop_first());
        if a.drop_first() == b.drop_first() {
            assert(a =~= seq![a[0]] + a.drop_first());
            assert(b =~= seq![b[0]] + b.drop_first());
        }
    } else if a.len() > 0 && b.len() > 0 {
        char_u32_cast(a[0], a[0] as u32);
        char_u32_cast(b[0], b[0] as u32);
    }
}

proof fn lemma_cell_alike(a: Cell, nulls_low: bool)
    ensures
        cell_order(a, a, nulls_low) == 0,
    decreases a,
{
    match a {
        Cell::Utf8(x) => {
            lemma_text_not_before_itself(x);
        },
        Cell::LargeUtf8(x) => {
            lemma_text_not_before_itself(x);
        },
        Cell::Utf8View(x) => {
            lemma_text_not_before_itself(x);
        },
        Cell::Binary(x) => {
            lemma_bytes_not_before_themselves(x);
        },
        Cell::LargeBinary(x) => {
            lemma_bytes_not_before_themselves(x);
        },
        Cell::BinaryView(x) => {
            lemma_bytes_not_before_themselves(x);
        },
        Cell::FixedSizeBinary(x) => {
            lemma_bytes_not_before_themselves(x);
        },
        Cell::List(x) => {
            lemma_cells_alike(x, nulls_low);
        },
        Cell::Struct(x) => {
            lemma_cells_alike(x, nulls_low);
        },
        Cell::Encoded(x) => {
            lemma_cell_alike(*x, nulls_low);
        },
        Cell::Union(_, x) => {
            lemma_cell_alike(*x, nulls_low);
        },
        _ => {},
    }
}

proof fn lemma_cells_alike(a: Seq<Cell>, nulls_low: bool)
    ensures
        cells_order(a, a, nulls_low) == 0,
    decreases a,
{
    if a.len() > 0 {
        lemma_cell_alike(a[0], nulls_low);
        lemma_cells_alike(a.subrange(1, a.len() as int), nulls_low);
    }
}

proof fn lemma_key_decides(columns: Seq<Seq<Cell>>, i: int, j: int, k: int)
    requires
        0 <= k < columns.len(),
        !row_before(columns, j, i, false, true),
        forall|m: int|
            0 <= m < k ==> !cell_before((#[trigger] columns[m])[i], columns[m][j], false, true),
    ensures
        !cell_before(columns[k][j], columns[k][i], false, true),
    decreases k,
{
    if k > 0 {
        let rest = columns.drop_first();
        assert(!cell_before(columns[0][i], columns[0][j], false, true));
        assert forall|m: int| 0 <= m < k - 1 implies !cell_before(
            (#[trigger] rest[m])[i],
            rest[m][j],
            false,
            true,
        ) by {
            assert(rest[m] == columns[m + 1]);
        }
        lemma_key_decides(rest, i, j, k - 1);
    }
}

/// Of two sorted rows, the first key column that puts one before the other puts the earlier one
/// there: where no key column before column `keys[k]` puts the earlier row first, that column does
/// not put the later row first.
pub proof fn law_first_deciding_key_column(
    batches: Seq<RecordBatch>,
    keys: Seq<usize>,
    sorted: RecordBatch,
    i: int,
    j: int,
    k: int,
)
    requires
        is_sorted(batches, keys, sorted),
        0 <= i < j < batch_rows(sorted),
        0 <= k < keys.len(),
        forall|m: int|
            #![trigger keys[m]]
            0 <= m < k ==> !cell_before(
                batch_columns(sorted)[keys[m] as int][i],
                batch_columns(sorted)[keys[m] as int][j],
                false,
                true,
            ),
    ensures
        !cell_before(
            batch_columns(sorted)[keys[k] as int][j],
            batch_columns(sorted)[keys[k] as int][i],
            false,
            true,
        ),
{
    let columns = columns_at(batch_columns(sorted), keys);
    law_sorted_rows_in_key_order(batches, keys, sorted, i, j);
    assert forall|m: int| 0 <= m < keys.len() implies #[trigger] columns[m] == batch_columns(
        sorted,
    )[keys[m] as int] by {}
    assert forall|m: int| 0 <= m < k implies !cell_before(
        (#[trigger] columns[m])[i],
        columns[m][j],
        false,
        true,
    ) by {
        assert(columns[m] == batch_columns(sorted)[keys[m] as int]);
    }
    lemma_key_decides(columns, i, j, k);
}

/// Of two sorted rows that hold the same in the key columns before column `keys[k]`, the earlier
/// one does not hold more there: numbers go by size, text by code points, and nulls come first.
pub proof fn law_rows_ascend_by_key_columns(
    batches: Seq<RecordBatch>,
    keys: Seq<usize>,
    sorted: RecordBatch,
    i: int,
    j: int,
    k: int,
)
    requires
        is_sorted(batches, keys, sorted),
        0 <= i < j < batch_rows(sorted),
        0 <= k < keys.len(),
        forall|m: int|
            #![trigger keys[m]]
            0 <= m < k ==> batch_columns(sorted)[keys[m] as int][i] == batch_columns(
                sorted,
            )[keys[m] as int][j],
    ensures
        ({
            let a = batch_columns(sorted)[keys[k] as int][i];
            let b = batch_columns(sorted)[keys[k] as int][j];
            &&& !cell_before(b, a, false, true)
            &&& match (a, b) {
                (Cell::Boolean(x), Cell::Boolean(y)) => x ==> y,
                (Cell::Int8(x), Cell::Int8(y)) => x <= y,
                (Cell::Int16(x), Cell::Int16(y)) => x <= y,
                (Cell::Int32(x), Cell::Int32(y)) => x <= y,
                (Cell::Int64(x), Cell::Int64(y)) => x <= y,
                (Cell::Date32(x), Cell::Date32(y)) => x <= y,
                (Cell::TimestampMillis(x), Cell::TimestampMillis(y)) => x <= y,
                (Cell::TimestampMicros(x), Cell::TimestampMicros(y)) => x <= y,
                (Cell::Decimal128(x), Cell::Decimal128(y)) => x <= y,
                (Cell::Utf8(x), Cell::Utf8(y)) => x == y || text_less(x, y),
                (Cell::LargeUtf8(x), Cell::LargeUtf8(y)) => x == y || text_less(x, y),
                (_, Cell::Null) => stands_for_null(a),
                _ => true,
            }
        }),
{
    let a = batch_columns(sorted)[keys[k] as int][i];
    let b = batch_columns(sorted)[keys[k] as int][j];
    assert forall|m: int| #![trigger keys[m]] 0 <= m < k implies !cell_before(
        batch_columns(sorted)[keys[m] as int][i],
        batch_columns(sorted)[keys[m] as int][j],
        false,
        true,
    ) by {
        lemma_cell_alike(batch_columns(sorted)[keys[m] as int][i], true);
    }
    law_first_deciding_key_column(batches, keys, sorted, i, j, k);
    match (a, b) {
        (Cell::Utf8(x), Cell::Utf8(y)) => {
            lemma_text_total(x, y);
        },
        (Cell::LargeUtf8(x), Cell::LargeUtf8(y)) => {
            lemma_text_total(x, y);
        },
        _ => {},
    }
}

} // verus!
