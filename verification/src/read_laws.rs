//! What a reader finds in the bytes of a row: the number of its fields, which of them are null,
//! and the value of each.

use crate::binary_row::{
    cell_ok, fixed_size, le_bytes, lemma_le_bytes_len, null_bits_size, partial_row, row_data,
    serialized_row, slot, write_cell, RowCell,
};
use crate::row_laws::law_null_bit;
use vstd::prelude::*;

verus! {

proof fn lemma_write_keeps(data: Seq<u8>, arity: nat, pos: int, cell: RowCell)
    requires
        data.len() >= fixed_size(arity),
        0 <= pos < arity,
        cell_ok(cell),
    ensures
        ({
            let after = write_cell(data, arity, pos, cell);
            let at = slot(arity, pos);
            &&& after.len() >= data.len()
            &&& forall|i: int|
                null_bits_size(arity) <= i < data.len() && !(at <= i < at + 8) ==> (
                #[trigger] after[i]) == data[i]
        }),
{
    match cell {
        RowCell::Fixed { value, width } => {
            lemma_le_bytes_len(value, width);
        },
        RowCell::Bytes { bytes } => {
            lemma_le_bytes_len(bytes.len() as int, 4);
            lemma_le_bytes_len(data.len() as int, 4);
        },
        RowCell::Instant { millis, nanos } => {
            lemma_le_bytes_len(nanos, 4);
            lemma_le_bytes_len(millis, 8);
            lemma_le_bytes_len(data.len() as int, 4);
        },
        RowCell::Unscaled { bytes } => {
            lemma_le_bytes_len(bytes.len() as int, 4);
            lemma_le_bytes_len(data.len() as int, 4);
        },
        RowCell::Null => {
            assert(crate::binary_row::null_byte(pos) < null_bits_size(arity));
        },
    }
}

#[verifier::rlimit(50)]
proof fn lemma_row_keeps(arity: nat, cells: Seq<RowCell>, m: int)
    requires
        0 <= m <= cells.len() <= arity,
        forall|i: int| 0 <= i < cells.len() ==> cell_ok(#[trigger] cells[i]),
    ensures
        ({
            let before = partial_row(arity, cells.take(m));
            let after = partial_row(arity, cells);
            &&& before.len() >= fixed_size(arity)
            &&& after.len() >= before.len()
            &&& forall|i: int|
                null_bits_size(arity) <= i < before.len() && !(slot(arity, m) <= i < slot(
                    arity,
                    cells.len() as int,
                )) ==> (#[trigger] after[i]) == before[i]
        }),
    decreases cells.len(),
{
    if m < cells.len() {
        let rest = cells.drop_last();
        assert(rest.take(m) =~= cells.take(m));
        lemma_row_keeps(arity, rest, m);
        lemma_write_keeps(partial_row(arity, rest), arity, cells.len() - 1, cells.last());
    } else {
        assert(cells.take(m) =~= cells);
        if m > 0 {
            let rest = cells.drop_last();
            lemma_row_keeps(arity, rest, 0);
            lemma_write_keeps(partial_row(arity, rest), arity, cells.len() - 1, cells.last());
        }
    }
}

/// Where the variable-length part ends when the first `k` fields are written.
spec fn end_of(cells: Seq<RowCell>, k: int) -> int {
    partial_row(cells.len(), cells.take(k)).len() as int
}

#[verifier::rlimit(50)]
proof fn lemma_slot(cells: Seq<RowCell>, k: int)
    requires
        0 <= k < cells.len(),
        forall|i: int| 0 <= i < cells.len() ==> cell_ok(#[trigger] cells[i]),
    ensures
        ({
            let data = row_data(cells);
            let at = slot(cells.len(), k);
            let end = end_of(cells, k);
            &&& at + 8 <= fixed_size(cells.len()) <= end <= data.len()
            &&& match cells[k] {
                RowCell::Null => forall|i: int| at <= i < at + 8 ==> (#[trigger] data[i]) == 0,
                RowCell::Fixed { value, width } => forall|i: int|
                    at <= i < at + 8 ==> (#[trigger] data[i]) == if i < at + width {
                        le_bytes(value, width)[i - at]
                    } else {
                        0
                    },
                RowCell::Bytes { bytes } => if bytes.len() <= 7 {
                    forall|i: int|
                        at <= i < at + 8 ==> (#[trigger] data[i]) == if i < at + bytes.len() {
                            bytes[i - at]
                        } else if i < at + 7 {
                            0
                        } else {
                            (128 + bytes.len()) as u8
                        }
                } else {
                    &&& end + bytes.len() <= data.len()
                    &&& forall|i: int|
                        at <= i < at + 8 ==> (#[trigger] data[i]) == if i < at + 4 {
                            le_bytes(bytes.len() as int, 4)[i - at]
                        } else {
                            le_bytes(end, 4)[i - at - 4]
                        }
                    &&& forall|i: int|
                        end <= i < end + bytes.len() ==> (#[trigger] data[i]) == bytes[i - end]
                },
                RowCell::Instant { millis, nanos } => {
                    &&& end + 8 <= data.len()
                    &&& forall|i: int|
                        at <= i < at + 8 ==> (#[trigger] data[i]) == if i < at + 4 {
                            le_bytes(nanos, 4)[i - at]
                        } else {
                            le_bytes(end, 4)[i - at - 4]
                        }
                    &&& forall|i: int|
                        end <= i < end + 8 ==> (#[trigger] data[i]) == le_bytes(millis, 8)[i - end]
                },
                RowCell::Unscaled { bytes } => {
                    &&& end + 16 <= data.len()
                    &&& forall|i: int|
                        at <= i < at + 8 ==> (#[trigger] data[i]) == if i < at + 4 {
                            le_bytes(bytes.len() as int, 4)[i - at]
                        } else {
                            le_bytes(end, 4)[i - at - 4]
                        }
                    &&& forall|i: int|
                        end <= i < end + bytes.len() ==> (#[trigger] data[i]) == bytes[i - end]
                },
            }
        }),
{
    let arity = cells.len();
    let first = cells.take(k);
    let next = cells.take(k + 1);
    let before = partial_row(arity, first);
    let written = partial_row(arity, next);
    assert(next.drop_last() =~= first);
    assert(next.last() == cells[k]);
    assert(first.take(0) =~= Seq::<RowCell>::empty());
    lemma_row_keeps(arity, first, 0);
    lemma_row_keeps(arity, cells, k + 1);
    lemma_write_keeps(before, arity, k, cells[k]);
    match cells[k] {
        RowCell::Fixed { value, width } => {
            lemma_le_bytes_len(value, width);
        },
        RowCell::Bytes { bytes } => {
            lemma_le_bytes_len(bytes.len() as int, 4);
            lemma_le_bytes_len(before.len() as int, 4);
        },
        RowCell::Instant { millis, nanos } => {
            lemma_le_bytes_len(nanos, 4);
            lemma_le_bytes_len(millis, 8);
            lemma_le_bytes_len(before.len() as int, 4);
        },
        RowCell::Unscaled { bytes } => {
            lemma_le_bytes_len(bytes.len() as int, 4);
            lemma_le_bytes_len(before.len() as int, 4);
        },
        RowCell::Null => {},
    }
}

proof fn lemma_le_1(v: int)
    ensures
        le_bytes(v, 1).len() == 1,
        v == le_bytes(v, 1)[0] + 0x100 * (v / 0x100),
{
    reveal_with_fuel(le_bytes, 2);
}

proof fn lemma_le_2(v: int)
    ensures
        le_bytes(v, 2).len() == 2,
        v == le_bytes(v, 2)[0] + 0x100 * le_bytes(v, 2)[1] + 0x1_0000 * (v / 0x100 / 0x100),
{
    lemma_le_1(v / 0x100);
}

proof fn lemma_le_4(v: int)
    ensures
        le_bytes(v, 4).len() == 4,
        v == le_bytes(v, 4)[0] + 0x100 * le_bytes(v, 4)[1] + 0x1_0000 * le_bytes(v, 4)[2]
            + 0x100_0000 * le_bytes(v, 4)[3] + 0x1_0000_0000 * (v / 0x100 / 0x100 / 0x100 / 0x100),
{
    lemma_le_2(v / 0x100 / 0x100);
    reveal_with_fuel(le_bytes, 3);
}

#[verifier::rlimit(50)]
proof fn lemma_le_8(v: int)
    ensures
        ({
            let b = le_bytes(v, 8);
            let high = v / 0x100 / 0x100 / 0x100 / 0x100;
            &&& b.len() == 8
            &&& v == b[0] + 0x100 * b[1] + 0x1_0000 * b[2] + 0x100_0000 * b[3] + 0x1_0000_0000 * (
            b[4] + 0x100 * b[5] + 0x1_0000 * b[6] + 0x100_0000 * b[7] + 0x1_0000_0000 * (high
                / 0x100 / 0x100 / 0x100 / 0x100))
        }),
{
    let high = v / 0x100 / 0x100 / 0x100 / 0x100;
    lemma_le_4(v);
    lemma_le_4(high);
    assert(le_bytes(v, 8).take(4) =~= le_bytes(v, 4) && le_bytes(v, 8).skip(4) =~= le_bytes(
        high,
        4,
    )) by {
        lemma_le_split(v, 4, 4);
        lemma_le_bytes_len(v, 4);
        reveal_with_fuel(quotient, 5);
    }
    let b = le_bytes(v, 8);
    lemma_le_bytes_len(v, 8);
    assert(b[0] == le_bytes(v, 4)[0] && b[1] == le_bytes(v, 4)[1] && b[2] == le_bytes(v, 4)[2]
        && b[3] == le_bytes(v, 4)[3]);
    assert(b[4] == b.skip(4)[0] && b[5] == b.skip(4)[1] && b[6] == b.skip(4)[2] && b[7] == b.skip(
        4,
    )[3]);
}

proof fn lemma_le_8_rest(v: int)
    ensures
        ({
            let b = le_bytes(v, 8);
            let low = b[0] + 0x100 * b[1] + 0x1_0000 * b[2] + 0x100_0000 * b[3];
            let high = b[4] + 0x100 * b[5] + 0x1_0000 * b[6] + 0x100_0000 * b[7];
            &&& b.len() == 8
            &&& (v - low - 0x1_0000_0000 * high) % 0x1_0000_0000_0000_0000 == 0
        }),
{
    lemma_le_8(v);
}

proof fn lemma_le_8_signed(v: int)
    requires
        -0x8000_0000_0000_0000 <= v < 0x8000_0000_0000_0000,
    ensures
        ({
            let b = le_bytes(v, 8);
            &&& b.len() == 8
            &&& b[0] + 0x100 * b[1] + 0x1_0000 * b[2] + 0x100_0000 * b[3] + 0x1_0000_0000 * (b[4]
                + 0x100 * b[5] + 0x1_0000 * b[6] + 0x100_0000 * b[7]) == if v < 0 {
                v + 0x1_0000_0000_0000_0000
            } else {
                v
            }
        }),
{
    lemma_le_8(v);
}

/// What is left of `v` when its `n` low bytes are taken off.
spec fn quotient(v: int, n: nat) -> int
    decreases n,
{
    if n == 0 {
        v
    } else {
        quotient(v / 256, (n - 1) as nat)
    }
}

proof fn lemma_le_split(v: int, m: nat, n: nat)
    ensures
        le_bytes(v, m + n) == le_bytes(v, m) + le_bytes(quotient(v, m), n),
    decreases m,
{
    if m > 0 {
        lemma_le_split(v / 256, (m - 1) as nat, n);
        assert(le_bytes(v, m + n) =~= le_bytes(v, m) + le_bytes(quotient(v, m), n));
    } else {
        assert(le_bytes(v, m) + le_bytes(quotient(v, m), n) =~= le_bytes(v, n));
    }
}

proof fn lemma_serialized(cells: Seq<RowCell>)
    ensures
        serialized_row(cells).len() == 4 + row_data(cells).len(),
        forall|i: int|
            4 <= i < serialized_row(cells).len() ==> (#[trigger] serialized_row(cells)[i])
                == row_data(cells)[i - 4],
        forall|i: int|
            0 <= i < 4 ==> (#[trigger] serialized_row(cells)[i]) == le_bytes(
                cells.len() as int,
                4,
            )[3 - i],
{
    lemma_le_bytes_len(cells.len() as int, 4);
}

/// A serialized row begins with the number of its fields, in four bytes, most significant first;
/// a word for each sixty-four header and null bits and one for each field follow.
pub proof fn law_row_begins_with_its_arity(cells: Seq<RowCell>)
    requires
        cells.len() <= u32::MAX,
        forall|i: int| 0 <= i < cells.len() ==> cell_ok(#[trigger] cells[i]),
    ensures
        ({
            let row = serialized_row(cells);
            &&& row.len() >= 4 + (cells.len() + 71) / 64 * 8 + 8 * cells.len()
            &&& 0x100_0000 * row[0] + 0x1_0000 * row[1] + 0x100 * row[2] + row[3] == cells.len()
        }),
{
    lemma_serialized(cells);
    lemma_le_4(cells.len() as int);
    lemma_row_keeps(cells.len(), cells, 0);
}

/// Bit `k + 8` after the number of fields, counted from the lowest bit of the first byte on, is
/// set exactly where field `k` is null.
pub proof fn law_row_tells_nulls(cells: Seq<RowCell>, k: int)
    requires
        0 <= k < cells.len(),
        forall|i: int| 0 <= i < cells.len() ==> cell_ok(#[trigger] cells[i]),
    ensures
        serialized_row(cells)[4 + (k + 8) / 8] & (1u8 << ((k % 8) as u8)) != 0 <==> cells[k] is Null,
{
    lemma_serialized(cells);
    lemma_row_keeps(cells.len(), cells, 0);
    law_null_bit(cells, k);
}

proof fn lemma_slot_bytes(cells: Seq<RowCell>, k: int)
    requires
        0 <= k < cells.len(),
        forall|i: int| 0 <= i < cells.len() ==> cell_ok(#[trigger] cells[i]),
    ensures
        ({
            let row = serialized_row(cells);
            let at = 4 + (cells.len() + 71) / 64 * 8 + 8 * k;
            &&& at + 8 <= row.len()
            &&& cells[k] is Null ==> forall|i: int| at <= i < at + 8 ==> (#[trigger] row[i]) == 0
            &&& cells[k] matches RowCell::Fixed { value, width } ==> forall|i: int|
                at <= i < at + 8 ==> (#[trigger] row[i]) == if i < at + width {
                    le_bytes(value, width)[i - at]
                } else {
                    0
                }
        }),
{
    lemma_serialized(cells);
    lemma_slot(cells, k);
}

proof fn lemma_instant_bytes(cells: Seq<RowCell>, k: int) -> (end: int)
    requires
        0 <= k < cells.len(),
        forall|i: int| 0 <= i < cells.len() ==> cell_ok(#[trigger] cells[i]),
        cells[k] is Instant,
    ensures
        ({
            let row = serialized_row(cells);
            let at = 4 + (cells.len() + 71) / 64 * 8 + 8 * k;
            &&& at + 8 <= row.len()
            &&& 0 <= end
            &&& 4 + end + 8 <= row.len()
            &&& forall|i: int|
                at <= i < at + 4 ==> (#[trigger] row[i]) == le_bytes(cells[k]->nanos, 4)[i - at]
            &&& forall|i: int|
                at + 4 <= i < at + 8 ==> (#[trigger] row[i]) == le_bytes(end, 4)[i - at - 4]
            &&& forall|i: int|
                4 + end <= i < 12 + end ==> (#[trigger] row[i]) == le_bytes(cells[k]->millis, 8)[i
                    - 4 - end]
        }),
{
    lemma_serialized(cells);
    lemma_slot(cells, k);
    end_of(cells, k)
}

proof fn lemma_variable_bytes(cells: Seq<RowCell>, k: int) -> (end: int)
    requires
        0 <= k < cells.len(),
        forall|i: int| 0 <= i < cells.len() ==> cell_ok(#[trigger] cells[i]),
        cells[k] is Bytes,
    ensures
        ({
            let row = serialized_row(cells);
            let at = 4 + (cells.len() + 71) / 64 * 8 + 8 * k;
            let bytes = cells[k]->Bytes_bytes;
            &&& at + 8 <= row.len()
            &&& fixed_size(cells.len()) <= end
            &&& bytes.len() <= 7 ==> forall|i: int|
                at <= i < at + 8 ==> (#[trigger] row[i]) == if i < at + bytes.len() {
                    bytes[i - at]
                } else if i < at + 7 {
                    0
                } else {
                    (128 + bytes.len()) as u8
                }
            &&& bytes.len() > 7 ==> {
                &&& 4 + end + bytes.len() <= row.len()
                &&& forall|i: int|
                    at <= i < at + 4 ==> (#[trigger] row[i]) == le_bytes(bytes.len() as int, 4)[i
                        - at]
                &&& forall|i: int|
                    at + 4 <= i < at + 8 ==> (#[trigger] row[i]) == le_bytes(end, 4)[i - at - 4]
                &&& forall|i: int|
                    4 + end <= i < 4 + end + bytes.len() ==> (#[trigger] row[i]) == bytes[i - 4
                        - end]
            }
        }),
{
    lemma_serialized(cells);
    lemma_slot(cells, k);
    end_of(cells, k)
}

/// The slot of a field that holds a number, or nothing, gives the number back: as many bytes as
/// it is wide, least significant first, and zeros. Of a number that is too large for eight bytes
/// the slot gives the eight lowest.
#[verifier::rlimit(50)]
pub proof fn law_row_gives_numbers_back(cells: Seq<RowCell>, k: int)
    requires
        0 <= k < cells.len(),
        forall|i: int| 0 <= i < cells.len() ==> cell_ok(#[trigger] cells[i]),
    ensures
        ({
            let row = serialized_row(cells);
            let at = 4 + (cells.len() + 71) / 64 * 8 + 8 * k;
            let low = row[at] + 0x100 * row[at + 1] + 0x1_0000 * row[at + 2] + 0x100_0000 * row[at
                + 3];
            let high = row[at + 4] + 0x100 * row[at + 5] + 0x1_0000 * row[at + 6] + 0x100_0000
                * row[at + 7];
            &&& at + 8 <= row.len()
            &&& cells[k] is Null ==> low == 0 && high == 0
            &&& cells[k] matches RowCell::Fixed { value, width } ==> {
                &&& width == 1 && -0x80 <= value < 0x80 ==> high == 0 && low == if value < 0 {
                    value + 0x100
                } else {
                    value
                }
                &&& width == 2 && -0x8000 <= value < 0x8000 ==> high == 0 && low == if value < 0 {
                    value + 0x1_0000
                } else {
                    value
                }
                &&& width == 4 && -0x8000_0000 <= value < 0x8000_0000 ==> high == 0 && low == if value
                    < 0 {
                    value + 0x1_0000_0000
                } else {
                    value
                }
                &&& width == 8 && -0x8000_0000_0000_0000 <= value < 0x8000_0000_0000_0000 ==> low
                    + 0x1_0000_0000 * high == if value < 0 {
                    value + 0x1_0000_0000_0000_0000
                } else {
                    value
                }
                &&& width == 8 ==> (value - low - 0x1_0000_0000 * high) % 0x1_0000_0000_0000_0000 == 0
            }
        }),
{
    let at = 4 + (cells.len() + 71) / 64 * 8 + 8 * k;
    lemma_slot_bytes(cells, k);
    if let RowCell::Fixed { value, width } = cells[k] {
        if width == 1 {
            lemma_le_1(value);
        } else if width == 2 {
            lemma_le_2(value);
        } else if width == 4 {
            lemma_le_4(value);
        } else if width == 8 {
            lemma_le_8_rest(value);
            if -0x8000_0000_0000_0000 <= value < 0x8000_0000_0000_0000 {
                lemma_le_8_signed(value);
            }
        }
    }
}

/// A field that holds bytes gives all of them back. Up to seven stand in the slot, before zeros
/// and the number of bytes with the highest bit set. More stand apart, where the slot says: their
/// number in four bytes, and how far after the number of fields they begin in four more.
#[verifier::rlimit(50)]
pub proof fn law_row_gives_bytes_back(cells: Seq<RowCell>, k: int)
    requires
        0 <= k < cells.len(),
        forall|i: int| 0 <= i < cells.len() ==> cell_ok(#[trigger] cells[i]),
        cells[k] is Bytes,
        serialized_row(cells).len() < 0x8000_0000,
    ensures
        ({
            let row = serialized_row(cells);
            let bytes = cells[k]->Bytes_bytes;
            let at = 4 + (cells.len() + 71) / 64 * 8 + 8 * k;
            let low = row[at] + 0x100 * row[at + 1] + 0x1_0000 * row[at + 2] + 0x100_0000 * row[at
                + 3];
            let high = row[at + 4] + 0x100 * row[at + 5] + 0x1_0000 * row[at + 6] + 0x100_0000
                * row[at + 7];
            &&& at + 8 <= row.len()
            &&& if bytes.len() <= 7 {
                &&& row[at + 7] == 0x80 + bytes.len()
                &&& row.subrange(at, at + bytes.len()) == bytes
                &&& forall|i: int| at + bytes.len() <= i < at + 7 ==> (#[trigger] row[i]) == 0
            } else {
                &&& row[at + 7] < 0x80
                &&& low == bytes.len()
                &&& 4 + (cells.len() + 71) / 64 * 8 + 8 * cells.len() <= 4 + high
                &&& 4 + high + bytes.len() <= row.len()
                &&& row.subrange(4 + high, 4 + high + bytes.len()) == bytes
            }
        }),
{
    let end = lemma_variable_bytes(cells, k);
    let row = serialized_row(cells);
    let at = 4 + (cells.len() + 71) / 64 * 8 + 8 * k;
    let bytes = cells[k]->Bytes_bytes;
    if bytes.len() <= 7 {
        assert(row.subrange(at, at + bytes.len()) =~= bytes);
    } else {
        lemma_le_4(bytes.len() as int);
        lemma_le_4(end);
        assert(row[at + 4] + 0x100 * row[at + 5] + 0x1_0000 * row[at + 6] + 0x100_0000 * row[at + 7]
            == end);
        assert(row.subrange(4 + end, 4 + end + bytes.len()) =~= bytes);
    }
}

/// A field that holds an instant gives it back: the nanoseconds in four bytes of the slot, and
/// the milliseconds in eight bytes that stand apart, where four more bytes of the slot say.
#[verifier::rlimit(50)]
pub proof fn law_row_gives_instants_back(cells: Seq<RowCell>, k: int)
    requires
        0 <= k < cells.len(),
        forall|i: int| 0 <= i < cells.len() ==> cell_ok(#[trigger] cells[i]),
        serialized_row(cells).len() < 0x8000_0000,
        cells[k] is Instant,
        0 <= cells[k]->nanos <= u32::MAX,
        i64::MIN <= cells[k]->millis <= i64::MAX,
    ensures
        ({
            let row = serialized_row(cells);
            let millis = cells[k]->millis;
            let at = 4 + (cells.len() + 71) / 64 * 8 + 8 * k;
            let low = row[at] + 0x100 * row[at + 1] + 0x1_0000 * row[at + 2] + 0x100_0000 * row[at
                + 3];
            let from = 4 + row[at + 4] + 0x100 * row[at + 5] + 0x1_0000 * row[at + 6] + 0x100_0000
                * row[at + 7];
            let apart = row[from] + 0x100 * row[from + 1] + 0x1_0000 * row[from + 2] + 0x100_0000
                * row[from + 3] + 0x1_0000_0000 * (row[from + 4] + 0x100 * row[from + 5] + 0x1_0000
                * row[from + 6] + 0x100_0000 * row[from + 7]);
            &&& low == cells[k]->nanos
            &&& from + 8 <= row.len()
            &&& apart == if millis < 0 {
                millis + 0x1_0000_0000_0000_0000
            } else {
                millis
            }
        }),
{
    let end = lemma_instant_bytes(cells, k);
    let row = serialized_row(cells);
    let at = 4 + (cells.len() + 71) / 64 * 8 + 8 * k;
    lemma_le_4(cells[k]->nanos);
    lemma_le_4(end);
    lemma_le_8_signed(cells[k]->millis);
    assert(row[at + 4] + 0x100 * row[at + 5] + 0x1_0000 * row[at + 6] + 0x100_0000 * row[at + 7]
        == end);
}

/// A field that holds an unscaled decimal gives its bytes back: their number in four bytes of the
/// slot, and the bytes apart, where four more bytes of the slot say.
#[verifier::rlimit(50)]
pub proof fn law_row_gives_decimals_back(cells: Seq<RowCell>, k: int)
    requires
        0 <= k < cells.len(),
        forall|i: int| 0 <= i < cells.len() ==> cell_ok(#[trigger] cells[i]),
        serialized_row(cells).len() < 0x8000_0000,
        cells[k] is Unscaled,
    ensures
        ({
            let row = serialized_row(cells);
            let bytes = cells[k]->Unscaled_bytes;
            let at = 4 + (cells.len() + 71) / 64 * 8 + 8 * k;
            let low = row[at] + 0x100 * row[at + 1] + 0x1_0000 * row[at + 2] + 0x100_0000 * row[at
                + 3];
            let from = 4 + row[at + 4] + 0x100 * row[at + 5] + 0x1_0000 * row[at + 6] + 0x100_0000
                * row[at + 7];
            &&& low == bytes.len()
            &&& from + 16 <= row.len()
            &&& row.subrange(from, from + bytes.len()) == bytes
        }),
{
    lemma_serialized(cells);
    lemma_slot(cells, k);
    let data = row_data(cells);
    let at = slot(cells.len(), k);
    let end = end_of(cells, k);
    let row = serialized_row(cells);
    let bytes = cells[k]->Unscaled_bytes;
    assert forall|i: int| 0 <= i < 8 implies #[trigger] row[at + 4 + i] == data[at + i] by {}
    lemma_le_4(bytes.len() as int);
    lemma_le_4(end);
    assert(row.subrange(4 + end, 4 + end + bytes.len()) =~= bytes);
}

/// The bytes that a field takes outside its slot: whole words for more than seven bytes, one word
/// for an instant, two for an unscaled decimal.
pub open spec fn size_apart(cell: RowCell) -> nat {
    match cell {
        RowCell::Bytes { bytes } => if bytes.len() > 7 {
            (bytes.len() + 7) / 8 * 8
        } else {
            0
        },
        RowCell::Instant { .. } => 8,
        RowCell::Unscaled { .. } => 16,
        _ => 0,
    }
}

/// The bytes that fields take outside their slots together.
pub open spec fn sizes_apart(cells: Seq<RowCell>) -> nat
    decreases cells.len(),
{
    if cells.len() == 0 {
        0
    } else {
        sizes_apart(cells.drop_last()) + size_apart(cells.last())
    }
}

proof fn lemma_row_len(arity: nat, cells: Seq<RowCell>)
    requires
        cells.len() <= arity,
        forall|i: int| 0 <= i < cells.len() ==> cell_ok(#[trigger] cells[i]),
    ensures
        partial_row(arity, cells).len() == fixed_size(arity) + sizes_apart(cells),
    decreases cells.len(),
{
    if cells.len() > 0 {
        let rest = cells.drop_last();
        lemma_row_len(arity, rest);
        if let RowCell::Instant { millis, nanos } = cells.last() {
            lemma_le_bytes_len(millis, 8);
        }
    }
}

#[verifier::rlimit(50)]
proof fn lemma_padding(cells: Seq<RowCell>, k: int)
    requires
        0 <= k < cells.len(),
        forall|i: int| 0 <= i < cells.len() ==> cell_ok(#[trigger] cells[i]),
    ensures
        ({
            let data = row_data(cells);
            let end = end_of(cells, k);
            &&& end + size_apart(cells[k]) <= data.len()
            &&& match cells[k] {
                RowCell::Bytes { bytes } => forall|i: int|
                    end + bytes.len() <= i < end + size_apart(cells[k]) ==> (#[trigger] data[i])
                        == 0,
                RowCell::Unscaled { bytes } => forall|i: int|
                    end + bytes.len() <= i < end + 16 ==> (#[trigger] data[i]) == 0,
                _ => true,
            }
        }),
{
    let arity = cells.len();
    let first = cells.take(k);
    let next = cells.take(k + 1);
    assert(next.drop_last() =~= first);
    assert(next.last() == cells[k]);
    lemma_row_keeps(arity, first, 0);
    lemma_row_keeps(arity, cells, k + 1);
    lemma_row_len(arity, first);
    lemma_row_len(arity, next);
    match cells[k] {
        RowCell::Bytes { bytes } => {
            lemma_le_bytes_len(bytes.len() as int, 4);
            lemma_le_bytes_len(partial_row(arity, first).len() as int, 4);
        },
        RowCell::Unscaled { bytes } => {
            lemma_le_bytes_len(bytes.len() as int, 4);
            lemma_le_bytes_len(partial_row(arity, first).len() as int, 4);
        },
        _ => {},
    }
}

/// A row has no gaps: behind the slots stands, field after field, what does not fit a slot, each
/// filled up with zeros to whole words, and nothing else.
#[verifier::rlimit(50)]
pub proof fn law_row_has_no_gaps(cells: Seq<RowCell>, k: int)
    requires
        0 <= k < cells.len(),
        forall|i: int| 0 <= i < cells.len() ==> cell_ok(#[trigger] cells[i]),
        serialized_row(cells).len() < 0x8000_0000,
    ensures
        ({
            let row = serialized_row(cells);
            let behind = 4 + (cells.len() + 71) / 64 * 8 + 8 * cells.len();
            let at = 4 + (cells.len() + 71) / 64 * 8 + 8 * k;
            let from = 4 + row[at + 4] + 0x100 * row[at + 5] + 0x1_0000 * row[at + 6] + 0x100_0000
                * row[at + 7];
            &&& row.len() == behind + sizes_apart(cells)
            &&& size_apart(cells[k]) > 0 ==> from == behind + sizes_apart(cells.take(k))
            &&& cells[k] matches RowCell::Bytes { bytes } ==> bytes.len() > 7 ==> forall|i: int|
                from + bytes.len() <= i < from + (bytes.len() + 7) / 8 * 8 ==> (#[trigger] row[i])
                    == 0
            &&& cells[k] matches RowCell::Unscaled { bytes } ==> forall|i: int|
                from + bytes.len() <= i < from + 16 ==> (#[trigger] row[i]) == 0
        }),
{
    let row = serialized_row(cells);
    let end = end_of(cells, k);
    let at = 4 + (cells.len() + 71) / 64 * 8 + 8 * k;
    lemma_row_len(cells.len(), cells);
    lemma_row_len(cells.len(), cells.take(k));
    lemma_serialized(cells);
    lemma_padding(cells, k);
    if size_apart(cells[k]) > 0 {
        assert(row[at + 4] + 0x100 * row[at + 5] + 0x1_0000 * row[at + 6] + 0x100_0000 * row[at + 7]
            == end) by {
            lemma_slot(cells, k);
            lemma_le_4(end);
            let data = row_data(cells);
            assert(row[at + 4] == data[at] && row[at + 5] == data[at + 1] && row[at + 6] == data[at
                + 2] && row[at + 7] == data[at + 3]);
        }
    }
}

#[verifier::rlimit(50)]
proof fn lemma_header(arity: nat, cells: Seq<RowCell>, bit: int)
    requires
        cells.len() <= arity,
        forall|i: int| 0 <= i < cells.len() ==> cell_ok(#[trigger] cells[i]),
        0 <= bit < 8 * null_bits_size(arity),
        !(8 <= bit < 8 + cells.len()),
    ensures
        partial_row(arity, cells).len() >= fixed_size(arity),
        partial_row(arity, cells)[bit / 8] & (1u8 << ((bit % 8) as u8)) == 0,
    decreases cells.len(),
{
    lemma_row_keeps(arity, cells, 0);
    let b = (bit % 8) as u8;
    if cells.len() == 0 {
        assert(0u8 & (1u8 << b) == 0) by (bit_vector)
            requires
                b < 8,
        ;
    } else {
        let rest = cells.drop_last();
        let pos = cells.len() - 1;
        let before = partial_row(arity, rest);
        lemma_header(arity, rest, bit);
        lemma_row_keeps(arity, rest, 0);
        match cells.last() {
            RowCell::Fixed { value, width } => {
                lemma_le_bytes_len(value, width);
            },
            RowCell::Null => {
                let x = before[bit / 8];
                let a = (pos % 8) as u8;
                if bit / 8 == (pos + 8) / 8 {
                    assert((x | (1u8 << a)) & (1u8 << b) == 0) by (bit_vector)
                        requires
                            a < 8,
                            b < 8,
                            a != b,
                            x & (1u8 << b) == 0,
                    ;
                }
            },
            _ => {},
        }
    }
}

/// No bit is set before the null bits of a row, nor after those of its fields: the first byte
/// after the number of fields is zero.
pub proof fn law_row_has_no_other_bits(cells: Seq<RowCell>, bit: int)
    requires
        forall|i: int| 0 <= i < cells.len() ==> cell_ok(#[trigger] cells[i]),
        0 <= bit < (cells.len() + 71) / 64 * 64,
        !(8 <= bit < 8 + cells.len()),
    ensures
        serialized_row(cells)[4 + bit / 8] & (1u8 << ((bit % 8) as u8)) == 0,
{
    lemma_serialized(cells);
    lemma_header(cells.len(), cells, bit);
}

/// Whether two fields are of one kind, and what they hold fits it: numbers of one width of a whole
/// number of bytes, bytes, instants or decimals.
pub open spec fn same_kind(x: RowCell, y: RowCell) -> bool {
    match (x, y) {
        (RowCell::Fixed { value: a, width: m }, RowCell::Fixed { value: b, width: n }) => {
            &&& m == n
            &&& {
                ||| m == 1 && -0x80 <= a < 0x80 && -0x80 <= b < 0x80
                ||| m == 2 && -0x8000 <= a < 0x8000 && -0x8000 <= b < 0x8000
                ||| m == 4 && -0x8000_0000 <= a < 0x8000_0000 && -0x8000_0000 <= b < 0x8000_0000
                ||| m == 8 && i64::MIN <= a <= i64::MAX && i64::MIN <= b <= i64::MAX
            }
        },
        (RowCell::Bytes { .. }, RowCell::Bytes { .. }) => true,
        (RowCell::Unscaled { .. }, RowCell::Unscaled { .. }) => true,
        (
            RowCell::Instant { millis: a, nanos: m },
            RowCell::Instant { millis: b, nanos: n },
        ) => {
            &&& i64::MIN <= a <= i64::MAX
            &&& i64::MIN <= b <= i64::MAX
            &&& 0 <= m <= u32::MAX
            &&& 0 <= n <= u32::MAX
        },
        _ => false,
    }
}

/// Rows that differ in a field have different bytes: where the field is null in one row only, and
/// where it holds different things of one kind.
#[verifier::rlimit(50)]
pub proof fn law_different_fields_different_rows(a: Seq<RowCell>, b: Seq<RowCell>, k: int)
    requires
        a.len() == b.len(),
        0 <= k < a.len(),
        forall|i: int| 0 <= i < a.len() ==> cell_ok(#[trigger] a[i]),
        forall|i: int| 0 <= i < b.len() ==> cell_ok(#[trigger] b[i]),
        a[k] != b[k],
        a[k] is Null || b[k] is Null || same_kind(a[k], b[k]),
        serialized_row(a).len() < 0x8000_0000,
    ensures
        serialized_row(a) != serialized_row(b),
{
    if serialized_row(a) == serialized_row(b) {
        law_row_tells_nulls(a, k);
        law_row_tells_nulls(b, k);
        match a[k] {
            RowCell::Fixed { .. } => {
                law_row_gives_numbers_back(a, k);
                law_row_gives_numbers_back(b, k);
            },
            RowCell::Bytes { .. } => {
                law_row_gives_bytes_back(a, k);
                law_row_gives_bytes_back(b, k);
            },
            RowCell::Instant { .. } => {
                law_row_gives_instants_back(a, k);
                law_row_gives_instants_back(b, k);
            },
            RowCell::Unscaled { .. } => {
                law_row_gives_decimals_back(a, k);
                law_row_gives_decimals_back(b, k);
            },
            RowCell::Null => {},
        }
        assert(false);
    }
}

} // verus!
