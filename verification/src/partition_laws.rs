//! What a partition tells of the rows in it: the value of each of their partition columns.

use crate::arrow::Cell;
use crate::binary_row::{
    cell_ok, int_len, le_bytes, lemma_le_bytes_len, serialized_row, unscaled_bytes, RowCell,
};
use crate::datum::{readable, row_cell, DataType};
use crate::read_laws::{
    law_row_begins_with_its_arity, law_row_gives_bytes_back, law_row_gives_decimals_back,
    law_row_gives_instants_back, law_row_gives_numbers_back, law_row_tells_nulls,
};
use crate::route::Router;
use vstd::arithmetic::power::pow;
use vstd::prelude::*;
use vstd::utf8::*;

verus! {

/// The number that bytes stand for, most significant first.
pub open spec fn number_of(bytes: Seq<u8>) -> int
    decreases bytes.len(),
{
    if bytes.len() == 0 {
        0
    } else {
        0x100 * number_of(bytes.drop_last()) + bytes.last()
    }
}

/// The number that remains of `v` when its `n` low bytes are taken off.
spec fn shifted(v: int, n: nat) -> int
    decreases n,
{
    if n == 0 {
        v
    } else {
        shifted(v / 256, (n - 1) as nat)
    }
}

proof fn lemma_number_of_reversed(v: int, n: nat)
    ensures
        number_of(le_bytes(v, n).reverse()) == v - pow(256, n) * shifted(v, n),
    decreases n,
{
    reveal(pow);
    if n > 0 {
        let rest = le_bytes(v / 256, (n - 1) as nat);
        let bytes = le_bytes(v, n).reverse();
        lemma_number_of_reversed(v / 256, (n - 1) as nat);
        assert(bytes.drop_last() =~= rest.reverse());
        assert(bytes.last() == (v % 256) as u8);
        let p = pow(256, (n - 1) as nat);
        let q = shifted(v / 256, (n - 1) as nat);
        assert(256 * (p * q) == (256 * p) * q) by (nonlinear_arith);
    } else {
        assert(pow(256, 0) * v == v) by {
            assert(pow(256, 0) == 1);
        }
    }
}

proof fn lemma_shortest(v: int)
    ensures
        ({
            let bytes = unscaled_bytes(v);
            &&& bytes.len() == int_len(v) >= 1
            &&& shifted(v, int_len(v)) == if v < 0 {
                -1int
            } else {
                0
            }
            &&& bytes[0] >= 0x80 <==> v < 0
            &&& bytes.len() > 1 && bytes[0] == 0 ==> bytes[1] >= 0x80
            &&& bytes.len() > 1 && bytes[0] == 0xff ==> bytes[1] < 0x80
        }),
    decreases if v < 0 { -v } else { v },
{
    let n = int_len(v);
    lemma_le_bytes_len(v, n);
    if -128 <= v < 128 {
        reveal_with_fuel(le_bytes, 2);
        reveal_with_fuel(shifted, 2);
        assert(unscaled_bytes(v) =~= seq![(v % 256) as u8]);
    } else {
        let w = v / 256;
        lemma_shortest(w);
        lemma_le_bytes_len(w, int_len(w));
        assert(unscaled_bytes(v) =~= unscaled_bytes(w).push((v % 256) as u8));
        if -128 <= w < 128 {
            assert(unscaled_bytes(w) =~= seq![(w % 256) as u8]) by {
                reveal_with_fuel(le_bytes, 2);
            }
            assert(unscaled_bytes(v)[0] == (w % 256) as u8);
            assert(unscaled_bytes(v)[1] == (v % 256) as u8);
        } else {
            lemma_shortest(w / 256);
            assert(unscaled_bytes(v)[0] == unscaled_bytes(w)[0]);
            assert(unscaled_bytes(v)[1] == unscaled_bytes(w)[1]);
        }
    }
}

/// A decimal that stands apart is stored in two's complement, most significant byte first, in as
/// few bytes as hold it and its sign.
pub proof fn law_decimal_bytes(v: int)
    ensures
        ({
            let bytes = unscaled_bytes(v);
            &&& bytes.len() >= 1
            &&& v >= 0 ==> bytes[0] < 0x80 && number_of(bytes) == v
            &&& v < 0 ==> bytes[0] >= 0x80 && number_of(bytes) == v + pow(256, bytes.len())
            &&& bytes.len() > 1 && bytes[0] == 0 ==> bytes[1] >= 0x80
            &&& bytes.len() > 1 && bytes[0] == 0xff ==> bytes[1] < 0x80
        }),
{
    lemma_shortest(v);
    lemma_number_of_reversed(v, int_len(v));
    assert(pow(256, int_len(v)) * 0 == 0) by (nonlinear_arith);
    assert(pow(256, int_len(v)) * -1 == -pow(256, int_len(v))) by (nonlinear_arith);
}

proof fn lemma_int_len(v: int, n: nat)
    requires
        n >= 1,
        -128 * pow(256, (n - 1) as nat) <= v < 128 * pow(256, (n - 1) as nat),
    ensures
        int_len(v) <= n,
    decreases n,
{
    reveal(pow);
    if !(-128 <= v < 128) {
        if n == 1 {
            assert(pow(256, 0) == 1);
        } else {
            lemma_int_len(v / 256, (n - 1) as nat);
        }
    }
}

pub proof fn lemma_row_cell_ok(cell: Cell, data_type: DataType)
    ensures
        cell_ok(row_cell(cell, data_type)),
{
    if let Cell::Decimal128(v) = cell {
        assert(128 * pow(256, 15) == 0x8000_0000_0000_0000_0000_0000_0000_0000) by {
            reveal_with_fuel(pow, 16);
        }
        lemma_int_len(v as int, 16);
        lemma_shortest(v as int);
    }
}

proof fn lemma_partition_cells(router: Router, columns: Seq<Seq<Cell>>, row: int) -> (cells: Seq<
    RowCell,
>)
    ensures
        router.route(columns, row).partition == serialized_row(cells),
        cells.len() == router.partition_field_indices@.len(),
        forall|k: int|
            #![trigger cells[k]]
            0 <= k < cells.len() ==> {
                let column = router.partition_field_indices@[k] as int;
                &&& cells[k] == row_cell(columns[column][row], router.fields@[column].data_type)
                &&& cell_ok(cells[k])
            },
{
    let cells = router.cells_at(columns, row, router.partition_field_indices@);
    assert forall|k: int| #![trigger cells[k]] 0 <= k < cells.len() implies cell_ok(cells[k]) by {
        let column = router.partition_field_indices@[k] as int;
        lemma_row_cell_ok(columns[column][row], router.fields@[column].data_type);
    }
    cells
}

/// A partition names as many values as there are partition columns.
pub proof fn law_partition_names_each_column(router: Router, columns: Seq<Seq<Cell>>, row: int)
    requires
        router.partition_field_indices@.len() <= u32::MAX,
    ensures
        ({
            let bytes = router.route(columns, row).partition;
            &&& bytes.len() >= 4
            &&& 0x100_0000 * bytes[0] + 0x1_0000 * bytes[1] + 0x100 * bytes[2] + bytes[3]
                == router.partition_field_indices@.len()
        }),
{
    let cells = lemma_partition_cells(router, columns, row);
    law_row_begins_with_its_arity(cells);
}

/// A partition tells which partition columns are null: the null bit of field `k` is set where
/// column `k` is null, and only where it holds no value of a type that can be a key.
pub proof fn law_partition_tells_nulls(
    router: Router,
    columns: Seq<Seq<Cell>>,
    row: int,
    k: int,
)
    requires
        0 <= k < router.partition_field_indices@.len(),
    ensures
        ({
            let bytes = router.route(columns, row).partition;
            let cell = columns[router.partition_field_indices@[k] as int][row];
            let set = bytes[4 + (k + 8) / 8] & (1u8 << ((k % 8) as u8)) != 0;
            &&& cell is Null ==> set
            &&& cell is Boolean || cell is Int8 || cell is Int16 || cell is Int32 || cell is Int64
                || cell is Utf8 || cell is Date32 || cell is TimestampMillis
                || cell is TimestampMicros || cell is Decimal128 ==> !set
        }),
{
    let cells = lemma_partition_cells(router, columns, row);
    law_row_tells_nulls(cells, k);
}

/// A partition holds the value of each partition column that fits a slot: truth as one or zero,
/// and a number in the bytes of its type, least significant first.
#[verifier::rlimit(50)]
pub proof fn law_partition_holds_numbers(
    router: Router,
    columns: Seq<Seq<Cell>>,
    row: int,
    k: int,
)
    requires
        0 <= k < router.partition_field_indices@.len(),
    ensures
        ({
            let bytes = router.route(columns, row).partition;
            let count = router.partition_field_indices@.len();
            let column = router.partition_field_indices@[k] as int;
            let at = 4 + (count + 71) / 64 * 8 + 8 * k;
            let low = bytes[at] + 0x100 * bytes[at + 1] + 0x1_0000 * bytes[at + 2] + 0x100_0000
                * bytes[at + 3];
            let high = bytes[at + 4] + 0x100 * bytes[at + 5] + 0x1_0000 * bytes[at + 6]
                + 0x100_0000 * bytes[at + 7];
            match columns[column][row] {
                Cell::Boolean(v) => low == (if v {
                    1int
                } else {
                    0
                }) && high == 0,
                Cell::Int8(v) => low == (if v < 0 {
                    v + 0x100
                } else {
                    v as int
                }) && high == 0,
                Cell::Int16(v) => low == (if v < 0 {
                    v + 0x1_0000
                } else {
                    v as int
                }) && high == 0,
                Cell::Int32(v) => low == (if v < 0 {
                    v + 0x1_0000_0000
                } else {
                    v as int
                }) && high == 0,
                Cell::Date32(v) => low == (if v < 0 {
                    v + 0x1_0000_0000
                } else {
                    v as int
                }) && high == 0,
                Cell::Int64(v) => low + 0x1_0000_0000 * high == if v < 0 {
                    v + 0x1_0000_0000_0000_0000
                } else {
                    v as int
                },
                Cell::TimestampMillis(v) => low + 0x1_0000_0000 * high == if v < 0 {
                    v + 0x1_0000_0000_0000_0000
                } else {
                    v as int
                },
                Cell::Decimal128(v) => (router.fields@[column].data_type matches DataType::Decimal {
                    precision,
                    ..
                } ==> precision <= 18) ==> {
                    &&& (v - low - 0x1_0000_0000 * high) % 0x1_0000_0000_0000_0000 == 0
                    &&& i64::MIN <= v <= i64::MAX ==> low + 0x1_0000_0000 * high == if v < 0 {
                        v + 0x1_0000_0000_0000_0000
                    } else {
                        v as int
                    }
                },
                _ => true,
            }
        }),
{
    let cells = lemma_partition_cells(router, columns, row);
    let column = router.partition_field_indices@[k] as int;
    assert(cells[k] == row_cell(columns[column][row], router.fields@[column].data_type));
    law_row_gives_numbers_back(cells, k);
}

/// A partition holds all of the text of each partition column of texts, as its UTF-8 bytes: up to
/// seven in the slot, more of them apart.
#[verifier::rlimit(50)]
pub proof fn law_partition_holds_texts(
    router: Router,
    columns: Seq<Seq<Cell>>,
    row: int,
    k: int,
)
    requires
        0 <= k < router.partition_field_indices@.len(),
        columns[router.partition_field_indices@[k] as int][row] is Utf8,
        router.route(columns, row).partition.len() < 0x8000_0000,
    ensures
        ({
            let bytes = router.route(columns, row).partition;
            let count = router.partition_field_indices@.len();
            let column = router.partition_field_indices@[k] as int;
            let at = 4 + (count + 71) / 64 * 8 + 8 * k;
            let low = bytes[at] + 0x100 * bytes[at + 1] + 0x1_0000 * bytes[at + 2] + 0x100_0000
                * bytes[at + 3];
            let high = bytes[at + 4] + 0x100 * bytes[at + 5] + 0x1_0000 * bytes[at + 6]
                + 0x100_0000 * bytes[at + 7];
            let text = encode_utf8(columns[column][row]->Utf8_0);
            &&& at + 8 <= bytes.len()
            &&& if text.len() <= 7 {
                bytes[at + 7] == 0x80 + text.len() && bytes.subrange(at, at + text.len()) == text
            } else {
                &&& bytes[at + 7] < 0x80
                &&& low == text.len()
                &&& 4 + high + text.len() <= bytes.len()
                &&& bytes.subrange(4 + high, 4 + high + text.len()) == text
            }
        }),
{
    let cells = lemma_partition_cells(router, columns, row);
    let column = router.partition_field_indices@[k] as int;
    assert(cells[k] == row_cell(columns[column][row], router.fields@[column].data_type));
    law_row_gives_bytes_back(cells, k);
}

/// A partition holds each instant in microseconds: the whole milliseconds before it apart, and
/// the nanoseconds from there to the instant in the slot.
#[verifier::rlimit(50)]
pub proof fn law_partition_holds_instants(
    router: Router,
    columns: Seq<Seq<Cell>>,
    row: int,
    k: int,
)
    requires
        0 <= k < router.partition_field_indices@.len(),
        columns[router.partition_field_indices@[k] as int][row] is TimestampMicros,
        router.route(columns, row).partition.len() < 0x8000_0000,
    ensures
        ({
            let bytes = router.route(columns, row).partition;
            let count = router.partition_field_indices@.len();
            let column = router.partition_field_indices@[k] as int;
            let at = 4 + (count + 71) / 64 * 8 + 8 * k;
            let nanos = bytes[at] + 0x100 * bytes[at + 1] + 0x1_0000 * bytes[at + 2] + 0x100_0000
                * bytes[at + 3];
            let from = 4 + bytes[at + 4] + 0x100 * bytes[at + 5] + 0x1_0000 * bytes[at + 6]
                + 0x100_0000 * bytes[at + 7];
            let apart = bytes[from] + 0x100 * bytes[from + 1] + 0x1_0000 * bytes[from + 2]
                + 0x100_0000 * bytes[from + 3] + 0x1_0000_0000 * (bytes[from + 4] + 0x100
                * bytes[from + 5] + 0x1_0000 * bytes[from + 6] + 0x100_0000 * bytes[from + 7]);
            let millis = if apart < 0x8000_0000_0000_0000 {
                apart
            } else {
                apart - 0x1_0000_0000_0000_0000
            };
            &&& from + 8 <= bytes.len()
            &&& 0 <= nanos < 1_000_000
            &&& 1_000_000 * millis + nanos == 1000 * columns[column][row]->TimestampMicros_0
        }),
{
    let cells = lemma_partition_cells(router, columns, row);
    let column = router.partition_field_indices@[k] as int;
    assert(cells[k] == row_cell(columns[column][row], router.fields@[column].data_type));
    law_row_gives_instants_back(cells, k);
}

/// A partition holds each decimal of more than eighteen digits apart, in two's complement, most
/// significant byte first.
#[verifier::rlimit(50)]
pub proof fn law_partition_holds_decimals(
    router: Router,
    columns: Seq<Seq<Cell>>,
    row: int,
    k: int,
)
    requires
        0 <= k < router.partition_field_indices@.len(),
        columns[router.partition_field_indices@[k] as int][row] is Decimal128,
        router.fields@[router.partition_field_indices@[k] as int].data_type matches
            DataType::Decimal { precision, .. } && precision > 18,
        router.route(columns, row).partition.len() < 0x8000_0000,
    ensures
        ({
            let bytes = router.route(columns, row).partition;
            let count = router.partition_field_indices@.len();
            let column = router.partition_field_indices@[k] as int;
            let at = 4 + (count + 71) / 64 * 8 + 8 * k;
            let low = bytes[at] + 0x100 * bytes[at + 1] + 0x1_0000 * bytes[at + 2] + 0x100_0000
                * bytes[at + 3];
            let from = 4 + bytes[at + 4] + 0x100 * bytes[at + 5] + 0x1_0000 * bytes[at + 6]
                + 0x100_0000 * bytes[at + 7];
            let apart = bytes.subrange(from, from + low);
            let v = columns[column][row]->Decimal128_0;
            &&& from + 16 <= bytes.len()
            &&& 1 <= low <= 16
            &&& v >= 0 ==> apart[0] < 0x80 && number_of(apart) == v
            &&& v < 0 ==> apart[0] >= 0x80 && number_of(apart) == v + pow(256, low as nat)
        }),
{
    let cells = lemma_partition_cells(router, columns, row);
    let column = router.partition_field_indices@[k] as int;
    assert(cells[k] == row_cell(columns[column][row], router.fields@[column].data_type));
    law_row_gives_decimals_back(cells, k);
    law_decimal_bytes(columns[column][row]->Decimal128_0 as int);
}

proof fn lemma_sound_column(
    router: Router,
    columns: Seq<Seq<Cell>>,
    row: int,
    indices: Seq<usize>,
    k: int,
)
    requires
        0 <= k < indices.len(),
        router.first_fault(columns, row, indices) is None,
    ensures
        ({
            let cell = columns[indices[k] as int][row];
            cell is Null || readable(cell, router.fields@[indices[k] as int].data_type)
        }),
    decreases indices.len(),
{
    if k < indices.len() - 1 {
        lemma_sound_column(router, columns, row, indices.drop_last(), k);
    }
}

/// Different values of one declared type are stored differently, and none of them is stored as
/// null.
pub proof fn law_different_values_are_stored_differently(x: Cell, y: Cell, data_type: DataType)
    requires
        x is Null || readable(x, data_type),
        y is Null || readable(y, data_type),
        x != y,
    ensures
        row_cell(x, data_type) != row_cell(y, data_type),
        row_cell(x, data_type) is Null <==> x is Null,
{
    if x is Utf8 && y is Utf8 {
        encode_utf8_decode_utf8(x->Utf8_0);
        encode_utf8_decode_utf8(y->Utf8_0);
    }
    if x is Decimal128 && y is Decimal128 {
        law_decimal_bytes(x->Decimal128_0 as int);
        law_decimal_bytes(y->Decimal128_0 as int);
    }
}

/// Whether a decimal that is declared to have up to eighteen digits does not fit a slot.
pub open spec fn overflows_slot(cell: Cell, data_type: DataType) -> bool {
    data_type matches DataType::Decimal { precision, .. } && precision <= 18 && (
    cell matches Cell::Decimal128(v) && !(i64::MIN <= v <= i64::MAX))
}

/// Rows that differ in a partition column go to different partitions, whichever column it is and
/// however the values differ; nulls differ from all values. This leaves out decimals that are
/// larger than their declared precision allows and do not fit a slot, and partitions too long for
/// their offsets.
#[verifier::rlimit(50)]
pub proof fn law_different_values_different_partitions(
    router: Router,
    a: Seq<Seq<Cell>>,
    r: int,
    b: Seq<Seq<Cell>>,
    s: int,
    k: int,
)
    requires
        0 <= k < router.partition_field_indices@.len(),
        router.row_fault(a, r) is None,
        router.row_fault(b, s) is None,
        router.route(a, r).partition.len() < 0x8000_0000,
        ({
            let column = router.partition_field_indices@[k] as int;
            let data_type = router.fields@[column].data_type;
            &&& !overflows_slot(a[column][r], data_type)
            &&& !overflows_slot(b[column][s], data_type)
            &&& a[column][r] != b[column][s]
        }),
    ensures
        router.route(a, r).partition != router.route(b, s).partition,
{
    let column = router.partition_field_indices@[k] as int;
    let x = a[column][r];
    let y = b[column][s];
    if router.route(a, r).partition == router.route(b, s).partition {
        lemma_sound_column(router, a, r, router.partition_field_indices@, k);
        lemma_sound_column(router, b, s, router.partition_field_indices@, k);
        law_partition_tells_nulls(router, a, r, k);
        law_partition_tells_nulls(router, b, s, k);
        assert(!(x is Null) && !(y is Null));
        if x is Utf8 {
            law_partition_holds_texts(router, a, r, k);
            law_partition_holds_texts(router, b, s, k);
            let bytes = encode_utf8(x->Utf8_0);
            assert(bytes == encode_utf8(y->Utf8_0));
            encode_utf8_decode_utf8(x->Utf8_0);
            encode_utf8_decode_utf8(y->Utf8_0);
        } else if x is TimestampMicros {
            law_partition_holds_instants(router, a, r, k);
            law_partition_holds_instants(router, b, s, k);
        } else if x is Decimal128 && router.fields@[column].data_type->Decimal_precision > 18 {
            law_partition_holds_decimals(router, a, r, k);
            law_partition_holds_decimals(router, b, s, k);
        } else {
            law_partition_holds_numbers(router, a, r, k);
            law_partition_holds_numbers(router, b, s, k);
        }
        assert(false);
    }
}

} // verus!
