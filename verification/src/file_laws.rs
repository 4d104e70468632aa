//! What a primary-key file holds: every column of the sorted rows, their sequence numbers, and
//! the keys of its first and its last row.

use crate::arrow::{
    batch_columns, batch_rows, batch_schema, int64_field_of, schema_fields, Cell, RecordBatch,
};
use crate::binary_row::cell_ok;
use crate::key_value_file::{is_physical, key_cells, key_row, value_positions};
use crate::read_laws::{
    law_row_begins_with_its_arity, law_row_gives_bytes_back, law_row_gives_numbers_back,
    law_row_tells_nulls,
};
use vstd::prelude::*;
use vstd::utf8::*;

verus! {

proof fn lemma_value_positions(count: nat, keys: Seq<usize>)
    requires
        count <= usize::MAX,
    ensures
        ({
            let values = value_positions(count, keys);
            &&& forall|a: int, b: int|
                0 <= a < b < values.len() ==> #[trigger] values[a] < #[trigger] values[b]
            &&& forall|a: int|
                0 <= a < values.len() ==> {
                    &&& (#[trigger] values[a]) < count
                    &&& !keys.contains(values[a])
                }
            &&& forall|p: usize| p < count && !keys.contains(p) ==> #[trigger] values.contains(p)
        }),
    decreases count,
{
    if count > 0 {
        let rest = value_positions((count - 1) as nat, keys);
        let values = value_positions(count, keys);
        let last = (count - 1) as usize;
        lemma_value_positions((count - 1) as nat, keys);
        assert forall|p: usize| p < count && !keys.contains(p) implies #[trigger] values.contains(
            p,
        ) by {
            if p < count - 1 {
                assert(rest.contains(p));
                let a = choose|a: int| 0 <= a < rest.len() && rest[a] == p;
                assert(values[a] == p);
            } else {
                assert(values[values.len() - 1] == p);
            }
        }
        assert forall|a: int| 0 <= a < values.len() implies {
            &&& (#[trigger] values[a]) < count
            &&& !keys.contains(values[a])
        } by {
            if a < rest.len() {
                assert(values[a] == rest[a]);
            }
        }
        assert forall|a: int, b: int| 0 <= a < b < values.len() implies #[trigger] values[a]
            < #[trigger] values[b] by {
            assert(values[a] == rest[a]);
            if b < rest.len() {
                assert(values[b] == rest[b]);
            }
        }
    }
}

/// The file has all columns of the sorted rows and one more: first the key columns, in key order,
/// then the sequence numbers, then every column that is not a key column, in the order of the
/// table. Each has the field that it has in the table. `values` lists the columns of the last
/// kind.
#[verifier::rlimit(50)]
pub proof fn law_file_has_every_column(
    sorted: RecordBatch,
    keys: Seq<usize>,
    start: int,
    physical: RecordBatch,
) -> (values: Seq<int>)
    requires
        is_physical(sorted, keys, start, physical),
        batch_columns(sorted).len() <= usize::MAX,
        schema_fields(batch_schema(sorted)).len() == batch_columns(sorted).len(),
    ensures
        forall|a: int, b: int|
            0 <= a < b < values.len() ==> #[trigger] values[a] < #[trigger] values[b],
        forall|j: int|
            #![trigger values.contains(j)]
            values.contains(j) <==> {
                &&& 0 <= j < batch_columns(sorted).len()
                &&& forall|k: int| 0 <= k < keys.len() ==> (#[trigger] keys[k]) != j
            },
        batch_columns(physical).len() == keys.len() + 1 + values.len(),
        schema_fields(batch_schema(physical)).len() == keys.len() + 1 + values.len(),
        forall|k: int|
            #![trigger keys[k]]
            0 <= k < keys.len() ==> {
                &&& batch_columns(physical)[k] == batch_columns(sorted)[keys[k] as int]
                &&& schema_fields(batch_schema(physical))[k] == schema_fields(
                    batch_schema(sorted),
                )[keys[k] as int]
            },
        forall|m: int|
            #![trigger values[m]]
            0 <= m < values.len() ==> {
                &&& batch_columns(physical)[keys.len() + 1 + m] == batch_columns(sorted)[values[m]]
                &&& schema_fields(batch_schema(physical))[keys.len() + 1 + m] == schema_fields(
                    batch_schema(sorted),
                )[values[m]]
            },
        schema_fields(batch_schema(physical))[keys.len() as int] == int64_field_of(
            "_SEQUENCE_NUMBER"@,
            false,
        ),
        batch_rows(physical) == batch_rows(sorted),
        batch_columns(physical)[keys.len() as int].len() == batch_rows(sorted),
        forall|i: int|
            0 <= i < batch_rows(sorted) ==> #[trigger] batch_columns(physical)[keys.len() as int][i]
                == Cell::Int64((start + i) as i64),
{
    let count = batch_columns(sorted).len();
    let positions = value_positions(count, keys);
    let values = Seq::new(positions.len(), |m: int| positions[m] as int);
    lemma_value_positions(count, keys);
    assert forall|j: int| #![trigger values.contains(j)] values.contains(j) <==> {
        &&& 0 <= j < count
        &&& forall|k: int| 0 <= k < keys.len() ==> (#[trigger] keys[k]) != j
    } by {
        if values.contains(j) {
            let m = choose|m: int| 0 <= m < values.len() && values[m] == j;
            assert(positions[m] == j);
            assert(!keys.contains(positions[m]));
        }
        if 0 <= j < count && (forall|k: int| 0 <= k < keys.len() ==> (#[trigger] keys[k]) != j) {
            let p = j as usize;
            assert(!keys.contains(p));
            assert(positions.contains(p));
            let m = choose|m: int| 0 <= m < positions.len() && positions[m] == p;
            assert(values[m] == j);
        }
    }
    values
}

proof fn lemma_key_cells_ok(columns: Seq<Seq<Cell>>, keys: Seq<usize>, row: int)
    ensures
        ({
            let cells = key_cells(columns, keys, row);
            forall|i: int| 0 <= i < cells.len() ==> cell_ok(#[trigger] cells[i])
        }),
{
}

/// A key tells how many values it has, and which of them it does not give: the null bit of field
/// `k` is set exactly where the key column holds none of the numbers and texts that a key can
/// hold.
pub proof fn law_key_tells_nulls(columns: Seq<Seq<Cell>>, keys: Seq<usize>, row: int, k: int)
    requires
        keys.len() <= u32::MAX,
        0 <= k < keys.len(),
    ensures
        ({
            let bytes = key_row(columns, keys, row);
            let cell = columns[keys[k] as int][row];
            &&& 0x100_0000 * bytes[0] + 0x1_0000 * bytes[1] + 0x100 * bytes[2] + bytes[3]
                == keys.len()
            &&& bytes[4 + (k + 8) / 8] & (1u8 << ((k % 8) as u8)) != 0 <==> !(cell is Int8
                || cell is Int16 || cell is Int32 || cell is Int64 || cell is Utf8
                || cell is LargeUtf8)
        }),
{
    lemma_key_cells_ok(columns, keys, row);
    law_row_begins_with_its_arity(key_cells(columns, keys, row));
    law_row_tells_nulls(key_cells(columns, keys, row), k);
}

/// A key gives each number back, in the bytes of its type, least significant first.
#[verifier::rlimit(50)]
pub proof fn law_key_holds_numbers(columns: Seq<Seq<Cell>>, keys: Seq<usize>, row: int, k: int)
    requires
        0 <= k < keys.len(),
    ensures
        ({
            let bytes = key_row(columns, keys, row);
            let at = 4 + (keys.len() + 71) / 64 * 8 + 8 * k;
            let low = bytes[at] + 0x100 * bytes[at + 1] + 0x1_0000 * bytes[at + 2] + 0x100_0000
                * bytes[at + 3];
            let high = bytes[at + 4] + 0x100 * bytes[at + 5] + 0x1_0000 * bytes[at + 6]
                + 0x100_0000 * bytes[at + 7];
            match columns[keys[k] as int][row] {
                Cell::Int8(v) => low == (if v < 0 {
                    v + 0x100
                } else {
                    v as int
                }) && high == 0,
                Cell::Int16(v) => low == (if v < 0 {
                    v + 0x1_0000
                } else {
                    v as int
                }) && high == 0,
                Cell::Int32(v) => low == (if v < 0 {
                    v + 0x1_0000_0000
                } else {
                    v as int
                }) && high == 0,
                Cell::Int64(v) => low + 0x1_0000_0000 * high == if v < 0 {
                    v + 0x1_0000_0000_0000_0000
                } else {
                    v as int
                },
                _ => true,
            }
        }),
{
    lemma_key_cells_ok(columns, keys, row);
    law_row_gives_numbers_back(key_cells(columns, keys, row), k);
}

/// The text of a value of either type of texts.
pub open spec fn text_of(cell: Cell) -> Seq<char> {
    match cell {
        Cell::Utf8(text) => text,
        Cell::LargeUtf8(text) => text,
        _ => Seq::empty(),
    }
}

/// A key gives all of each text back, as its UTF-8 bytes: up to seven in the slot, more of them
/// apart.
#[verifier::rlimit(50)]
pub proof fn law_key_holds_texts(columns: Seq<Seq<Cell>>, keys: Seq<usize>, row: int, k: int)
    requires
        0 <= k < keys.len(),
        columns[keys[k] as int][row] is Utf8 || columns[keys[k] as int][row] is LargeUtf8,
        key_row(columns, keys, row).len() < 0x8000_0000,
    ensures
        ({
            let bytes = key_row(columns, keys, row);
            let at = 4 + (keys.len() + 71) / 64 * 8 + 8 * k;
            let low = bytes[at] + 0x100 * bytes[at + 1] + 0x1_0000 * bytes[at + 2] + 0x100_0000
                * bytes[at + 3];
            let high = bytes[at + 4] + 0x100 * bytes[at + 5] + 0x1_0000 * bytes[at + 6]
                + 0x100_0000 * bytes[at + 7];
            let text = encode_utf8(text_of(columns[keys[k] as int][row]));
            &&& at + 8 <= bytes.len()
            &&& if text.len() <= 7 {
                bytes[at + 7] == 0x80 + text.len() && bytes.subrange(at, at + text.len()) == text
            } else {
                &&& bytes[at + 7] < 0x80
                &&& low == text.len()
                &&& 4 + high + text.len() <= bytes.len()
                &&& bytes.subrange(4 + high, 4 + high + text.len()) == text
            }
        }),
{
    lemma_key_cells_ok(columns, keys, row);
    law_row_gives_bytes_back(key_cells(columns, keys, row), k);
}

/// Whether two values are numbers or texts of one type, or one of them is null.
pub open spec fn same_key_type(x: Cell, y: Cell) -> bool {
    ||| x is Null && (y is Int8 || y is Int16 || y is Int32 || y is Int64 || y is Utf8
        || y is LargeUtf8)
    ||| y is Null && (x is Int8 || x is Int16 || x is Int32 || x is Int64 || x is Utf8
        || x is LargeUtf8)
    ||| x is Int8 && y is Int8
    ||| x is Int16 && y is Int16
    ||| x is Int32 && y is Int32
    ||| x is Int64 && y is Int64
    ||| x is Utf8 && y is Utf8
    ||| x is LargeUtf8 && y is LargeUtf8
}

/// Rows that differ in a key column of numbers or texts have different keys.
#[verifier::rlimit(50)]
pub proof fn law_different_values_different_keys(
    a: Seq<Seq<Cell>>,
    r: int,
    b: Seq<Seq<Cell>>,
    s: int,
    keys: Seq<usize>,
    k: int,
)
    requires
        keys.len() <= u32::MAX,
        0 <= k < keys.len(),
        same_key_type(a[keys[k] as int][r], b[keys[k] as int][s]),
        a[keys[k] as int][r] != b[keys[k] as int][s],
        key_row(a, keys, r).len() < 0x8000_0000,
    ensures
        key_row(a, keys, r) != key_row(b, keys, s),
{
    let x = a[keys[k] as int][r];
    let y = b[keys[k] as int][s];
    if key_row(a, keys, r) == key_row(b, keys, s) {
        law_key_tells_nulls(a, keys, r, k);
        law_key_tells_nulls(b, keys, s, k);
        if x is Utf8 || x is LargeUtf8 {
            law_key_holds_texts(a, keys, r, k);
            law_key_holds_texts(b, keys, s, k);
            assert(encode_utf8(text_of(x)) == encode_utf8(text_of(y)));
            encode_utf8_decode_utf8(text_of(x));
            encode_utf8_decode_utf8(text_of(y));
        } else {
            law_key_holds_numbers(a, keys, r, k);
            law_key_holds_numbers(b, keys, s, k);
        }
        assert(false);
    }
}

} // verus!
