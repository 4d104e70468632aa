//! What every row's bytes tell of its fields.

use crate::binary_row::{
    cell_ok, fixed_size, lemma_le_bytes_len, null_at, null_bits_size, null_byte, partial_row,
    row_data, serialized, serialized_row, slot, write_cell, RowCell,
};
use vstd::prelude::*;

verus! {

proof fn lemma_masks(x: u8, a: u8, b: u8)
    requires
        a < 8,
        b < 8,
    ensures
        (x | (1u8 << a)) & (1u8 << a) != 0,
        a != b ==> ((x | (1u8 << a)) & (1u8 << b) != 0 <==> x & (1u8 << b) != 0),
        0u8 & (1u8 << a) == 0,
{
    assert((x | (1u8 << a)) & (1u8 << a) != 0) by (bit_vector)
        requires
            a < 8,
    ;
    assert(a != b ==> ((x | (1u8 << a)) & (1u8 << b) != 0 <==> x & (1u8 << b) != 0))
        by (bit_vector)
        requires
            a < 8,
            b < 8,
    ;
    assert(0u8 & (1u8 << a) == 0) by (bit_vector)
        requires
            a < 8,
    ;
}

proof fn lemma_write_cell(data: Seq<u8>, arity: nat, pos: int, cell: RowCell, other: int)
    requires
        data.len() >= fixed_size(arity),
        0 <= pos < arity,
        0 <= other < arity,
        cell_ok(cell),
    ensures
        write_cell(data, arity, pos, cell).len() >= fixed_size(arity),
        null_at(write_cell(data, arity, pos, cell), other) <==> (other == pos && cell is Null)
            || null_at(data, other),
{
    let after = write_cell(data, arity, pos, cell);
    let byte = null_byte(other);
    assert(byte < null_bits_size(arity) <= slot(arity, pos));
    match cell {
        RowCell::Fixed { value, width } => {
            lemma_le_bytes_len(value, width);
        },
        RowCell::Null => {
            let a = (pos % 8) as u8;
            let b = (other % 8) as u8;
            lemma_masks(data[byte], a, b);
            if byte == null_byte(pos) && pos != other {
                assert(a != b);
            }
        },
        _ => {},
    }
}

proof fn lemma_partial_row(arity: nat, cells: Seq<RowCell>, pos: int)
    requires
        cells.len() <= arity,
        0 <= pos < arity,
        forall|i: int| 0 <= i < cells.len() ==> cell_ok(#[trigger] cells[i]),
    ensures
        partial_row(arity, cells).len() >= fixed_size(arity),
        null_at(partial_row(arity, cells), pos) <==> pos < cells.len() && cells[pos] is Null,
    decreases cells.len(),
{
    if cells.len() == 0 {
        lemma_masks(0, (pos % 8) as u8, 0);
        assert(null_byte(pos) < null_bits_size(arity));
    } else {
        let rest = cells.drop_last();
        lemma_partial_row(arity, rest, pos);
        lemma_write_cell(
            partial_row(arity, rest),
            arity,
            cells.len() - 1,
            cells.last(),
            pos,
        );
    }
}

/// The null bit of a field is set exactly where the field is null.
pub proof fn law_null_bit(cells: Seq<RowCell>, pos: int)
    requires
        0 <= pos < cells.len(),
        forall|i: int| 0 <= i < cells.len() ==> cell_ok(#[trigger] cells[i]),
    ensures
        null_at(row_data(cells), pos) <==> cells[pos] is Null,
{
    lemma_partial_row(cells.len(), cells, pos);
}

/// Two rows with the same number of fields, one null where the other is not, have different
/// bytes: a null key is never taken for a zero or an empty one.
pub proof fn law_null_differs(a: Seq<RowCell>, b: Seq<RowCell>, pos: int)
    requires
        a.len() == b.len(),
        0 <= pos < a.len(),
        forall|i: int| 0 <= i < a.len() ==> cell_ok(#[trigger] a[i]),
        forall|i: int| 0 <= i < b.len() ==> cell_ok(#[trigger] b[i]),
        a[pos] is Null,
        !(b[pos] is Null),
    ensures
        row_data(a) != row_data(b),
        serialized_row(a) != serialized_row(b),
{
    law_null_bit(a, pos);
    law_null_bit(b, pos);
    let head = serialized(a.len(), Seq::empty());
    assert(serialized_row(a).skip(head.len() as int) =~= row_data(a));
    assert(serialized_row(b).skip(head.len() as int) =~= row_data(b));
}

} // verus!
