//! The binary row format: a header byte and a null bit per field, one eight-byte slot per
//! field, and a variable-length part that slots may point into.

use vstd::prelude::*;

verus! {

/// The most fields a row can have: with one more, the four-byte offsets of its slots could not
/// reach the variable-length part.
pub const MAX_ARITY: usize = 0x1f81_f81e;

/// The most bytes a slot holds inline.
pub const MAX_INLINE: usize = 7;

/// What one field of a row holds.
pub enum RowCell {
    /// No value: the field's null bit is set and its slot is zero.
    Null,
    /// An integer of `width` bytes, least significant first.
    Fixed { value: int, width: nat },
    /// A run of bytes: inline when short, else in the variable-length part.
    Bytes { bytes: Seq<u8> },
    /// An instant whose milliseconds stand in the variable-length part.
    Instant { millis: int, nanos: int },
    /// An unscaled decimal whose bytes stand in sixteen bytes of the variable-length part.
    Unscaled { bytes: Seq<u8> },
}

/// The `n` low bytes of the two's complement notation of `v`, least significant first.
pub open spec fn le_bytes(v: int, n: nat) -> Seq<u8>
    decreases n,
{
    if n == 0 {
        Seq::empty()
    } else {
        seq![(v % 256) as u8] + le_bytes(v / 256, (n - 1) as nat)
    }
}

/// `n` zero bytes.
pub open spec fn zeros(n: nat) -> Seq<u8> {
    Seq::new(n, |i: int| 0u8)
}

/// `data` with `bytes` written over it from position `at` on.
pub open spec fn overwrite(data: Seq<u8>, at: int, bytes: Seq<u8>) -> Seq<u8> {
    Seq::new(data.len(), |i: int| if at <= i < at + bytes.len() { bytes[i - at] } else { data[i] })
}

/// The bytes that hold the header and the null bits: whole words, eight header bits first.
pub open spec fn null_bits_size(arity: nat) -> nat {
    ((arity + 71) / 64) * 8
}

/// The bytes before the variable-length part.
pub open spec fn fixed_size(arity: nat) -> nat {
    null_bits_size(arity) + 8 * arity
}

/// Four bytes can count the bytes before the variable-length part of a row of the most fields, and
/// of no row with more.
pub proof fn law_offsets_reach_the_variable_part(arity: nat)
    ensures
        fixed_size(arity) <= u32::MAX <==> arity <= MAX_ARITY,
{
}

/// Where the slot of field `pos` begins.
pub open spec fn slot(arity: nat, pos: int) -> int {
    null_bits_size(arity) + 8 * pos
}

/// The byte that holds the null bit of field `pos`.
pub open spec fn null_byte(pos: int) -> int {
    (pos + 8) / 8
}

/// The null bit of field `pos` within its byte.
pub open spec fn null_mask(pos: int) -> u8 {
    1u8 << ((pos % 8) as u8)
}

/// Whether the null bit of field `pos` is set.
pub open spec fn null_at(data: Seq<u8>, pos: int) -> bool {
    data[null_byte(pos)] & null_mask(pos) != 0
}

/// A slot that holds up to seven bytes inline: the bytes, zeros, and the length with its
/// highest bit set.
pub open spec fn inline_slot(bytes: Seq<u8>) -> Seq<u8> {
    bytes + zeros((7 - bytes.len()) as nat) + seq![(128 + bytes.len()) as u8]
}

/// A slot that points into the variable-length part.
pub open spec fn pointer_slot(low: int, offset: int) -> Seq<u8> {
    le_bytes(low, 4) + le_bytes(offset, 4)
}

/// `n` rounded up to whole words.
pub open spec fn round_to_word(n: nat) -> nat {
    ((n + 7) / 8) * 8
}

/// `data` with the content of field `pos` written.
pub open spec fn write_cell(data: Seq<u8>, arity: nat, pos: int, cell: RowCell) -> Seq<u8> {
    let at = slot(arity, pos);
    match cell {
        RowCell::Null => overwrite(
            data.update(null_byte(pos), data[null_byte(pos)] | null_mask(pos)),
            at,
            zeros(8),
        ),
        RowCell::Fixed { value, width } => overwrite(data, at, le_bytes(value, width)),
        RowCell::Bytes { bytes } => if bytes.len() <= MAX_INLINE {
            overwrite(data, at, inline_slot(bytes))
        } else {
            overwrite(
                data + bytes + zeros((round_to_word(bytes.len()) - bytes.len()) as nat),
                at,
                pointer_slot(bytes.len() as int, data.len() as int),
            )
        },
        RowCell::Instant { millis, nanos } => overwrite(
            data + le_bytes(millis, 8),
            at,
            pointer_slot(nanos, data.len() as int),
        ),
        RowCell::Unscaled { bytes } => overwrite(
            data + bytes + zeros((16 - bytes.len()) as nat),
            at,
            pointer_slot(bytes.len() as int, data.len() as int),
        ),
    }
}

/// Whether the content fits where it is written.
pub open spec fn cell_ok(cell: RowCell) -> bool {
    match cell {
        RowCell::Fixed { value, width } => width <= 8,
        RowCell::Unscaled { bytes } => bytes.len() <= 16,
        _ => true,
    }
}

/// The bytes of a row of `arity` fields of which the first `cells.len()` are written, in order.
pub open spec fn partial_row(arity: nat, cells: Seq<RowCell>) -> Seq<u8>
    decreases cells.len(),
{
    if cells.len() == 0 {
        zeros(fixed_size(arity))
    } else {
        write_cell(partial_row(arity, cells.drop_last()), arity, cells.len() - 1, cells.last())
    }
}

/// The bytes of the row with the given fields.
pub open spec fn row_data(cells: Seq<RowCell>) -> Seq<u8> {
    partial_row(cells.len(), cells)
}

/// A serialized row: the number of fields, most significant byte first, then the row's bytes.
pub open spec fn serialized(arity: nat, data: Seq<u8>) -> Seq<u8> {
    le_bytes(arity as int, 4).reverse() + data
}

/// The serialized row with the given fields.
pub open spec fn serialized_row(cells: Seq<RowCell>) -> Seq<u8> {
    serialized(cells.len(), row_data(cells))
}

/// A row under construction. A new row holds zeros; each field is written once.
pub struct BinaryRowBuilder {
    pub arity: usize,
    pub data: Vec<u8>,
}

/// A finished row.
pub struct BinaryRow {
    pub arity: usize,
    pub data: Vec<u8>,
}

pub proof fn lemma_le_bytes_len(v: int, n: nat)
    ensures
        le_bytes(v, n).len() == n,
    decreases n,
{
    if n > 0 {
        lemma_le_bytes_len(v / 256, (n - 1) as nat);
    }
}

/// The `n` low bytes of `v`, least significant first.
pub fn le_bytes_of(v: i128, n: usize) -> (r: Vec<u8>)
    ensures
        r@ == le_bytes(v as int, n as nat),
{
    let negative: bool = v < 0;
    let mut rest: u128 = if negative { (-1 - v) as u128 } else { v as u128 };
    let mut r: Vec<u8> = Vec::new();
    let ghost mut signed: int = v as int;
    let mut i: usize = 0;
    assert(r@ + le_bytes(signed, n as nat) =~= le_bytes(v as int, n as nat));
    while i < n
        invariant
            i <= n,
            r@ + le_bytes(signed, (n - i) as nat) == le_bytes(v as int, n as nat),
            signed == if negative { -1 - rest } else { rest as int },
        decreases n - i,
    {
        let low: u8 = (rest % 256) as u8;
        let byte: u8 = if negative { 255 - low } else { low };
        let ghost before = r@;
        r.push(byte);
        rest = rest / 256;
        proof {
            assert(byte == (signed % 256) as u8);
            assert(r@ + le_bytes(signed / 256, (n - i - 1) as nat) =~= before + le_bytes(
                signed,
                (n - i) as nat,
            ));
            signed = signed / 256;
        }
        i += 1;
    }
    assert(r@ =~= le_bytes(v as int, n as nat));
    r
}

/// The bytes that the two's complement notation of `v` needs.
pub open spec fn int_len(v: int) -> nat
    decreases if v < 0 { -v } else { v },
{
    if -128 <= v < 128 {
        1
    } else {
        1 + int_len(v / 256)
    }
}

/// The shortest two's complement notation of `v`, most significant byte first.
pub open spec fn unscaled_bytes(v: int) -> Seq<u8> {
    le_bytes(v, int_len(v)).reverse()
}

spec fn power_256(n: nat) -> int
    decreases n,
{
    if n == 0 {
        1
    } else {
        256 * power_256((n - 1) as nat)
    }
}

/// The shortest notation of an unscaled decimal, most significant byte first.
pub fn unscaled_bytes_of(v: i128) -> (r: Vec<u8>)
    ensures
        r@ == unscaled_bytes(v as int),
        r@.len() <= 16,
{
    let negative: bool = v < 0;
    let mut rest: u128 = if negative { (-1 - v) as u128 } else { v as u128 };
    let mut low: Vec<u8> = Vec::new();
    let ghost mut signed: int = v as int;
    proof {
        assert(low@ + le_bytes(signed, int_len(signed)) =~= le_bytes(v as int, int_len(v as int)));
        assert(128 * power_256(15) == 0x8000_0000_0000_0000_0000_0000_0000_0000) by {
            reveal_with_fuel(power_256, 16);
        }
    }
    while rest >= 128
        invariant
            low@.len() <= 15,
            low@ + le_bytes(signed, int_len(signed)) == le_bytes(v as int, int_len(v as int)),
            low@.len() + int_len(signed) == int_len(v as int),
            signed == if negative { -1 - rest } else { rest as int },
            rest < 128 * power_256((15 - low@.len()) as nat),
        decreases rest,
    {
        let byte: u8 = (rest % 256) as u8;
        let byte: u8 = if negative { 255 - byte } else { byte };
        let ghost before = low@;
        proof {
            if before.len() == 15 {
                assert(power_256(0) == 1);
                assert(false);
            }
        }
        low.push(byte);
        rest = rest / 256;
        proof {
            assert(byte == (signed % 256) as u8);
            assert(int_len(signed) == 1 + int_len(signed / 256));
            assert(low@ + le_bytes(signed / 256, int_len(signed / 256)) =~= before + le_bytes(
                signed,
                int_len(signed),
            ));
            signed = signed / 256;
        }
    }
    let byte: u8 = if negative { 255 - rest as u8 } else { rest as u8 };
    let ghost before = low@;
    low.push(byte);
    proof {
        assert(byte == (signed % 256) as u8);
        assert(int_len(signed) == 1);
        reveal_with_fuel(le_bytes, 2);
        assert(low@ =~= before + le_bytes(signed, 1));
    }
    let mut r: Vec<u8> = Vec::new();
    let mut i: usize = low.len();
    while i > 0
        invariant
            i <= low@.len(),
            r@ =~= low@.skip(i as int).reverse(),
        decreases i,
    {
        i -= 1;
        let next: u8 = low[i];
        r.push(next);
    }
    assert(low@.skip(0) =~= low@);
    r
}

/// Writes `bytes` over `data` from position `at` on.
fn put(data: &mut Vec<u8>, at: usize, bytes: &Vec<u8>)
    requires
        at + bytes@.len() <= old(data)@.len(),
    ensures
        final(data)@ == overwrite(old(data)@, at as int, bytes@),
{
    let ghost before = data@;
    let size: usize = data.len();
    let mut i: usize = 0;
    while i < bytes.len()
        invariant
            i <= bytes@.len(),
            at + bytes@.len() <= size,
            size == before.len(),
            data@.len() == size,
            data@ == overwrite(before, at as int, bytes@.take(i as int)),
        decreases bytes@.len() - i,
    {
        let byte: u8 = bytes[i];
        data.set(at + i, byte);
        i += 1;
        assert(data@ =~= overwrite(before, at as int, bytes@.take(i as int)));
    }
    assert(bytes@.take(i as int) =~= bytes@);
}

/// Appends `n` zero bytes.
fn push_zeros(data: &mut Vec<u8>, n: usize)
    ensures
        final(data)@ == old(data)@ + zeros(n as nat),
{
    let ghost before = data@;
    let mut i: usize = 0;
    while i < n
        invariant
            i <= n,
            data@ =~= before + zeros(i as nat),
        decreases n - i,
    {
        data.push(0);
        i += 1;
    }
}

/// Appends `bytes`.
fn push_bytes(data: &mut Vec<u8>, bytes: &Vec<u8>)
    ensures
        final(data)@ == old(data)@ + bytes@,
{
    let ghost before = data@;
    let mut i: usize = 0;
    while i < bytes.len()
        invariant
            i <= bytes@.len(),
            data@ =~= before + bytes@.take(i as int),
        decreases bytes@.len() - i,
    {
        let byte: u8 = bytes[i];
        data.push(byte);
        i += 1;
    }
    assert(bytes@.take(i as int) =~= bytes@);
}

/// The slot that points into the variable-length part.
fn pointer(low: usize, offset: usize) -> (r: Vec<u8>)
    ensures
        r@ == pointer_slot(low as int, offset as int),
        r@.len() == 8,
{
    let mut r: Vec<u8> = le_bytes_of(low as i128, 4);
    let high: Vec<u8> = le_bytes_of(offset as i128, 4);
    push_bytes(&mut r, &high);
    proof {
        lemma_le_bytes_len(low as int, 4);
        lemma_le_bytes_len(offset as int, 4);
    }
    r
}

impl BinaryRowBuilder {
    /// The fixed part is there, and the bytes make whole words.
    pub open spec fn wf(&self) -> bool {
        &&& self.arity <= MAX_ARITY
        &&& self.data@.len() >= fixed_size(self.arity as nat)
        &&& self.data@.len() % 8 == 0
    }

    /// A row of `arity` fields, all zero.
    pub fn new(arity: usize) -> (r: Self)
        requires
            arity <= MAX_ARITY,
        ensures
            r.wf(),
            r.arity == arity,
            r.data@ == partial_row(arity as nat, Seq::empty()),
    {
        let mut data: Vec<u8> = Vec::new();
        push_zeros(&mut data, ((arity + 71) / 64) * 8 + 8 * arity);
        assert(data@ =~= zeros(fixed_size(arity as nat)));
        BinaryRowBuilder { arity, data }
    }

    fn slot_of(&self, pos: usize) -> (at: usize)
        requires
            self.wf(),
            pos < self.arity,
        ensures
            at == slot(self.arity as nat, pos as int),
            at + 8 <= fixed_size(self.arity as nat),
    {
        ((self.arity + 71) / 64) * 8 + 8 * pos
    }

    /// Marks field `pos` as null.
    pub fn set_null_at(&mut self, pos: usize)
        requires
            old(self).wf(),
            pos < old(self).arity,
        ensures
            final(self).wf(),
            final(self).arity == old(self).arity,
            final(self).data@ == write_cell(
                old(self).data@,
                old(self).arity as nat,
                pos as int,
                RowCell::Null,
            ),
    {
        let at: usize = self.slot_of(pos);
        let byte: usize = (pos + 8) / 8;
        let mask: u8 = 1u8 << ((pos % 8) as u8);
        let old_byte: u8 = self.data[byte];
        self.data.set(byte, old_byte | mask);
        let mut empty: Vec<u8> = Vec::new();
        push_zeros(&mut empty, 8);
        assert(empty@ =~= zeros(8));
        put(&mut self.data, at, &empty);
    }

    /// Writes the `width` low bytes of `value` into field `pos`.
    pub(crate) fn write_fixed(&mut self, pos: usize, value: i128, width: usize)
        requires
            old(self).wf(),
            pos < old(self).arity,
            width <= 8,
        ensures
            final(self).wf(),
            final(self).arity == old(self).arity,
            final(self).data@ == write_cell(
                old(self).data@,
                old(self).arity as nat,
                pos as int,
                RowCell::Fixed { value: value as int, width: width as nat },
            ),
    {
        let at: usize = self.slot_of(pos);
        let bytes: Vec<u8> = le_bytes_of(value, width);
        proof {
            lemma_le_bytes_len(value as int, width as nat);
        }
        put(&mut self.data, at, &bytes);
    }

    /// Writes a truth value into field `pos`: one byte, 1 or 0.
    pub fn write_boolean(&mut self, pos: usize, value: bool)
        requires
            old(self).wf(),
            pos < old(self).arity,
        ensures
            final(self).wf(),
            final(self).arity == old(self).arity,
            final(self).data@ == write_cell(
                old(self).data@,
                old(self).arity as nat,
                pos as int,
                RowCell::Fixed { value: if value { 1 } else { 0 }, width: 1 },
            ),
    {
        self.write_fixed(pos, if value { 1 } else { 0 }, 1);
    }

    /// Writes a one-byte integer into field `pos`.
    pub fn write_byte(&mut self, pos: usize, value: i8)
        requires
            old(self).wf(),
            pos < old(self).arity,
        ensures
            final(self).wf(),
            final(self).arity == old(self).arity,
            final(self).data@ == write_cell(
                old(self).data@,
                old(self).arity as nat,
                pos as int,
                RowCell::Fixed { value: value as int, width: 1 },
            ),
    {
        self.write_fixed(pos, value as i128, 1);
    }

    /// Writes a two-byte integer into field `pos`.
    pub fn write_short(&mut self, pos: usize, value: i16)
        requires
            old(self).wf(),
            pos < old(self).arity,
        ensures
            final(self).wf(),
            final(self).arity == old(self).arity,
            final(self).data@ == write_cell(
                old(self).data@,
                old(self).arity as nat,
                pos as int,
                RowCell::Fixed { value: value as int, width: 2 },
            ),
    {
        self.write_fixed(pos, value as i128, 2);
    }

    /// Writes a four-byte integer into field `pos`.
    pub fn write_int(&mut self, pos: usize, value: i32)
        requires
            old(self).wf(),
            pos < old(self).arity,
        ensures
            final(self).wf(),
            final(self).arity == old(self).arity,
            final(self).data@ == write_cell(
                old(self).data@,
                old(self).arity as nat,
                pos as int,
                RowCell::Fixed { value: value as int, width: 4 },
            ),
    {
        self.write_fixed(pos, value as i128, 4);
    }

    /// Writes an eight-byte integer into field `pos`.
    pub fn write_long(&mut self, pos: usize, value: i64)
        requires
            old(self).wf(),
            pos < old(self).arity,
        ensures
            final(self).wf(),
            final(self).arity == old(self).arity,
            final(self).data@ == write_cell(
                old(self).data@,
                old(self).arity as nat,
                pos as int,
                RowCell::Fixed { value: value as int, width: 8 },
            ),
    {
        self.write_fixed(pos, value as i128, 8);
    }

    /// Writes up to seven bytes of text into the slot of field `pos`.
    pub fn write_string_inline(&mut self, pos: usize, value: &Vec<u8>)
        requires
            old(self).wf(),
            pos < old(self).arity,
            value@.len() <= MAX_INLINE,
        ensures
            final(self).wf(),
            final(self).arity == old(self).arity,
            final(self).data@ == write_cell(
                old(self).data@,
                old(self).arity as nat,
                pos as int,
                RowCell::Bytes { bytes: value@ },
            ),
    {
        let at: usize = self.slot_of(pos);
        let mut bytes: Vec<u8> = Vec::new();
        push_bytes(&mut bytes, value);
        push_zeros(&mut bytes, 7 - value.len());
        bytes.push(128 + value.len() as u8);
        assert(bytes@ =~= inline_slot(value@));
        put(&mut self.data, at, &bytes);
    }

    /// Appends `bytes` and `padding` zeros to the variable-length part and points field `pos`
    /// there.
    fn write_variable(&mut self, pos: usize, bytes: &Vec<u8>, padding: usize, low: usize)
        requires
            old(self).wf(),
            pos < old(self).arity,
            (bytes@.len() + padding) % 8 == 0,
        ensures
            final(self).wf(),
            final(self).arity == old(self).arity,
            final(self).data@ == overwrite(
                old(self).data@ + bytes@ + zeros(padding as nat),
                slot(old(self).arity as nat, pos as int),
                pointer_slot(low as int, old(self).data@.len() as int),
            ),
    {
        let at: usize = self.slot_of(pos);
        let offset: usize = self.data.len();
        push_bytes(&mut self.data, bytes);
        push_zeros(&mut self.data, padding);
        let slot_bytes: Vec<u8> = pointer(low, offset);
        put(&mut self.data, at, &slot_bytes);
    }

    /// Writes text of more than seven bytes into the variable-length part, padded with zeros
    /// to whole words.
    pub fn write_string(&mut self, pos: usize, value: &Vec<u8>)
        requires
            old(self).wf(),
            pos < old(self).arity,
            value@.len() > MAX_INLINE,
        ensures
            final(self).wf(),
            final(self).arity == old(self).arity,
            final(self).data@ == write_cell(
                old(self).data@,
                old(self).arity as nat,
                pos as int,
                RowCell::Bytes { bytes: value@ },
            ),
    {
        let over: usize = value.len() % 8;
        let padding: usize = if over == 0 { 0 } else { 8 - over };
        self.write_variable(pos, value, padding, value.len());
    }

    /// Writes bytes into field `pos`: inline when they fit, else in the variable-length part.
    pub fn write_bytes(&mut self, pos: usize, value: &Vec<u8>)
        requires
            old(self).wf(),
            pos < old(self).arity,
        ensures
            final(self).wf(),
            final(self).arity == old(self).arity,
            final(self).data@ == write_cell(
                old(self).data@,
                old(self).arity as nat,
                pos as int,
                RowCell::Bytes { bytes: value@ },
            ),
    {
        if value.len() <= MAX_INLINE {
            self.write_string_inline(pos, value);
        } else {
            self.write_string(pos, value);
        }
    }

    /// Writes an instant: its milliseconds in the variable-length part, the nanoseconds within
    /// the millisecond in the slot.
    pub fn write_instant(&mut self, pos: usize, millis: i64, nanos: u32)
        requires
            old(self).wf(),
            pos < old(self).arity,
        ensures
            final(self).wf(),
            final(self).arity == old(self).arity,
            final(self).data@ == write_cell(
                old(self).data@,
                old(self).arity as nat,
                pos as int,
                RowCell::Instant { millis: millis as int, nanos: nanos as int },
            ),
    {
        let bytes: Vec<u8> = le_bytes_of(millis as i128, 8);
        proof {
            lemma_le_bytes_len(millis as int, 8);
            assert(self.data@ + bytes@ + zeros(0) =~= self.data@ + bytes@);
        }
        self.write_variable(pos, &bytes, 0, nanos as usize);
    }

    /// Writes an unscaled decimal of at most sixteen bytes into sixteen bytes of the
    /// variable-length part.
    pub fn write_unscaled(&mut self, pos: usize, value: &Vec<u8>)
        requires
            old(self).wf(),
            pos < old(self).arity,
            value@.len() <= 16,
        ensures
            final(self).wf(),
            final(self).arity == old(self).arity,
            final(self).data@ == write_cell(
                old(self).data@,
                old(self).arity as nat,
                pos as int,
                RowCell::Unscaled { bytes: value@ },
            ),
    {
        self.write_variable(pos, value, 16 - value.len(), value.len());
    }

    /// The finished row.
    pub fn build(self) -> (r: BinaryRow)
        ensures
            r.arity == self.arity,
            r.data@ == self.data@,
    {
        BinaryRow { arity: self.arity, data: self.data }
    }

    /// The finished row with its number of fields before it.
    pub fn build_serialized(self) -> (r: Vec<u8>)
        ensures
            r@ == serialized(self.arity as nat, self.data@),
    {
        let low: Vec<u8> = le_bytes_of(self.arity as i128, 4);
        proof {
            lemma_le_bytes_len(self.arity as int, 4);
        }
        let mut r: Vec<u8> = Vec::new();
        r.push(low[3]);
        r.push(low[2]);
        r.push(low[1]);
        r.push(low[0]);
        assert(r@ =~= le_bytes(self.arity as int, 4).reverse());
        push_bytes(&mut r, &self.data);
        r
    }
}

/// The serialized row without fields.
pub fn empty_serialized_row() -> (r: Vec<u8>)
    ensures
        r@ == serialized_row(Seq::empty()),
{
    BinaryRowBuilder::new(0).build_serialized()
}

} // verus!
