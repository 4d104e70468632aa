//! What a reader finds in a row for a value that was written to it.

use crate::arrow::Cell;
use crate::binary_row::{cell_ok, serialized_row, RowCell};
use crate::datum::{datum_cell, is_value, optional_cell, DataType, Datum};
use crate::partition_laws::{law_decimal_bytes, lemma_row_cell_ok, number_of};
use crate::read_laws::{
    law_row_gives_bytes_back, law_row_gives_decimals_back, law_row_gives_instants_back,
    law_row_gives_numbers_back, law_row_tells_nulls,
};
use vstd::arithmetic::power::pow;
use vstd::prelude::*;
use vstd::utf8::*;

verus! {

/// A value that is read from a key column is of the declared type, and it is what the column
/// holds: numbers and truth as they are, text character by character, decimals with the declared
/// digits, and instants to the microsecond.
pub proof fn law_value_is_what_the_column_holds(datum: Datum, cell: Cell, data_type: DataType)
    requires
        is_value(datum, cell, data_type),
    ensures
        datum matches Datum::Bool(d) ==> data_type is Boolean && cell == Cell::Boolean(d),
        datum matches Datum::TinyInt(d) ==> data_type is TinyInt && cell == Cell::Int8(d),
        datum matches Datum::SmallInt(d) ==> data_type is SmallInt && cell == Cell::Int16(d),
        datum matches Datum::Int(d) ==> data_type is Int && cell == Cell::Int32(d),
        datum matches Datum::Long(d) ==> data_type is BigInt && cell == Cell::Int64(d),
        datum matches Datum::Date(d) ==> data_type is Date && cell == Cell::Date32(d),
        datum matches Datum::String(d) ==> (data_type is Char || data_type is VarChar) && cell
            == Cell::Utf8(d@),
        datum matches Datum::Decimal { unscaled, precision, scale } ==> data_type == (
        DataType::Decimal { precision, scale }) && cell == Cell::Decimal128(unscaled),
        datum matches Datum::Timestamp { millis, nanos } ==> data_type is Timestamp && (
        cell == Cell::TimestampMillis(millis) && nanos == 0 || (
        cell matches Cell::TimestampMicros(v) && v == 1000 * millis + nanos / 1000 && nanos % 1000
            == 0)),
        datum matches Datum::LocalZonedTimestamp { millis, nanos } ==> data_type is
            LocalZonedTimestamp && (cell == Cell::TimestampMillis(millis) && nanos == 0 || (
        cell matches Cell::TimestampMicros(v) && v == 1000 * millis + nanos / 1000 && nanos % 1000
            == 0)),
{
}

/// A value that is written to a row is not null there, and a number, a date, a truth value or an
/// instant of up to three digits is read back from its slot.
#[verifier::rlimit(50)]
pub proof fn law_written_numbers_are_read_back(
    cells: Seq<RowCell>,
    k: int,
    datum: Datum,
    data_type: DataType,
)
    requires
        0 <= k < cells.len(),
        forall|i: int| 0 <= i < cells.len() ==> cell_ok(#[trigger] cells[i]),
        cells[k] == datum_cell(datum, data_type),
    ensures
        ({
            let row = serialized_row(cells);
            let at = 4 + (cells.len() + 71) / 64 * 8 + 8 * k;
            let low = row[at] + 0x100 * row[at + 1] + 0x1_0000 * row[at + 2] + 0x100_0000 * row[at
                + 3];
            let high = row[at + 4] + 0x100 * row[at + 5] + 0x1_0000 * row[at + 6] + 0x100_0000
                * row[at + 7];
            let whole = low + 0x1_0000_0000 * high;
            &&& row[4 + (k + 8) / 8] & (1u8 << ((k % 8) as u8)) == 0
            &&& match datum {
                Datum::Bool(v) => whole == if v {
                    1int
                } else {
                    0
                },
                Datum::TinyInt(v) => whole == v || v < 0 && whole == v + 0x100,
                Datum::SmallInt(v) => whole == v || v < 0 && whole == v + 0x1_0000,
                Datum::Int(v) => whole == v || v < 0 && whole == v + 0x1_0000_0000,
                Datum::Date(v) => whole == v || v < 0 && whole == v + 0x1_0000_0000,
                Datum::Long(v) => whole == v || v < 0 && whole == v + 0x1_0000_0000_0000_0000,
                Datum::Timestamp { millis, .. } => (data_type matches DataType::Timestamp {
                    precision,
                } && precision <= 3) ==> whole == millis || millis < 0 && whole == millis
                    + 0x1_0000_0000_0000_0000,
                Datum::LocalZonedTimestamp { millis, .. } => (
                data_type matches DataType::LocalZonedTimestamp { precision } && precision <= 3)
                    ==> whole == millis || millis < 0 && whole == millis
                    + 0x1_0000_0000_0000_0000,
                Datum::Decimal { unscaled, precision, .. } => precision <= 18 ==> {
                    &&& (unscaled - whole) % 0x1_0000_0000_0000_0000 == 0
                    &&& i64::MIN <= unscaled <= i64::MAX ==> whole == unscaled || unscaled < 0
                        && whole == unscaled + 0x1_0000_0000_0000_0000
                },
                Datum::String(_) => true,
            }
        }),
{
    law_row_tells_nulls(cells, k);
    law_row_gives_numbers_back(cells, k);
}

/// All of a text that is written to a row is read back: up to seven bytes from its slot, more from
/// where the slot says.
#[verifier::rlimit(50)]
pub proof fn law_written_text_is_read_back(
    cells: Seq<RowCell>,
    k: int,
    text: String,
    data_type: DataType,
)
    requires
        0 <= k < cells.len(),
        forall|i: int| 0 <= i < cells.len() ==> cell_ok(#[trigger] cells[i]),
        cells[k] == datum_cell(Datum::String(text), data_type),
        serialized_row(cells).len() < 0x8000_0000,
    ensures
        ({
            let row = serialized_row(cells);
            let at = 4 + (cells.len() + 71) / 64 * 8 + 8 * k;
            let low = row[at] + 0x100 * row[at + 1] + 0x1_0000 * row[at + 2] + 0x100_0000 * row[at
                + 3];
            let high = row[at + 4] + 0x100 * row[at + 5] + 0x1_0000 * row[at + 6] + 0x100_0000
                * row[at + 7];
            if row[at + 7] >= 0x80 {
                decode_utf8(row.subrange(at, at + (row[at + 7] - 0x80))) == text@
            } else {
                decode_utf8(row.subrange(4 + high, 4 + high + low)) == text@
            }
        }),
{
    law_row_gives_bytes_back(cells, k);
    encode_utf8_decode_utf8(text@);
}

/// An instant that is not declared to have up to three digits is read back from a row that it was
/// written to: its nanoseconds from the slot, its milliseconds from where the slot says.
#[verifier::rlimit(50)]
pub proof fn law_written_instants_are_read_back(
    cells: Seq<RowCell>,
    k: int,
    millis: i64,
    nanos: u32,
    data_type: DataType,
    zoned: bool,
)
    requires
        0 <= k < cells.len(),
        forall|i: int| 0 <= i < cells.len() ==> cell_ok(#[trigger] cells[i]),
        cells[k] == if zoned {
            datum_cell(Datum::LocalZonedTimestamp { millis, nanos }, data_type)
        } else {
            datum_cell(Datum::Timestamp { millis, nanos }, data_type)
        },
        zoned ==> (data_type matches DataType::LocalZonedTimestamp { precision } ==> precision > 3),
        !zoned ==> (data_type matches DataType::Timestamp { precision } ==> precision > 3),
        serialized_row(cells).len() < 0x8000_0000,
    ensures
        ({
            let row = serialized_row(cells);
            let at = 4 + (cells.len() + 71) / 64 * 8 + 8 * k;
            let low = row[at] + 0x100 * row[at + 1] + 0x1_0000 * row[at + 2] + 0x100_0000 * row[at
                + 3];
            let from = 4 + row[at + 4] + 0x100 * row[at + 5] + 0x1_0000 * row[at + 6] + 0x100_0000
                * row[at + 7];
            let apart = row[from] + 0x100 * row[from + 1] + 0x1_0000 * row[from + 2] + 0x100_0000
                * row[from + 3] + 0x1_0000_0000 * (row[from + 4] + 0x100 * row[from + 5] + 0x1_0000
                * row[from + 6] + 0x100_0000 * row[from + 7]);
            &&& low == nanos
            &&& apart == millis || millis < 0 && apart == millis + 0x1_0000_0000_0000_0000
        }),
{
    law_row_gives_instants_back(cells, k);
}

/// A decimal of more than eighteen digits that is written to a row is read back from where the
/// slot says, in two's complement, most significant byte first.
#[verifier::rlimit(50)]
pub proof fn law_written_decimals_are_read_back(
    cells: Seq<RowCell>,
    k: int,
    unscaled: i128,
    precision: u32,
    scale: u32,
    data_type: DataType,
)
    requires
        0 <= k < cells.len(),
        forall|i: int| 0 <= i < cells.len() ==> cell_ok(#[trigger] cells[i]),
        precision > 18,
        cells[k] == datum_cell(Datum::Decimal { unscaled, precision, scale }, data_type),
        serialized_row(cells).len() < 0x8000_0000,
    ensures
        ({
            let row = serialized_row(cells);
            let at = 4 + (cells.len() + 71) / 64 * 8 + 8 * k;
            let low = row[at] + 0x100 * row[at + 1] + 0x1_0000 * row[at + 2] + 0x100_0000 * row[at
                + 3];
            let from = 4 + row[at + 4] + 0x100 * row[at + 5] + 0x1_0000 * row[at + 6] + 0x100_0000
                * row[at + 7];
            let apart = row.subrange(from, from + low);
            &&& from + 16 <= row.len()
            &&& 1 <= low <= 16
            &&& unscaled >= 0 ==> apart[0] < 0x80 && number_of(apart) == unscaled
            &&& unscaled < 0 ==> apart[0] >= 0x80 && number_of(apart) == unscaled + pow(
                256,
                low as nat,
            )
        }),
{
    law_row_gives_decimals_back(cells, k);
    law_decimal_bytes(unscaled as int);
    lemma_row_cell_ok(Cell::Decimal128(unscaled), DataType::Decimal { precision, scale });
}

/// Where there is no value, the field is null and its slot zero; a value that is there is written
/// as it is.
pub proof fn law_nothing_is_null(
    cells: Seq<RowCell>,
    k: int,
    datum: Option<Datum>,
    data_type: DataType,
)
    requires
        0 <= k < cells.len(),
        forall|i: int| 0 <= i < cells.len() ==> cell_ok(#[trigger] cells[i]),
        cells[k] == optional_cell(datum, data_type),
    ensures
        ({
            let row = serialized_row(cells);
            let at = 4 + (cells.len() + 71) / 64 * 8 + 8 * k;
            &&& row[4 + (k + 8) / 8] & (1u8 << ((k % 8) as u8)) != 0 <==> datum is None
            &&& datum is None ==> row[at] + 0x100 * row[at + 1] + 0x1_0000 * row[at + 2]
                + 0x100_0000 * row[at + 3] == 0
            &&& datum is None ==> row[at + 4] + 0x100 * row[at + 5] + 0x1_0000 * row[at + 6]
                + 0x100_0000 * row[at + 7] == 0
            &&& datum matches Some(value) ==> cells[k] == datum_cell(value, data_type)
        }),
{
    law_row_tells_nulls(cells, k);
    law_row_gives_numbers_back(cells, k);
}

} // verus!
