//! Column types, the values read from key columns, and how a row stores them.

use crate::arrow::{batch_columns, Cell, Column, RecordBatch};
use crate::binary_row::{unscaled_bytes, unscaled_bytes_of, write_cell, BinaryRowBuilder, RowCell};
use crate::error::Error;
use vstd::prelude::*;
use vstd::string::*;
use vstd::utf8::*;

verus! {

/// The type of a column of the table.
#[derive(Clone, Copy, Debug, PartialEq, Eq, Structural)]
pub enum DataType {
    Boolean,
    TinyInt,
    SmallInt,
    Int,
    BigInt,
    Char,
    VarChar,
    Date,
    Decimal { precision: u32, scale: u32 },
    Timestamp { precision: u32 },
    LocalZonedTimestamp { precision: u32 },
    /// A type whose values are not read as keys.
    Other,
}

/// A value of a key column.
#[derive(Debug)]
pub enum Datum {
    Bool(bool),
    TinyInt(i8),
    SmallInt(i16),
    Int(i32),
    Long(i64),
    String(String),
    Date(i32),
    /// Milliseconds since the epoch, and nanoseconds within the millisecond.
    Timestamp { millis: i64, nanos: u32 },
    LocalZonedTimestamp { millis: i64, nanos: u32 },
    Decimal { unscaled: i128, precision: u32, scale: u32 },
}

/// The largest precision of an instant that fits a slot.
pub const COMPACT_TIMESTAMP_PRECISION: u32 = 3;

/// The largest precision of an instant that is read.
pub const MICROS_PRECISION: u32 = 6;

/// The largest precision of a decimal that fits a slot.
pub const COMPACT_DECIMAL_PRECISION: u32 = 18;

/// Whether a column of Arrow instants holds what an instant of the given precision needs.
pub open spec fn instant_readable(cell: Cell, precision: u32) -> bool {
    match cell {
        Cell::TimestampMillis(_) => precision <= COMPACT_TIMESTAMP_PRECISION,
        Cell::TimestampMicros(_) => COMPACT_TIMESTAMP_PRECISION < precision <= MICROS_PRECISION,
        _ => false,
    }
}

/// Whether a value that is not null is one of the declared type.
pub open spec fn readable(cell: Cell, data_type: DataType) -> bool {
    match data_type {
        DataType::Boolean => cell is Boolean,
        DataType::TinyInt => cell is Int8,
        DataType::SmallInt => cell is Int16,
        DataType::Int => cell is Int32,
        DataType::BigInt => cell is Int64,
        DataType::Char => cell is Utf8,
        DataType::VarChar => cell is Utf8,
        DataType::Date => cell is Date32,
        DataType::Decimal { .. } => cell is Decimal128,
        DataType::Timestamp { precision } => instant_readable(cell, precision),
        DataType::LocalZonedTimestamp { precision } => instant_readable(cell, precision),
        DataType::Other => false,
    }
}

/// What a row stores for a value of a key column of the declared type.
pub open spec fn row_cell(cell: Cell, data_type: DataType) -> RowCell {
    match cell {
        Cell::Boolean(v) => RowCell::Fixed { value: if v { 1 } else { 0 }, width: 1 },
        Cell::Int8(v) => RowCell::Fixed { value: v as int, width: 1 },
        Cell::Int16(v) => RowCell::Fixed { value: v as int, width: 2 },
        Cell::Int32(v) => RowCell::Fixed { value: v as int, width: 4 },
        Cell::Int64(v) => RowCell::Fixed { value: v as int, width: 8 },
        Cell::Utf8(v) => RowCell::Bytes { bytes: encode_utf8(v) },
        Cell::Date32(v) => RowCell::Fixed { value: v as int, width: 4 },
        Cell::TimestampMillis(v) => RowCell::Fixed { value: v as int, width: 8 },
        Cell::TimestampMicros(v) => RowCell::Instant {
            millis: v as int / 1000,
            nanos: (v as int % 1000) * 1000,
        },
        Cell::Decimal128(v) => match data_type {
            DataType::Decimal { precision, .. } if precision > COMPACT_DECIMAL_PRECISION =>
                RowCell::Unscaled { bytes: unscaled_bytes(v as int) },
            _ => RowCell::Fixed { value: v as int, width: 8 },
        },
        _ => RowCell::Null,
    }
}

/// What a row stores for an instant of the given precision.
pub open spec fn instant_cell(millis: i64, nanos: u32, precision: u32) -> RowCell {
    if precision <= COMPACT_TIMESTAMP_PRECISION {
        RowCell::Fixed { value: millis as int, width: 8 }
    } else {
        RowCell::Instant { millis: millis as int, nanos: nanos as int }
    }
}

/// What a row stores for a value.
pub open spec fn datum_cell(datum: Datum, data_type: DataType) -> RowCell {
    match datum {
        Datum::Bool(v) => RowCell::Fixed { value: if v { 1 } else { 0 }, width: 1 },
        Datum::TinyInt(v) => RowCell::Fixed { value: v as int, width: 1 },
        Datum::SmallInt(v) => RowCell::Fixed { value: v as int, width: 2 },
        Datum::Int(v) => RowCell::Fixed { value: v as int, width: 4 },
        Datum::Long(v) => RowCell::Fixed { value: v as int, width: 8 },
        Datum::String(v) => RowCell::Bytes { bytes: encode_utf8(v@) },
        Datum::Date(v) => RowCell::Fixed { value: v as int, width: 4 },
        Datum::Timestamp { millis, nanos } => instant_cell(
            millis,
            nanos,
            match data_type {
                DataType::Timestamp { precision } => precision,
                _ => MICROS_PRECISION,
            },
        ),
        Datum::LocalZonedTimestamp { millis, nanos } => instant_cell(
            millis,
            nanos,
            match data_type {
                DataType::LocalZonedTimestamp { precision } => precision,
                _ => MICROS_PRECISION,
            },
        ),
        Datum::Decimal { unscaled, precision, .. } => if precision <= COMPACT_DECIMAL_PRECISION {
            RowCell::Fixed { value: unscaled as int, width: 8 }
        } else {
            RowCell::Unscaled { bytes: unscaled_bytes(unscaled as int) }
        },
    }
}

/// What a row stores for a value or for none.
pub open spec fn optional_cell(datum: Option<Datum>, data_type: DataType) -> RowCell {
    match datum {
        None => RowCell::Null,
        Some(datum) => datum_cell(datum, data_type),
    }
}

/// Whether whole milliseconds and the nanoseconds after them make the instant of a column.
pub open spec fn is_instant(millis: i64, nanos: u32, cell: Cell) -> bool {
    match cell {
        Cell::TimestampMillis(v) => millis == v && nanos == 0,
        Cell::TimestampMicros(v) => 1_000_000 * millis + nanos == 1000 * v && nanos < 1_000_000,
        _ => false,
    }
}

/// Whether a value is what a column of the declared type holds.
pub open spec fn is_value(datum: Datum, cell: Cell, data_type: DataType) -> bool {
    match (data_type, cell, datum) {
        (DataType::Boolean, Cell::Boolean(v), Datum::Bool(d)) => d == v,
        (DataType::TinyInt, Cell::Int8(v), Datum::TinyInt(d)) => d == v,
        (DataType::SmallInt, Cell::Int16(v), Datum::SmallInt(d)) => d == v,
        (DataType::Int, Cell::Int32(v), Datum::Int(d)) => d == v,
        (DataType::BigInt, Cell::Int64(v), Datum::Long(d)) => d == v,
        (DataType::Char, Cell::Utf8(v), Datum::String(d)) => d@ == v,
        (DataType::VarChar, Cell::Utf8(v), Datum::String(d)) => d@ == v,
        (DataType::Date, Cell::Date32(v), Datum::Date(d)) => d == v,
        (
            DataType::Decimal { precision, scale },
            Cell::Decimal128(v),
            Datum::Decimal { unscaled, precision: digits, scale: fraction },
        ) => unscaled == v && digits == precision && fraction == scale,
        (DataType::Timestamp { .. }, _, Datum::Timestamp { millis, nanos }) => is_instant(
            millis,
            nanos,
            cell,
        ),
        (
            DataType::LocalZonedTimestamp { .. },
            _,
            Datum::LocalZonedTimestamp { millis, nanos },
        ) => is_instant(millis, nanos, cell),
        _ => false,
    }
}

/// Whole milliseconds and the nanoseconds after them.
fn split_micros(micros: i64) -> (r: (i64, u32))
    ensures
        r.0 == micros as int / 1000,
        r.1 == (micros as int % 1000) * 1000,
{
    if micros >= 0 {
        (micros / 1000, (micros % 1000) as u32 * 1000)
    } else {
        let below: i64 = -1 - micros;
        (-1 - below / 1000, (999 - below % 1000) as u32 * 1000)
    }
}

/// Reads an instant of the given precision, if the column holds one.
fn extract_instant(column: &Column, row: usize, precision: u32) -> (r: Option<(i64, u32)>)
    requires
        row < crate::arrow::column_cells(*column).len(),
        !(crate::arrow::column_cells(*column)[row as int] is Null),
    ensures
        ({
            let cell = crate::arrow::column_cells(*column)[row as int];
            match r {
                None => !instant_readable(cell, precision),
                Some(parts) => {
                    &&& instant_readable(cell, precision)
                    &&& instant_cell(parts.0, parts.1, precision) == row_cell(
                        cell,
                        DataType::Timestamp { precision },
                    )
                    &&& is_instant(parts.0, parts.1, cell)
                },
            }
        }),
{
    if precision <= COMPACT_TIMESTAMP_PRECISION {
        match column.timestamp_millis_at(row) {
            Some(millis) => Some((millis, 0)),
            None => None,
        }
    } else if precision <= MICROS_PRECISION {
        match column.timestamp_micros_at(row) {
            Some(micros) => Some(split_micros(micros)),
            None => None,
        }
    } else {
        None
    }
}

/// Reads a value that is not null, if the column holds the declared type.
fn extract_value(column: &Column, row: usize, data_type: DataType) -> (r: Option<Datum>)
    requires
        row < crate::arrow::column_cells(*column).len(),
        !(crate::arrow::column_cells(*column)[row as int] is Null),
    ensures
        ({
            let cell = crate::arrow::column_cells(*column)[row as int];
            match r {
                None => !readable(cell, data_type),
                Some(datum) => {
                    &&& readable(cell, data_type)
                    &&& datum_cell(datum, data_type) == row_cell(cell, data_type)
                    &&& is_value(datum, cell, data_type)
                },
            }
        }),
{
    match data_type {
        DataType::Boolean => match column.boolean_at(row) {
            Some(v) => Some(Datum::Bool(v)),
            None => None,
        },
        DataType::TinyInt => match column.int8_at(row) {
            Some(v) => Some(Datum::TinyInt(v)),
            None => None,
        },
        DataType::SmallInt => match column.int16_at(row) {
            Some(v) => Some(Datum::SmallInt(v)),
            None => None,
        },
        DataType::Int => match column.int32_at(row) {
            Some(v) => Some(Datum::Int(v)),
            None => None,
        },
        DataType::BigInt => match column.int64_at(row) {
            Some(v) => Some(Datum::Long(v)),
            None => None,
        },
        DataType::Char | DataType::VarChar => match column.utf8_at(row) {
            Some(v) => Some(Datum::String(v)),
            None => None,
        },
        DataType::Date => match column.date32_at(row) {
            Some(v) => Some(Datum::Date(v)),
            None => None,
        },
        DataType::Decimal { precision, scale } => match column.decimal128_at(row) {
            Some(unscaled) => Some(Datum::Decimal { unscaled, precision, scale }),
            None => None,
        },
        DataType::Timestamp { precision } => match extract_instant(column, row, precision) {
            Some((millis, nanos)) => Some(Datum::Timestamp { millis, nanos }),
            None => None,
        },
        DataType::LocalZonedTimestamp { precision } => match extract_instant(
            column,
            row,
            precision,
        ) {
            Some((millis, nanos)) => Some(Datum::LocalZonedTimestamp { millis, nanos }),
            None => None,
        },
        DataType::Other => None,
    }
}

/// Reads the value of a key column in one row: none where it is null, an error where the column
/// does not hold the declared type.
pub fn extract_datum_from_arrow(
    batch: &RecordBatch,
    row: usize,
    column: usize,
    data_type: DataType,
) -> (r: Result<Option<Datum>, Error>)
    requires
        column < batch_columns(*batch).len(),
        row < crate::arrow::batch_rows(*batch),
    ensures
        ({
            let cell = batch_columns(*batch)[column as int][row as int];
            match r {
                Ok(datum) => {
                    &&& cell is Null || readable(cell, data_type)
                    &&& datum is None <==> cell is Null
                    &&& optional_cell(datum, data_type) == row_cell(cell, data_type)
                    &&& datum matches Some(value) ==> is_value(value, cell, data_type)
                },
                Err(error) => {
                    &&& !(cell is Null) && !readable(cell, data_type)
                    &&& error == (Error::TypeMismatch { column })
                },
            }
        }),
{
    let rows: usize = batch.num_rows();
    let values: Column = batch.column(column);
    if values.is_null(row) {
        return Ok(None);
    }
    match extract_value(&values, row, data_type) {
        Some(datum) => Ok(Some(datum)),
        None => Err(Error::TypeMismatch { column }),
    }
}

impl BinaryRowBuilder {
    /// Writes an instant into field `pos`, in the slot if its precision allows.
    fn write_timestamp(&mut self, pos: usize, millis: i64, nanos: u32, precision: u32)
        requires
            old(self).wf(),
            pos < old(self).arity,
        ensures
            final(self).wf(),
            final(self).arity == old(self).arity,
            final(self).data@ == write_cell(
                old(self).data@,
                old(self).arity as nat,
                pos as int,
                instant_cell(millis, nanos, precision),
            ),
    {
        if precision <= COMPACT_TIMESTAMP_PRECISION {
            self.write_long(pos, millis);
        } else {
            self.write_instant(pos, millis, nanos);
        }
    }

    /// Writes a value of the declared type into field `pos`.
    pub fn write_datum(&mut self, pos: usize, datum: &Datum, data_type: DataType)
        requires
            old(self).wf(),
            pos < old(self).arity,
        ensures
            final(self).wf(),
            final(self).arity == old(self).arity,
            final(self).data@ == write_cell(
                old(self).data@,
                old(self).arity as nat,
                pos as int,
                datum_cell(*datum, data_type),
            ),
    {
        match datum {
            Datum::Bool(v) => self.write_boolean(pos, *v),
            Datum::TinyInt(v) => self.write_byte(pos, *v),
            Datum::SmallInt(v) => self.write_short(pos, *v),
            Datum::Int(v) => self.write_int(pos, *v),
            Datum::Long(v) => self.write_long(pos, *v),
            Datum::String(v) => {
                let bytes: Vec<u8> = v.as_str().as_bytes_vec();
                self.write_bytes(pos, &bytes);
            },
            Datum::Date(v) => self.write_int(pos, *v),
            Datum::Timestamp { millis, nanos } => {
                let precision: u32 = match data_type {
                    DataType::Timestamp { precision } => precision,
                    _ => MICROS_PRECISION,
                };
                self.write_timestamp(pos, *millis, *nanos, precision);
            },
            Datum::LocalZonedTimestamp { millis, nanos } => {
                let precision: u32 = match data_type {
                    DataType::LocalZonedTimestamp { precision } => precision,
                    _ => MICROS_PRECISION,
                };
                self.write_timestamp(pos, *millis, *nanos, precision);
            },
            Datum::Decimal { unscaled, precision, scale } => {
                if *precision <= COMPACT_DECIMAL_PRECISION {
                    self.write_fixed(pos, *unscaled, 8);
                } else {
                    let bytes: Vec<u8> = unscaled_bytes_of(*unscaled);
                    self.write_unscaled(pos, &bytes);
                }
            },
        }
    }

    /// Writes a value, or marks field `pos` as null where there is none.
    pub fn write_optional(&mut self, pos: usize, datum: &Option<Datum>, data_type: DataType)
        requires
            old(self).wf(),
            pos < old(self).arity,
        ensures
            final(self).wf(),
            final(self).arity == old(self).arity,
            final(self).data@ == write_cell(
                old(self).data@,
                old(self).arity as nat,
                pos as int,
                optional_cell(*datum, data_type),
            ),
    {
        match datum {
            Some(datum) => self.write_datum(pos, datum, data_type),
            None => self.set_null_at(pos),
        }
    }
}

} // verus!
