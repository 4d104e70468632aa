use arrow_array::{
    Array, BooleanArray, Date32Array, Decimal128Array, Int16Array, Int32Array, Int64Array,
    Int8Array, LargeStringArray, StringArray, TimestampMicrosecondArray,
    TimestampMillisecondArray,
};
use arrow_schema::{DataType as ArrowDataType, Field, Schema, TimeUnit};
use paimon_write::arrow::RecordBatch;
use paimon_write::binary_row::{empty_serialized_row, unscaled_bytes_of, BinaryRowBuilder};
use paimon_write::datum::{extract_datum_from_arrow, DataType, Datum};
use paimon_write::error::Error;
use paimon_write::files::{name_file, WriterConfig};
use paimon_write::key_value_file::extract_key_binary_row;
use std::sync::Arc;

fn one_column(data_type: ArrowDataType, column: Arc<dyn Array>) -> RecordBatch {
    let schema = Arc::new(Schema::new(vec![Field::new("c", data_type, true)]));
    RecordBatch { inner: arrow_array::RecordBatch::try_new(schema, vec![column]).unwrap() }
}

/// The bytes of the row that holds the value of the only column in row 1.
fn stored(batch: &RecordBatch, data_type: DataType) -> Vec<u8> {
    let datum = extract_datum_from_arrow(batch, 1, 0, data_type).unwrap();
    let mut builder = BinaryRowBuilder::new(1);
    builder.write_optional(0, &datum, data_type);
    builder.build().data
}

/// A row of one field: the null bits, then the slot and what follows it.
fn row(slot: Vec<u8>) -> Vec<u8> {
    let mut bytes = vec![0u8; 8];
    bytes.extend(slot);
    bytes
}

#[test]
fn empty_row_is_twelve_zero_bytes() {
    assert_eq!(empty_serialized_row(), vec![0u8; 12]);
}

#[test]
fn null_and_zero_hash_differently() {
    let mut null = BinaryRowBuilder::new(1);
    null.set_null_at(0);
    let mut zero = BinaryRowBuilder::new(1);
    zero.write_int(0, 0);
    assert_ne!(null.build().hash_code(), zero.build().hash_code());
}

#[test]
fn hashes_and_buckets() {
    let mut one = BinaryRowBuilder::new(1);
    one.write_int(0, 1);
    let one = one.build();
    assert_eq!(one.hash_code(), 1465514398);
    assert_eq!(one.bucket(4), 2);
    assert_eq!(one.bucket(16), 14);
    let mut three = BinaryRowBuilder::new(1);
    three.write_int(0, 3);
    let three = three.build();
    assert_eq!(three.hash_code(), -771300025);
    assert_eq!(three.bucket(4), 1);
    let mut hello = BinaryRowBuilder::new(1);
    hello.write_string_inline(0, &b"hello".to_vec());
    assert_eq!(hello.build().hash_code(), 243722546);
    let mut long = BinaryRowBuilder::new(1);
    long.write_string(0, &b"0123456789".to_vec());
    assert_eq!(long.build().hash_code(), 1898686293);
}

#[test]
fn null_bits_of_many_fields() {
    let mut builder = BinaryRowBuilder::new(60);
    builder.set_null_at(0);
    builder.set_null_at(7);
    builder.set_null_at(56);
    let data = builder.build().data;
    assert_eq!(data.len(), 16 + 60 * 8);
    assert_eq!(data[..9], [0, 0x81, 0, 0, 0, 0, 0, 0, 1]);
}

#[test]
fn serialized_row_begins_with_its_arity() {
    let mut builder = BinaryRowBuilder::new(2);
    builder.write_int(0, -2);
    builder.write_byte(1, 5);
    let bytes = builder.build_serialized();
    assert_eq!(bytes[..4], [0, 0, 0, 2]);
    assert_eq!(bytes[12..20], [0xfe, 0xff, 0xff, 0xff, 0, 0, 0, 0]);
    assert_eq!(bytes[20..28], [5, 0, 0, 0, 0, 0, 0, 0]);
}

#[test]
fn booleans_are_stored_in_one_byte() {
    let batch = one_column(ArrowDataType::Boolean, Arc::new(BooleanArray::from(vec![false, true])));
    assert_eq!(stored(&batch, DataType::Boolean), row(vec![1, 0, 0, 0, 0, 0, 0, 0]));
}

#[test]
fn integers_are_stored_least_significant_byte_first() {
    let batch = one_column(ArrowDataType::Int8, Arc::new(Int8Array::from(vec![0, -3])));
    assert_eq!(stored(&batch, DataType::TinyInt), row(vec![0xfd, 0, 0, 0, 0, 0, 0, 0]));
    let batch = one_column(ArrowDataType::Int16, Arc::new(Int16Array::from(vec![0, 0x1234])));
    assert_eq!(stored(&batch, DataType::SmallInt), row(vec![0x34, 0x12, 0, 0, 0, 0, 0, 0]));
    let batch = one_column(ArrowDataType::Int32, Arc::new(Int32Array::from(vec![0, 7])));
    assert_eq!(stored(&batch, DataType::Int), row(vec![7, 0, 0, 0, 0, 0, 0, 0]));
    let batch = one_column(ArrowDataType::Int64, Arc::new(Int64Array::from(vec![0, -1])));
    assert_eq!(stored(&batch, DataType::BigInt), row(vec![0xff; 8]));
    let batch = one_column(ArrowDataType::Date32, Arc::new(Date32Array::from(vec![0, 300])));
    assert_eq!(stored(&batch, DataType::Date), row(vec![0x2c, 1, 0, 0, 0, 0, 0, 0]));
}

#[test]
fn text_is_stored_inline_or_apart() {
    let batch = one_column(ArrowDataType::Utf8, Arc::new(StringArray::from(vec!["", "seven77"])));
    assert_eq!(stored(&batch, DataType::VarChar), row(b"seven77\x87".to_vec()));
    let batch = one_column(ArrowDataType::Utf8, Arc::new(StringArray::from(vec!["", "eight888"])));
    let mut expected = vec![8, 0, 0, 0, 16, 0, 0, 0];
    expected.extend(b"eight888");
    assert_eq!(stored(&batch, DataType::Char), row(expected));
}

#[test]
fn instants_are_stored_by_precision() {
    let millis = ArrowDataType::Timestamp(TimeUnit::Millisecond, None);
    let batch = one_column(millis, Arc::new(TimestampMillisecondArray::from(vec![0, 1000])));
    assert_eq!(
        stored(&batch, DataType::Timestamp { precision: 3 }),
        row(vec![0xe8, 3, 0, 0, 0, 0, 0, 0])
    );
    let micros = ArrowDataType::Timestamp(TimeUnit::Microsecond, None);
    let batch = one_column(micros, Arc::new(TimestampMicrosecondArray::from(vec![0, -1])));
    let mut expected = vec![0x58, 0x3e, 0x0f, 0, 16, 0, 0, 0];
    expected.extend([0xff; 8]);
    assert_eq!(stored(&batch, DataType::LocalZonedTimestamp { precision: 6 }), row(expected));
}

#[test]
fn decimals_are_stored_by_precision() {
    let small = Decimal128Array::from(vec![0, -5]).with_precision_and_scale(10, 2).unwrap();
    let batch = one_column(ArrowDataType::Decimal128(10, 2), Arc::new(small));
    let mut expected = vec![0xfb];
    expected.extend([0xff; 7]);
    assert_eq!(stored(&batch, DataType::Decimal { precision: 10, scale: 2 }), row(expected));
    let large = Decimal128Array::from(vec![0, 300]).with_precision_and_scale(38, 18).unwrap();
    let batch = one_column(ArrowDataType::Decimal128(38, 18), Arc::new(large));
    let mut expected = vec![2, 0, 0, 0, 16, 0, 0, 0];
    expected.extend([1, 0x2c]);
    expected.extend([0; 14]);
    assert_eq!(stored(&batch, DataType::Decimal { precision: 38, scale: 18 }), row(expected));
}

#[test]
fn unscaled_decimals_are_as_short_as_can_be() {
    assert_eq!(unscaled_bytes_of(0), vec![0]);
    assert_eq!(unscaled_bytes_of(127), vec![127]);
    assert_eq!(unscaled_bytes_of(128), vec![0, 128]);
    assert_eq!(unscaled_bytes_of(-128), vec![128]);
    assert_eq!(unscaled_bytes_of(-129), vec![255, 127]);
    assert_eq!(unscaled_bytes_of(i128::MIN).len(), 16);
}

#[test]
fn null_key_values_are_read_as_none() {
    let batch = one_column(ArrowDataType::Int32, Arc::new(Int32Array::from(vec![Some(1), None])));
    assert!(extract_datum_from_arrow(&batch, 1, 0, DataType::Int).unwrap().is_none());
    let read = extract_datum_from_arrow(&batch, 0, 0, DataType::Int).unwrap();
    assert!(matches!(read, Some(Datum::Int(1))));
}

#[test]
fn values_of_another_type_are_not_read() {
    let batch = one_column(ArrowDataType::Int32, Arc::new(Int32Array::from(vec![1])));
    for data_type in [DataType::BigInt, DataType::VarChar, DataType::Date, DataType::Other] {
        match extract_datum_from_arrow(&batch, 0, 0, data_type) {
            Err(Error::TypeMismatch { column }) => assert_eq!(column, 0),
            _ => panic!("a value was read as one of another type"),
        }
    }
}

#[test]
fn key_rows_of_every_key_type() {
    let schema = Arc::new(Schema::new(vec![
        Field::new("a", ArrowDataType::Int8, false),
        Field::new("b", ArrowDataType::Int16, false),
        Field::new("c", ArrowDataType::Int64, false),
        Field::new("d", ArrowDataType::LargeUtf8, false),
        Field::new("e", ArrowDataType::Boolean, false),
        Field::new("f", ArrowDataType::Utf8, true),
    ]));
    let columns: Vec<Arc<dyn Array>> = vec![
        Arc::new(Int8Array::from(vec![0, 1])),
        Arc::new(Int16Array::from(vec![0, 2])),
        Arc::new(Int64Array::from(vec![0, 3])),
        Arc::new(LargeStringArray::from(vec!["", "four"])),
        Arc::new(BooleanArray::from(vec![false, true])),
        Arc::new(StringArray::from(vec![Some("x"), None])),
    ];
    let batch = RecordBatch { inner: arrow_array::RecordBatch::try_new(schema, columns).unwrap() };
    let mut expected = BinaryRowBuilder::new(6);
    expected.write_byte(0, 1);
    expected.write_short(1, 2);
    expected.write_long(2, 3);
    expected.write_string_inline(3, &b"four".to_vec());
    // Key rows have no form for truth values.
    expected.set_null_at(4);
    expected.set_null_at(5);
    let key = extract_key_binary_row(&batch, &vec![0, 1, 2, 3, 4, 5], 1);
    assert_eq!(key, expected.build_serialized());
    let short = extract_key_binary_row(&batch, &vec![2], 1);
    assert_eq!(short[12..20], [3, 0, 0, 0, 0, 0, 0, 0]);
}

#[test]
fn files_are_named_and_placed() {
    assert_eq!(name_file(&"u".to_string(), 120), "data-u-120.parquet");
    let mut config = WriterConfig {
        table_location: "mem:/t".to_string(),
        partition_path: String::new(),
        bucket: 12,
        schema_id: 0,
        target_file_size: 1,
        file_compression: "zstd".to_string(),
        file_compression_zstd_level: 3,
        write_buffer_size: 1,
    };
    let file = config.create_file(&"f".to_string());
    assert_eq!(file.directory, "mem:/t/bucket-12/");
    assert_eq!(file.path, "mem:/t/bucket-12/f");
    assert_eq!((file.compression.as_str(), file.zstd_level), ("zstd", 3));
    config.partition_path = "dt=1".to_string();
    config.bucket = -2;
    assert_eq!(config.create_file(&"f".to_string()).path, "mem:/t/dt=1/bucket--2/f");
}
