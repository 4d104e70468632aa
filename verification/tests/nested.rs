use arrow_array::builder::{
    FixedSizeListBuilder, Int32Builder, ListBuilder, ListViewBuilder, NullBuilder, StringBuilder,
    StringDictionaryBuilder, StringRunBuilder,
};
use arrow_array::cast::AsArray;
use arrow_array::types::{Int16Type, Int32Type, Int8Type, IntervalDayTimeType};
use arrow_array::{
    Array, BinaryArray, Date64Array, DictionaryArray, FixedSizeBinaryArray, Float64Array,
    Int16Array, Int32Array, Int8Array, IntervalDayTimeArray, IntervalMonthDayNanoArray,
    IntervalYearMonthArray, LargeBinaryArray, ListArray, ListViewArray, NullArray, RunArray,
    StringArray, StringViewArray, StructArray, TimestampNanosecondArray, UInt64Array, UnionArray,
};
use arrow_buffer::{
    Buffer, IntervalDayTime, IntervalMonthDayNano, NullBuffer, OffsetBuffer, ScalarBuffer,
};
use arrow_schema::{Field, Fields, Schema, UnionFields};
use paimon_write::arrow::RecordBatch;
use paimon_write::error::Error;
use paimon_write::key_value_file::sort_batches;
use std::sync::Arc;

fn batch(columns: Vec<Arc<dyn Array>>) -> RecordBatch {
    let fields: Vec<Field> = columns
        .iter()
        .enumerate()
        .map(|(i, c)| Field::new(format!("c{i}"), c.data_type().clone(), true))
        .collect();
    let inner = arrow_array::RecordBatch::try_new(Arc::new(Schema::new(fields)), columns).unwrap();
    RecordBatch { inner }
}

/// A batch of a key column and a value column.
fn keyed(ids: Vec<i32>, values: Arc<dyn Array>) -> RecordBatch {
    batch(vec![Arc::new(Int32Array::from(ids)), values])
}

/// The values of the rows, sorted by the key column.
fn sorted_values(batches: Vec<RecordBatch>) -> Arc<dyn Array> {
    match sort_batches(&batches, &vec![0]) {
        Ok(sorted) => sorted.inner.column(1).clone(),
        Err(_) => panic!("the rows were not sorted"),
    }
}

fn refused(batches: Vec<RecordBatch>, column: usize) -> bool {
    match sort_batches(&batches, &vec![0]) {
        Err(Error::ColumnRefused { column: found }) => found == column,
        _ => false,
    }
}

/// The order in which rows come with the given keys.
fn order(key: Arc<dyn Array>) -> Vec<i32> {
    let rows: Vec<i32> = (0..key.len() as i32).collect();
    let sorted = sorted_values(vec![batch(vec![key, Arc::new(Int32Array::from(rows))])]);
    sorted.as_primitive::<Int32Type>().values().to_vec()
}

fn lists(rows: Vec<Vec<i32>>) -> Arc<dyn Array> {
    let mut builder = ListBuilder::new(Int32Builder::new());
    for row in rows {
        builder.values().append_slice(&row);
        builder.append(true);
    }
    Arc::new(builder.finish())
}

/// One list of so many nulls, which takes no memory.
fn list_of_nulls(len: usize) -> Arc<dyn Array> {
    let mut builder = ListBuilder::new(NullBuilder::new());
    builder.values().append_nulls(len);
    builder.append(true);
    Arc::new(builder.finish())
}

#[test]
fn keys_of_many_types_are_ordered() {
    assert_eq!(order(Arc::new(UInt64Array::from(vec![u64::MAX, 0, 7]))), vec![1, 2, 0]);
    assert_eq!(order(Arc::new(Date64Array::from(vec![5, -5, 0]))), vec![1, 2, 0]);
    assert_eq!(order(Arc::new(TimestampNanosecondArray::from(vec![2, 3, 1]))), vec![2, 0, 1]);
    assert_eq!(order(Arc::new(Float64Array::from(vec![0.5, -0.0, 0.0, -1.5]))), vec![3, 1, 2, 0]);
    let bytes: Vec<&[u8]> = vec![b"b", b"\xff", b"", b"ab", b"a\0"];
    assert_eq!(order(Arc::new(BinaryArray::from(bytes.clone()))), vec![2, 4, 3, 0, 1]);
    assert_eq!(order(Arc::new(LargeBinaryArray::from(bytes))), vec![2, 4, 3, 0, 1]);
    let fixed = FixedSizeBinaryArray::try_from_iter([[9u8, 0], [0, 9], [5, 5]].iter()).unwrap();
    assert_eq!(order(Arc::new(fixed)), vec![1, 2, 0]);
    assert_eq!(order(Arc::new(StringViewArray::from(vec!["z", "a", "m"]))), vec![1, 2, 0]);
    assert_eq!(order(Arc::new(StringArray::from(vec!["\u{10000}", "\u{ffff}"]))), vec![1, 0]);
}

#[test]
fn lists_are_joined_and_sorted() {
    let a = keyed(vec![3, 1], lists(vec![vec![30, 31], vec![]]));
    let b = keyed(vec![2], lists(vec![vec![20]]));
    let sorted = sorted_values(vec![a, b]);
    assert_eq!(&sorted, &lists(vec![vec![], vec![20], vec![30, 31]]));
}

#[test]
fn structures_are_joined_and_sorted() {
    let structure = |numbers: Vec<i32>, rows: Vec<Vec<i32>>| -> Arc<dyn Array> {
        let columns: Vec<Arc<dyn Array>> = vec![Arc::new(Int32Array::from(numbers)), lists(rows)];
        let fields: Fields = vec![
            Field::new("n", columns[0].data_type().clone(), true),
            Field::new("l", columns[1].data_type().clone(), true),
        ]
        .into();
        Arc::new(StructArray::new(fields, columns, None))
    };
    let a = keyed(vec![2], structure(vec![20], vec![vec![2, 2]]));
    let b = keyed(vec![1], structure(vec![10], vec![vec![1]]));
    let sorted = sorted_values(vec![a, b]);
    assert_eq!(&sorted, &structure(vec![10, 20], vec![vec![1], vec![2, 2]]));
}

#[test]
fn dictionaries_are_joined_and_sorted() {
    let words = |rows: Vec<&str>| -> Arc<dyn Array> {
        let mut builder = StringDictionaryBuilder::<Int8Type>::new();
        for row in rows {
            builder.append_value(row);
        }
        Arc::new(builder.finish())
    };
    let a = keyed(vec![4, 1], words(vec!["x", "y"]));
    let b = keyed(vec![3, 2], words(vec!["z", "y"]));
    let sorted = sorted_values(vec![a, b]);
    let found = sorted.as_dictionary::<Int8Type>().downcast_dict::<StringArray>().unwrap();
    let found: Vec<&str> = found.into_iter().map(|word| word.unwrap()).collect();
    assert_eq!(found, vec!["y", "y", "z", "x"]);
}

#[test]
fn runs_are_joined_and_sorted() {
    let runs = |rows: Vec<&str>| -> Arc<dyn Array> {
        let mut builder = StringRunBuilder::<Int32Type>::new();
        for row in rows {
            builder.append_value(row);
        }
        Arc::new(builder.finish())
    };
    let a = keyed(vec![4, 2], runs(vec!["x", "x"]));
    let b = keyed(vec![3, 1], runs(vec!["y", "y"]));
    let sorted = sorted_values(vec![a, b]);
    let found = sorted.as_run::<Int32Type>().downcast::<StringArray>().unwrap();
    let found: Vec<&str> = found.into_iter().map(|word| word.unwrap()).collect();
    assert_eq!(found, vec!["y", "x", "y", "x"]);
}

#[test]
fn more_list_values_than_offsets_count_are_refused() {
    let most = i32::MAX as usize;
    let a = keyed(vec![2], list_of_nulls(most));
    let b = keyed(vec![1], list_of_nulls(1));
    assert!(refused(vec![a, b], 1));
    let a = keyed(vec![2], list_of_nulls(most - 1));
    let b = keyed(vec![1], list_of_nulls(1));
    let sorted = sorted_values(vec![a, b]);
    assert_eq!(sorted.as_list::<i32>().value_length(0), 1);
    assert_eq!(sorted.as_list::<i32>().value_length(1), most as i32 - 1);
    // One batch needs no joining.
    let sorted = sorted_values(vec![keyed(vec![2], list_of_nulls(most))]);
    assert_eq!(sorted.as_list::<i32>().value_length(0), most as i32);
}

#[test]
fn columns_of_different_layouts_are_left_to_arrow() {
    let a = keyed(vec![2], list_of_nulls(i32::MAX as usize));
    let b = keyed(vec![1], Arc::new(Int32Array::from(vec![1])));
    match sort_batches(&vec![a, b], &vec![0]) {
        Err(Error::DataInvalid { message }) => {
            assert!(message.starts_with("Failed to concat batches: "))
        }
        _ => panic!("columns of different types were joined"),
    }
}

#[test]
fn fixed_size_lists_are_numbered_in_four_bytes() {
    let fixed = |rows: usize, size: i32| -> Arc<dyn Array> {
        let mut builder = FixedSizeListBuilder::new(NullBuilder::new(), size);
        for _ in 0..rows {
            builder.values().append_nulls(size as usize);
            builder.append(true);
        }
        Arc::new(builder.finish())
    };
    assert!(refused(vec![keyed(vec![3, 2, 1], fixed(3, i32::MAX))], 1));
    let sorted = sorted_values(vec![keyed(vec![2, 1], fixed(2, 3))]);
    assert_eq!(sorted.len(), 2);
}

/// One list of all the values.
fn one_list(values: Arc<dyn Array>) -> Arc<dyn Array> {
    let field = Arc::new(Field::new("item", values.data_type().clone(), true));
    let offsets = OffsetBuffer::<i32>::from_lengths([values.len()]);
    Arc::new(ListArray::new(field, offsets, values, None))
}

fn structure(columns: Vec<Arc<dyn Array>>) -> Arc<dyn Array> {
    let fields: Fields = columns
        .iter()
        .enumerate()
        .map(|(i, c)| Field::new(format!("f{i}"), c.data_type().clone(), true))
        .collect();
    Arc::new(StructArray::new(fields, columns, None))
}

/// A union whose variant 0 holds lists and whose variant 1 holds text. Dense where there are
/// offsets.
fn union(
    variants: Vec<i8>,
    offsets: Option<Vec<i32>>,
    rows: Vec<Vec<i32>>,
    words: Vec<&str>,
) -> Arc<dyn Array> {
    let columns: Vec<Arc<dyn Array>> = vec![lists(rows), Arc::new(StringArray::from(words))];
    let fields: UnionFields = columns
        .iter()
        .enumerate()
        .map(|(i, c)| (i as i8, Arc::new(Field::new(format!("v{i}"), c.data_type().clone(), true))))
        .collect();
    let offsets = offsets.map(ScalarBuffer::from);
    Arc::new(UnionArray::try_new(fields, variants.into(), offsets, columns).unwrap())
}

fn runs_of(ends: Vec<i32>, values: Arc<dyn Array>) -> Arc<dyn Array> {
    Arc::new(RunArray::<Int32Type>::try_new(&Int32Array::from(ends), &values).unwrap())
}

fn dictionary_of(keys: Vec<Option<i8>>, values: Arc<dyn Array>) -> Arc<dyn Array> {
    Arc::new(DictionaryArray::<Int8Type>::new(Int8Array::from(keys), values))
}

#[test]
fn keys_of_nested_types_are_ordered() {
    assert_eq!(
        order(lists(vec![vec![2], vec![1, 9], vec![1], vec![], vec![1, 9, 0]])),
        vec![3, 2, 1, 4, 0]
    );
    let words: Arc<dyn Array> = Arc::new(StringArray::from(vec![Some("b"), None, Some("a")]));
    // The values behind the keys decide, and a null value is null.
    let keys = vec![Some(0), Some(1), None, Some(2), Some(0)];
    let found = order(dictionary_of(keys, words.clone()));
    assert_eq!(found[..2].iter().copied().sum::<i32>(), 3);
    assert_eq!(found[2], 3);
    let found = order(runs_of(vec![2, 3, 4], words));
    assert_eq!(found[..2], [2, 3]);
    let first: Arc<dyn Array> = Arc::new(Int32Array::from(vec![2, 1, 1, 1]));
    let second: Arc<dyn Array> =
        Arc::new(StringArray::from(vec![Some("a"), Some("b"), None, Some("a")]));
    assert_eq!(order(structure(vec![first, second])), vec![2, 3, 1, 0]);
    let variants = union(
        vec![1, 0, 1, 0],
        Some(vec![0, 0, 1, 1]),
        vec![vec![5], vec![4]],
        vec!["z", "a"],
    );
    assert_eq!(order(variants), vec![3, 1, 2, 0]);
}

#[test]
fn keys_that_are_intervals_are_ordered() {
    let months = IntervalYearMonthArray::from(vec![3, -1, 0]);
    assert_eq!(order(Arc::new(months)), vec![1, 2, 0]);
    let days = IntervalDayTimeArray::from(vec![
        IntervalDayTime::new(1, 0),
        IntervalDayTime::new(0, 90_000_000),
        IntervalDayTime::new(1, -5),
    ]);
    assert_eq!(order(Arc::new(days)), vec![1, 2, 0]);
    let nanos = IntervalMonthDayNanoArray::from(vec![
        IntervalMonthDayNano::new(1, 0, 0),
        IntervalMonthDayNano::new(0, 40, 1),
        IntervalMonthDayNano::new(0, 40, -1),
        IntervalMonthDayNano::new(0, 39, 9),
    ]);
    assert_eq!(order(Arc::new(nanos)), vec![3, 2, 1, 0]);
}

#[test]
fn bytes_beyond_the_rows_do_not_matter() {
    let fixed = |bytes: &[u8]| -> Arc<dyn Array> {
        Arc::new(FixedSizeBinaryArray::new(2, Buffer::from_slice_ref(bytes), None))
    };
    let sorted = sorted_values(vec![
        keyed(vec![3, 1], fixed(&[30, 31, 10, 11, 99])),
        keyed(vec![2], fixed(&[20, 21, 99])),
    ]);
    assert_eq!(&sorted, &fixed(&[10, 11, 20, 21, 30, 31]));
    let sorted = sorted_values(vec![keyed(vec![3, 1], fixed(&[30, 31, 10, 11, 99]))]);
    assert_eq!(&sorted, &fixed(&[10, 11, 30, 31]));

    let words: Arc<dyn Array> = Arc::new(StringArray::from(vec!["x", "y"]));
    let keyed_words = |bytes: &[u8]| -> Arc<dyn Array> {
        let keys = ScalarBuffer::<i16>::from(Buffer::from_slice_ref(bytes));
        Arc::new(DictionaryArray::<Int16Type>::new(Int16Array::new(keys, None), words.clone()))
    };
    let sorted = sorted_values(vec![
        keyed(vec![3, 1], keyed_words(&[0, 0, 1, 0, 7])),
        keyed(vec![2], keyed_words(&[1, 0, 7])),
    ]);
    let found = sorted.as_dictionary::<Int16Type>().downcast_dict::<StringArray>().unwrap();
    let found: Vec<&str> = found.into_iter().map(|word| word.unwrap()).collect();
    assert_eq!(found, vec!["y", "y", "x"]);

    let offsets = ScalarBuffer::<i32>::from(Buffer::from_slice_ref([0u8, 0, 0, 0, 1, 0, 0, 0, 7]));
    let text = StringArray::new(OffsetBuffer::new(offsets), Buffer::from_slice_ref(b"a"), None);
    let sorted = sorted_values(vec![
        keyed(vec![2], one_list(Arc::new(text.clone()))),
        keyed(vec![1], one_list(Arc::new(text))),
    ]);
    assert_eq!(sorted.as_list::<i32>().value(1).as_string::<i32>().value(0), "a");
}

#[test]
fn keys_of_null_rows_are_moved_with_the_others() {
    let dictionary = |null_key: i8| -> Arc<dyn Array> {
        let nulls = NullBuffer::from(vec![true, false]);
        let keys = Int8Array::new(vec![0, null_key].into(), Some(nulls));
        let words: Arc<dyn Array> = Arc::new(StringArray::from(vec!["x"]));
        Arc::new(DictionaryArray::<Int8Type>::new(keys, words))
    };
    // The second dictionary's keys are moved past the one value of the first.
    let a = keyed(vec![4, 3], dictionary(127));
    let b = keyed(vec![2, 1], dictionary(126));
    let sorted = sorted_values(vec![a, b]);
    let found = sorted.as_dictionary::<Int8Type>().downcast_dict::<StringArray>().unwrap();
    let found: Vec<Option<&str>> = found.into_iter().collect();
    assert_eq!(found, vec![None, Some("x"), None, Some("x")]);
    let a = keyed(vec![4, 3], dictionary(0));
    let b = keyed(vec![2, 1], dictionary(127));
    assert!(refused(vec![a, b], 1));
}

#[test]
fn intervals_of_days_are_not_copied_inside_lists() {
    let days = |values: Vec<Option<IntervalDayTime>>| -> Arc<dyn Array> {
        Arc::new(IntervalDayTimeArray::from(values))
    };
    let one = IntervalDayTime::new(1, 2);
    assert!(refused(vec![keyed(vec![1], one_list(days(vec![Some(one), None])))], 1));
    assert!(refused(vec![keyed(vec![1], one_list(structure(vec![days(vec![Some(one)])])))], 1));
    let dictionary = dictionary_of(vec![Some(0)], days(vec![Some(one)]));
    let pair = vec![keyed(vec![1], dictionary.clone()), keyed(vec![2], dictionary.clone())];
    assert!(refused(pair, 1));
    // Without nulls, or outside lists, they are chosen row by row.
    let sorted = sorted_values(vec![keyed(vec![1], one_list(days(vec![Some(one)])))]);
    let items = sorted.as_list::<i32>().value(0);
    assert_eq!(items.as_primitive::<IntervalDayTimeType>().value(0), one);
    let sorted = sorted_values(vec![
        keyed(vec![2], days(vec![Some(one)])),
        keyed(vec![1], days(vec![None])),
    ]);
    assert!(sorted.is_null(0) && !sorted.is_null(1));
    assert_eq!(sorted_values(vec![keyed(vec![1], dictionary)]).len(), 1);
}

#[test]
fn nested_columns_inside_lists_are_sorted() {
    let mut builder = ListViewBuilder::new(Int32Builder::new());
    builder.values().append_value(1);
    builder.append(true);
    let views: Arc<dyn Array> = Arc::new(builder.finish());
    let sorted = sorted_values(vec![
        keyed(vec![2], one_list(views.clone())),
        keyed(vec![1], one_list(views.clone())),
    ]);
    let items = sorted.as_list::<i32>().value(1);
    assert_eq!(items.as_list_view::<i32>().value(0).as_primitive::<Int32Type>().value(0), 1);

    let words: Arc<dyn Array> = Arc::new(StringArray::from(vec!["x", "y"]));
    let sorted = sorted_values(vec![keyed(vec![1], one_list(runs_of(vec![2, 3], words.clone())))]);
    let items = sorted.as_list::<i32>().value(0);
    let found = items.as_run::<Int32Type>().downcast::<StringArray>().unwrap();
    let found: Vec<&str> = found.into_iter().map(|word| word.unwrap()).collect();
    assert_eq!(found, vec!["x", "x", "y"]);

    let dense = union(vec![1, 0], Some(vec![0, 0]), vec![vec![5]], vec!["z"]);
    let sorted = sorted_values(vec![keyed(vec![1], one_list(dense.clone()))]);
    let items = sorted.as_list::<i32>().value(0);
    let items = items.as_union();
    assert_eq!(items.value(0).as_string::<i32>().value(0), "z");
    assert_eq!(&items.value(1), &lists(vec![vec![5]]));

    let sorted = sorted_values(vec![keyed(
        vec![1],
        one_list(dictionary_of(vec![Some(1), None], words)),
    )]);
    let items = sorted.as_list::<i32>().value(0);
    let found = items.as_dictionary::<Int8Type>().downcast_dict::<StringArray>().unwrap();
    let found: Vec<Option<&str>> = found.into_iter().collect();
    assert_eq!(found, vec![Some("y"), None]);
}

#[test]
fn list_views_are_joined_and_sorted() {
    let views = |rows: Vec<&str>| -> Arc<dyn Array> {
        let mut builder = ListViewBuilder::new(StringBuilder::new());
        for row in rows {
            builder.values().append_value(row);
            builder.append(true);
        }
        Arc::new(builder.finish())
    };
    let sorted = sorted_values(vec![
        keyed(vec![3, 1], views(vec!["x", "y"])),
        keyed(vec![2], views(vec!["z"])),
    ]);
    let sorted = sorted.as_list_view::<i32>();
    let found: Vec<String> =
        (0..3).map(|i| sorted.value(i).as_string::<i32>().value(0).to_string()).collect();
    assert_eq!(found, vec!["y", "z", "x"]);
}

#[test]
fn unions_are_joined_and_sorted() {
    let dense = union(vec![1, 0], Some(vec![0, 0]), vec![vec![5]], vec!["z"]);
    let other = union(vec![0], Some(vec![0]), vec![vec![6]], vec![]);
    let sorted = sorted_values(vec![keyed(vec![3, 1], dense), keyed(vec![2], other)]);
    let found = sorted.as_union();
    assert_eq!(&found.value(0), &lists(vec![vec![5]]));
    assert_eq!(&found.value(1), &lists(vec![vec![6]]));
    assert_eq!(found.value(2).as_string::<i32>().value(0), "z");

    let sparse = union(vec![1, 0], None, vec![vec![], vec![5]], vec!["z", ""]);
    let other = union(vec![0], None, vec![vec![6]], vec![""]);
    let sorted = sorted_values(vec![keyed(vec![3, 1], sparse), keyed(vec![2], other)]);
    let found = sorted.as_union();
    assert_eq!(&found.value(0), &lists(vec![vec![5]]));
    assert_eq!(&found.value(1), &lists(vec![vec![6]]));
    assert_eq!(found.value(2).as_string::<i32>().value(0), "z");
}

#[test]
fn runs_and_dictionaries_of_nested_values_are_joined_and_sorted() {
    let sorted = sorted_values(vec![
        keyed(vec![3, 1], runs_of(vec![1, 2], lists(vec![vec![30], vec![10]]))),
        keyed(vec![2], runs_of(vec![1], lists(vec![vec![20]]))),
    ]);
    let found = sorted.as_run::<Int32Type>();
    let values: Vec<Arc<dyn Array>> =
        (0..3).map(|i| found.values().slice(found.get_physical_index(i), 1)).collect();
    assert_eq!(&values[0], &lists(vec![vec![10]]));
    assert_eq!(&values[1], &lists(vec![vec![20]]));
    assert_eq!(&values[2], &lists(vec![vec![30]]));

    let sorted = sorted_values(vec![
        keyed(vec![3, 1], dictionary_of(vec![Some(1), Some(0)], lists(vec![vec![10], vec![30]]))),
        keyed(vec![2], dictionary_of(vec![Some(0)], lists(vec![vec![20]]))),
    ]);
    let found = sorted.as_dictionary::<Int8Type>();
    let values: Vec<Arc<dyn Array>> =
        (0..3).map(|i| found.values().slice(found.key(i).unwrap(), 1)).collect();
    assert_eq!(&values[0], &lists(vec![vec![10]]));
    assert_eq!(&values[1], &lists(vec![vec![20]]));
    assert_eq!(&values[2], &lists(vec![vec![30]]));
}

#[test]
fn structures_with_nulls_where_none_are_declared_are_refused() {
    // The dictionary has no null key, but a key that stands for a null.
    let absent: Arc<dyn Array> = Arc::new(StringArray::from(vec![None::<&str>]));
    let words = dictionary_of(vec![Some(0)], absent);
    let field = Field::new("w", words.data_type().clone(), false);
    let schema = Arc::new(Schema::new(vec![field]));
    let inner = arrow_array::RecordBatch::try_new(schema, vec![words]).unwrap();
    let unsound: Arc<dyn Array> = Arc::new(StructArray::from(inner));
    assert!(refused(vec![keyed(vec![1], unsound)], 1));
    // Where the structure is null, so may its fields be.
    let numbers: Arc<dyn Array> = Arc::new(Int32Array::from(vec![Some(1), None]));
    let fields: Fields = vec![Field::new("n", numbers.data_type().clone(), false)].into();
    let nulls = Some(NullBuffer::from(vec![true, false]));
    let sound: Arc<dyn Array> = Arc::new(StructArray::new(fields, vec![numbers], nulls));
    let sorted = sorted_values(vec![keyed(vec![2, 1], sound)]);
    assert!(sorted.is_null(0) && !sorted.is_null(1));
}

#[test]
fn lists_of_items_without_memory_are_counted() {
    let fixed = |rows: usize, size: i32| -> Arc<dyn Array> {
        let mut builder = FixedSizeListBuilder::new(NullBuilder::new(), size);
        for _ in 0..rows {
            builder.values().append_nulls(size as usize);
            builder.append(true);
        }
        Arc::new(builder.finish())
    };
    // Inside list views items can be copied more than once.
    let views = |items: Arc<dyn Array>| -> Arc<dyn Array> {
        let field = Arc::new(Field::new("item", items.data_type().clone(), true));
        Arc::new(ListViewArray::new(field, vec![0, 0].into(), vec![1, 1].into(), items, None))
    };
    assert!(refused(vec![keyed(vec![1], one_list(views(fixed(1, 3))))], 1));
    let sorted = sorted_values(vec![keyed(vec![1], one_list(fixed(2, 3)))]);
    assert_eq!(sorted.as_list::<i32>().value(0).len(), 2);
    let mut builder = FixedSizeListBuilder::new(Int32Builder::new(), 1);
    builder.values().append_value(7);
    builder.append(true);
    let sorted = sorted_values(vec![keyed(vec![1], one_list(views(Arc::new(builder.finish()))))]);
    assert_eq!(sorted.as_list::<i32>().value(0).len(), 2);
}

#[test]
fn runs_without_rows_are_left_out() {
    let words: Arc<dyn Array> = Arc::new(StringArray::from(vec!["x"]));
    let runs = runs_of(vec![1], words);
    let none = runs.slice(0, 0);
    let sorted = sorted_values(vec![
        keyed(vec![1], runs.clone()),
        keyed(vec![], none),
        keyed(vec![2], runs),
    ]);
    assert_eq!(sorted.len(), 2);
    let runs = runs_of(vec![1], lists(vec![vec![1]]));
    let none = runs.slice(0, 0);
    let sorted = sorted_values(vec![
        keyed(vec![1], runs.clone()),
        keyed(vec![], none),
        keyed(vec![2], runs),
    ]);
    assert_eq!(sorted.len(), 2);
}

#[test]
fn missing_columns_are_told_after_the_others_are_joined() {
    let wide = || keyed(vec![1], Arc::new(Int32Array::from(vec![10])));
    let narrow = || batch(vec![Arc::new(Int32Array::from(vec![2]))]);
    let missing = |batches: Vec<RecordBatch>, keys: Vec<usize>| -> Option<usize> {
        match sort_batches(&batches, &keys) {
            Err(Error::MissingColumn { column }) => Some(column),
            _ => None,
        }
    };
    assert_eq!(missing(vec![wide(), narrow()], vec![0]), Some(1));
    assert_eq!(missing(vec![wide(), wide()], vec![0, 5, 7]), Some(5));
    // Columns beyond those of the first batch are left out.
    match sort_batches(&vec![narrow(), wide()], &vec![0]) {
        Ok(sorted) => assert_eq!((sorted.rows(), sorted.columns()), (2, 1)),
        _ => panic!("the rows were not sorted"),
    }
    let other = batch(vec![Arc::new(StringArray::from(vec!["x"]))]);
    match sort_batches(&vec![wide(), other], &vec![0]) {
        Err(Error::DataInvalid { message }) => {
            assert!(message.starts_with("Failed to concat batches: "))
        }
        _ => panic!("columns of different types were joined"),
    }
}

#[test]
fn rows_and_columns_are_counted() {
    let nulls = batch(vec![Arc::new(NullArray::new(7)), Arc::new(NullArray::new(7))]);
    assert_eq!((nulls.rows(), nulls.columns()), (7, 2));
}
