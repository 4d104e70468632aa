//! The table as a write sees it: where it stands, its columns and keys, and its options.

use crate::datum::DataType;
use vstd::prelude::*;

verus! {

/// A column of the table.
pub struct DataField {
    pub name: String,
    pub data_type: DataType,
}

/// The columns and keys of a table. The bucket keys are the ones in force, whether configured or
/// derived from the other keys.
pub struct TableSchema {
    pub id: i64,
    pub fields: Vec<DataField>,
    pub partition_keys: Vec<String>,
    pub primary_keys: Vec<String>,
    pub bucket_keys: Vec<String>,
}

/// The options that a write reads.
pub struct CoreOptions {
    pub data_evolution_enabled: bool,
    /// The number of buckets, or -1 where it is not fixed.
    pub bucket: i32,
    /// The configured bucket key, if any.
    pub bucket_key: Option<String>,
    pub target_file_size: i64,
    pub file_compression: String,
    pub file_compression_zstd_level: i32,
    pub write_parquet_buffer_size: i64,
}

/// A table.
pub struct Table {
    pub location: String,
    pub schema: TableSchema,
    pub options: CoreOptions,
}

/// The first column from `from` on that has the given name.
pub open spec fn position_from(fields: Seq<DataField>, name: Seq<char>, from: int) -> Option<usize>
    decreases fields.len() - from,
{
    if from >= fields.len() {
        None
    } else if fields[from].name@ == name {
        Some(from as usize)
    } else {
        position_from(fields, name, from + 1)
    }
}

/// The columns that the keys name, in the order of the keys. A key that names no column is left
/// out.
pub open spec fn key_positions(fields: Seq<DataField>, keys: Seq<String>) -> Seq<usize>
    decreases keys.len(),
{
    if keys.len() == 0 {
        Seq::empty()
    } else {
        let rest = key_positions(fields, keys.drop_last());
        match position_from(fields, keys.last()@, 0) {
            Some(i) => rest.push(i),
            None => rest,
        }
    }
}

/// The first column with the given name.
fn position(fields: &Vec<DataField>, name: &String) -> (r: Option<usize>)
    ensures
        r == position_from(fields@, name@, 0),
        r matches Some(i) ==> i < fields@.len(),
{
    let mut i: usize = 0;
    while i < fields.len()
        invariant
            i <= fields@.len(),
            position_from(fields@, name@, 0) == position_from(fields@, name@, i as int),
        decreases fields@.len() - i,
    {
        if fields[i].name == *name {
            return Some(i);
        }
        i += 1;
    }
    None
}

/// The columns that the keys name.
pub fn positions(fields: &Vec<DataField>, keys: &Vec<String>) -> (r: Vec<usize>)
    ensures
        r@ == key_positions(fields@, keys@),
        r@.len() <= keys@.len(),
        forall|i: int| 0 <= i < r@.len() ==> (#[trigger] r@[i]) < fields@.len(),
{
    let mut r: Vec<usize> = Vec::new();
    let mut k: usize = 0;
    while k < keys.len()
        invariant
            k <= keys@.len(),
            r@ == key_positions(fields@, keys@.take(k as int)),
            r@.len() <= k,
            forall|i: int| 0 <= i < r@.len() ==> (#[trigger] r@[i]) < fields@.len(),
        decreases keys@.len() - k,
    {
        assert(keys@.take(k + 1).drop_last() =~= keys@.take(k as int));
        match position(fields, &keys[k]) {
            Some(i) => r.push(i),
            None => {},
        }
        k += 1;
    }
    assert(keys@.take(k as int) =~= keys@);
    r
}

} // verus!
