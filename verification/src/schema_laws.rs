//! Which columns the keys of a table are.

use crate::schema::{key_positions, position_from, DataField, Table};
use crate::table_write::TableWrite;
use vstd::prelude::*;

verus! {

proof fn lemma_position(fields: Seq<DataField>, name: Seq<char>, from: int)
    requires
        0 <= from <= fields.len() <= usize::MAX,
    ensures
        match position_from(fields, name, from) {
            Some(i) => {
                &&& from <= i < fields.len()
                &&& fields[i as int].name@ == name
                &&& forall|j: int| from <= j < i ==> (#[trigger] fields[j]).name@ != name
            },
            None => forall|j: int|
                from <= j < fields.len() ==> (#[trigger] fields[j]).name@ != name,
        },
    decreases fields.len() - from,
{
    if from < fields.len() && fields[from].name@ != name {
        lemma_position(fields, name, from + 1);
    }
}

/// The columns of a run of keys are those of its parts, in order; one key stands for the first
/// column of its name, or for none where no column has it.
pub proof fn law_key_columns(fields: Seq<DataField>, a: Seq<String>, b: Seq<String>, key: String)
    requires
        fields.len() <= usize::MAX,
    ensures
        key_positions(fields, a + b) == key_positions(fields, a) + key_positions(fields, b),
        key_positions(fields, Seq::empty()).len() == 0,
        (forall|j: int| 0 <= j < fields.len() ==> (#[trigger] fields[j]).name@ != key@)
            ==> key_positions(fields, seq![key]).len() == 0,
        (exists|j: int| 0 <= j < fields.len() && (#[trigger] fields[j]).name@ == key@) ==> {
            let found = key_positions(fields, seq![key]);
            &&& found.len() == 1
            &&& found[0] < fields.len()
            &&& fields[found[0] as int].name@ == key@
            &&& forall|j: int| 0 <= j < found[0] ==> (#[trigger] fields[j]).name@ != key@
        },
    decreases b.len(),
{
    lemma_position(fields, key@, 0);
    assert(seq![key].drop_last() =~= Seq::<String>::empty());
    reveal_with_fuel(key_positions, 2);
    if b.len() == 0 {
        assert(a + b =~= a);
        assert(key_positions(fields, a) + key_positions(fields, b) =~= key_positions(fields, a));
    } else {
        law_key_columns(fields, a, b.drop_last(), key);
        assert((a + b).drop_last() =~= a + b.drop_last());
        assert((a + b).last() == b.last());
        assert(key_positions(fields, a + b) =~= key_positions(fields, a) + key_positions(
            fields,
            b,
        ));
    }
}

/// Whether every key names a column.
pub open spec fn all_named(fields: Seq<DataField>, keys: Seq<String>) -> bool {
    forall|k: int|
        #![trigger keys[k]]
        0 <= k < keys.len() ==> exists|j: int|
            0 <= j < fields.len() && (#[trigger] fields[j]).name@ == keys[k]@
}

/// Where every key names a column, there is one column for each key, in the order of the keys:
/// the first of its name.
pub proof fn law_each_key_has_its_column(fields: Seq<DataField>, keys: Seq<String>)
    requires
        fields.len() <= usize::MAX,
        all_named(fields, keys),
    ensures
        key_positions(fields, keys).len() == keys.len(),
        forall|k: int|
            #![trigger key_positions(fields, keys)[k]]
            0 <= k < keys.len() ==> {
                let found = key_positions(fields, keys)[k];
                &&& found < fields.len()
                &&& fields[found as int].name@ == keys[k]@
                &&& forall|j: int| 0 <= j < found ==> (#[trigger] fields[j]).name@ != keys[k]@
            },
    decreases keys.len(),
{
    if keys.len() > 0 {
        let rest = keys.drop_last();
        assert forall|k: int| #![trigger rest[k]] 0 <= k < rest.len() implies exists|j: int|
            0 <= j < fields.len() && (#[trigger] fields[j]).name@ == rest[k]@ by {
            assert(rest[k] == keys[k]);
        }
        law_each_key_has_its_column(fields, rest);
        lemma_position(fields, keys.last()@, 0);
        assert(keys[keys.len() - 1] == keys.last());
        assert forall|k: int| #![trigger key_positions(fields, keys)[k]]
            0 <= k < keys.len() implies {
            let found = key_positions(fields, keys)[k];
            &&& found < fields.len()
            &&& fields[found as int].name@ == keys[k]@
            &&& forall|j: int| 0 <= j < found ==> (#[trigger] fields[j]).name@ != keys[k]@
        } by {
            if k < rest.len() {
                assert(key_positions(fields, keys)[k] == key_positions(fields, rest)[k]);
                assert(rest[k] == keys[k]);
            }
        }
    }
}

/// A write knows of its table where it stands, how it is versioned, and how its files are to be
/// made; its rows are numbered from the given number on.
pub proof fn law_write_knows_its_table(
    write: TableWrite,
    table: Table,
    next_sequence_number: i64,
)
    requires
        write.writes_to(table, next_sequence_number),
    ensures
        write.settings.location@ == table.location@,
        write.settings.partition_keys@ == table.schema.partition_keys@,
        write.settings.schema_id == table.schema.id,
        write.settings.target_file_size == table.options.target_file_size,
        write.settings.file_compression@ == table.options.file_compression@,
        write.settings.file_compression_zstd_level == table.options.file_compression_zstd_level,
        write.settings.write_buffer_size == table.options.write_parquet_buffer_size,
        write.settings.next_sequence_number == next_sequence_number,
{
}

/// A write routes rows by the columns that the partition keys and the bucket keys of its table
/// name, among the buckets of the table, and sorts by those that the primary keys name.
pub proof fn law_write_goes_by_the_keys_of_its_table(
    write: TableWrite,
    table: Table,
    next_sequence_number: i64,
)
    requires
        write.writes_to(table, next_sequence_number),
        table.schema.fields@.len() <= usize::MAX,
    ensures
        write.router.fields@ == table.schema.fields@,
        write.router.total_buckets == table.options.bucket,
        all_named(table.schema.fields@, table.schema.partition_keys@) ==> {
            &&& write.router.partition_field_indices@.len() == table.schema.partition_keys@.len()
            &&& forall|k: int|
                #![trigger write.router.partition_field_indices@[k]]
                0 <= k < table.schema.partition_keys@.len() ==> {
                    let found = write.router.partition_field_indices@[k];
                    &&& found < table.schema.fields@.len()
                    &&& table.schema.fields@[found as int].name@ == table.schema.partition_keys@[k]@
                }
        },
        all_named(table.schema.fields@, table.schema.bucket_keys@) ==> {
            &&& write.router.bucket_key_indices@.len() == table.schema.bucket_keys@.len()
            &&& forall|k: int|
                #![trigger write.router.bucket_key_indices@[k]]
                0 <= k < table.schema.bucket_keys@.len() ==> {
                    let found = write.router.bucket_key_indices@[k];
                    &&& found < table.schema.fields@.len()
                    &&& table.schema.fields@[found as int].name@ == table.schema.bucket_keys@[k]@
                }
        },
        all_named(table.schema.fields@, table.schema.primary_keys@) ==> {
            &&& write.settings.primary_key_indices@.len() == table.schema.primary_keys@.len()
            &&& forall|k: int|
                #![trigger write.settings.primary_key_indices@[k]]
                0 <= k < table.schema.primary_keys@.len() ==> {
                    let found = write.settings.primary_key_indices@[k];
                    &&& found < table.schema.fields@.len()
                    &&& table.schema.fields@[found as int].name@ == table.schema.primary_keys@[k]@
                }
        },
{
    let fields = table.schema.fields@;
    if all_named(fields, table.schema.partition_keys@) {
        law_each_key_has_its_column(fields, table.schema.partition_keys@);
    }
    if all_named(fields, table.schema.bucket_keys@) {
        law_each_key_has_its_column(fields, table.schema.bucket_keys@);
    }
    if all_named(fields, table.schema.primary_keys@) {
        law_each_key_has_its_column(fields, table.schema.primary_keys@);
    }
}

} // verus!
