//! Which columns are never refused.

use crate::arrow::{
    column_at, column_buffers, column_cells, column_children, column_depth, column_kind,
    column_leaf, column_offsets, column_width, no_nulls, slice_of, struct_sound, Column,
    RecordBatch,
};
use crate::nested::{
    alike, buffer_counts, column_group, copyable, filled, first_unjoinable, group_depth, has_room,
    inner_group, joinable, lengths, list_room, mergeable, sortable, span, spanned_group, spans,
    sum_of, takeable, values_mergeable, weighty,
};
use vstd::prelude::*;

verus! {

/// A column without columns inside is never refused: rows can be chosen from it, and rows can be
/// sorted by it.
pub proof fn law_plain_columns_are_taken_and_sorted(column: Column, n: int)
    requires
        column_kind(column) is Leaf,
    ensures
        takeable(column, n, true),
        sortable(column),
{
}

/// A structure without unexpected nulls is refused only where a column inside it is.
pub proof fn law_structures_are_taken(column: Column, n: int)
    requires
        column_kind(column) is Struct,
        struct_sound(column),
        forall|i: int|
            #![trigger column_children(column)[i]]
            0 <= i < column_children(column).len() ==> {
                &&& column_depth(column_children(column)[i]) < column_depth(column)
                &&& takeable(column_children(column)[i], n, true)
            },
    ensures
        takeable(column, n, true),
        sortable(column),
{
}

/// Rows can be chosen, each once, from lists of numbers, truth values, text or bytes, whether
/// their items have nulls or not.
pub proof fn law_lists_are_taken(column: Column, n: int)
    requires
        column_kind(column) is List || column_kind(column) is LargeList,
        column_children(column).len() == 1,
        column_kind(column_children(column)[0]) is Leaf,
        ({
            let leaf = column_leaf(column_children(column)[0]);
            leaf is Primitive || leaf is Boolean || leaf is Bytes || leaf is LargeBytes
                || leaf is ByteView
        }),
        column_children(column_children(column)[0]).len() == 0,
        0 <= n <= column_cells(column).len(),
    ensures
        takeable(column, n, true),
        column_cells(column_children(column)[0]).len() <= u32::MAX ==> sortable(column),
{
    let len = column_cells(column).len() as int;
    let item = column_children(column)[0];
    assert(weighty(item));
    assert(copyable(item, list_room(column, n), true));
    if len > 0 {
        let total = span(column);
        let each = total / len;
        if each >= 0 {
            assert(each * n <= each * len) by (nonlinear_arith)
                requires
                    each >= 0,
                    n <= len,
            ;
            assert(each * len <= total) by (nonlinear_arith)
                requires
                    len > 0,
                    each == total / len,
            ;
        } else {
            assert(each * n <= 0) by (nonlinear_arith)
                requires
                    each < 0,
                    n >= 0,
            ;
        }
    }
}

/// One column is joined with no other without further ado, and so are columns of numbers, truth
/// values, text or bytes, as long as their values can be counted.
pub proof fn law_plain_columns_are_joined(group: Seq<Column>)
    requires
        group.len() > 0,
        group.len() > 1 ==> {
            let leaf = column_leaf(group[0]);
            &&& forall|k: int|
                #![trigger group[k]]
                0 <= k < group.len() ==> {
                    &&& column_kind(group[k]) is Leaf
                    &&& column_leaf(group[k]) == leaf
                }
            &&& sum_of(Seq::new(group.len(), |k: int| column_cells(group[k]).len() as usize))
                <= usize::MAX / 64
            &&& leaf is Primitive || leaf is DayTime || leaf is Boolean || leaf is Null || (
            leaf is ByteView && sum_of(Seq::new(group.len(), |k: int| column_buffers(group[k])))
                <= u32::MAX) || ((leaf is Bytes || leaf is LargeBytes) && sum_of(
                Seq::new(
                    group.len(),
                    |k: int| (column_offsets(group[k]).1 - column_offsets(group[k]).0) as usize,
                ),
            ) <= usize::MAX / 64)
        },
    ensures
        joinable(group),
{
    if group.len() > 1 {
        assert(lengths(group) =~= Seq::new(
            group.len(),
            |k: int| column_cells(group[k]).len() as usize,
        ));
        assert(buffer_counts(group) =~= Seq::new(
            group.len(),
            |k: int| column_buffers(group[k]),
        ));
        assert(spans(group) =~= Seq::new(
            group.len(),
            |k: int| (column_offsets(group[k]).1 - column_offsets(group[k]).0) as usize,
        ));
    }
}

/// Batches are refused for the first of their columns that cannot be joined, and only for such a
/// one.
pub proof fn law_first_column_that_is_not_joined(
    batches: Seq<RecordBatch>,
    n: nat,
    j: int,
    group: Seq<Column>,
)
    requires
        0 <= j < n,
        group.len() == batches.len(),
        forall|i: int| 0 <= i < group.len() ==> #[trigger] group[i] == column_at(batches[i], j),
    ensures
        match first_unjoinable(batches, n) {
            None => joinable(group),
            Some(m) => {
                &&& 0 <= m < n
                &&& j < m ==> joinable(group)
                &&& j == m ==> !joinable(group)
            },
        },
    decreases n,
{
    if j < n - 1 {
        law_first_column_that_is_not_joined(batches, (n - 1) as nat, j, group);
    } else {
        assert(column_group(batches, j) =~= group);
        lemma_unjoinable_below(batches, (n - 1) as nat);
    }
}

proof fn lemma_unjoinable_below(batches: Seq<RecordBatch>, n: nat)
    ensures
        first_unjoinable(batches, n) matches Some(m) ==> 0 <= m < n,
    decreases n,
{
    if n > 0 {
        lemma_unjoinable_below(batches, (n - 1) as nat);
    }
}

/// Columns are joined only where what comes of it can be counted: the rows, the bytes behind
/// offsets, the buffers behind views, the values of fixed size, and the items behind the offsets
/// of lists, which are of 32 bits unless the lists are large.
pub proof fn law_joined_columns_can_be_counted(group: Seq<Column>)
    requires
        group.len() > 1,
        alike(group),
        joinable(group),
    ensures
        ({
            let leaf = column_leaf(group[0]);
            let kind = column_kind(group[0]);
            let rows = sum_of(
                Seq::new(group.len(), |k: int| column_cells(group[k]).len() as usize),
            );
            let behind = sum_of(
                Seq::new(
                    group.len(),
                    |k: int| (column_offsets(group[k]).1 - column_offsets(group[k]).0) as usize,
                ),
            );
            &&& rows <= usize::MAX
            &&& !(kind is Leaf && leaf is Null) ==> rows <= usize::MAX / 64
            &&& kind is Leaf && (leaf is Bytes || leaf is LargeBytes) ==> behind <= usize::MAX / 64
            &&& kind is Leaf && leaf is ByteView ==> sum_of(
                Seq::new(group.len(), |k: int| column_buffers(group[k])),
            ) <= u32::MAX
            &&& kind is Leaf && leaf is FixedBinary ==> rows * column_width(group[0])
                <= usize::MAX / 64
            &&& kind is List ==> behind <= 0x7fff_ffff
            &&& kind is LargeList ==> behind <= 0x7fff_ffff_ffff_ffff
        }),
{
    assert(lengths(group) =~= Seq::new(
        group.len(),
        |k: int| column_cells(group[k]).len() as usize,
    ));
    assert(buffer_counts(group) =~= Seq::new(group.len(), |k: int| column_buffers(group[k])));
    assert(spans(group) =~= Seq::new(
        group.len(),
        |k: int| (column_offsets(group[k]).1 - column_offsets(group[k]).0) as usize,
    ));
}

/// Rows are chosen from a column only where Arrow can count them: the items of fixed-size lists,
/// the runs of a run-end encoding and the rows of a dense union; and only from structures without
/// unexpected nulls. The columns inside a structure must allow it too.
pub proof fn law_taken_columns_can_be_counted(column: Column, n: int, once: bool)
    requires
        takeable(column, n, once),
    ensures
        column_kind(column) is FixedSizeList ==> n * column_width(column) <= usize::MAX,
        column_kind(column) is RunEnd ==> n <= column_cells(column).len() && column_cells(
            column_children(column)[1],
        ).len() <= 0x7fff_ffff,
        column_kind(column) is DenseUnion ==> n <= 0x7fff_ffff,
        column_kind(column) is Struct ==> struct_sound(column) && forall|i: int|
            #![trigger column_children(column)[i]]
            0 <= i < column_children(column).len() ==> takeable(
                column_children(column)[i],
                n,
                once,
            ),
{
}

/// Rows are sorted by a column of lists or a dictionary alone only where the values inside can be
/// numbered in four bytes.
pub proof fn law_sorted_columns_can_be_numbered(column: Column, i: int)
    requires
        sortable(column),
        0 <= i < column_children(column).len(),
        column_kind(column) is List || column_kind(column) is LargeList || column_kind(
            column,
        ) is ListView || column_kind(column) is LargeListView || column_kind(
            column,
        ) is FixedSizeList || column_kind(column) is Dictionary,
        column_kind(column_children(column)[i]) is Leaf,
        !(column_leaf(column_children(column)[i]) is FixedBinary),
        !(column_leaf(column_children(column)[i]) is Null),
    ensures
        column_cells(column_children(column)[i]).len() <= u32::MAX,
{
}

/// Dictionaries of numbers or truth values without nulls are joined, as long as their rows and
/// their values can be counted.
pub proof fn law_dictionaries_are_joined(group: Seq<Column>)
    requires
        group.len() > 1,
        forall|k: int|
            #![trigger group[k]]
            0 <= k < group.len() ==> {
                let values = column_children(group[k]);
                &&& column_kind(group[k]) is Dictionary
                &&& no_nulls(column_cells(group[k]))
                &&& values.len() == 1
                &&& column_kind(values[0]) is Leaf
                &&& column_leaf(values[0]) is Primitive || column_leaf(values[0]) is Boolean
            },
        sum_of(Seq::new(group.len(), |k: int| column_cells(group[k]).len() as usize)) <= usize::MAX
            / 64,
        sum_of(
            Seq::new(
                group.len(),
                |k: int| column_cells(column_children(group[k])[0]).len() as usize,
            ),
        ) <= usize::MAX / 64,
    ensures
        joinable(group),
{
    let values = inner_group(group, 0);
    assert(lengths(group) =~= Seq::new(
        group.len(),
        |k: int| column_cells(group[k]).len() as usize,
    ));
    assert(lengths(values) =~= Seq::new(
        group.len(),
        |k: int| column_cells(column_children(group[k])[0]).len() as usize,
    ));
    assert(values[0] == column_children(group[0])[0]);
    assert(values_mergeable(values, sum_of(lengths(values))));
}

/// Structures are joined where their fields are, as long as their rows can be counted in four
/// bytes.
pub proof fn law_structures_are_joined(group: Seq<Column>)
    requires
        group.len() > 1,
        column_kind(group[0]) is Struct,
        sum_of(Seq::new(group.len(), |k: int| column_cells(group[k]).len() as usize)) <= u32::MAX
            / 64,
        forall|i: int|
            #![trigger column_children(group[0])[i]]
            0 <= i < column_children(group[0]).len() ==> {
                let field = Seq::new(group.len(), |k: int| column_children(group[k])[i]);
                joinable(field) && group_depth(field) < group_depth(group)
            },
    ensures
        joinable(group),
{
    assert(lengths(group) =~= Seq::new(
        group.len(),
        |k: int| column_cells(group[k]).len() as usize,
    ));
    assert forall|i: int| #![trigger inner_group(group, i)]
        0 <= i < column_children(group[0]).len() implies joinable(inner_group(group, i))
        && group_depth(inner_group(group, i)) < group_depth(group) by {
        let field = Seq::new(group.len(), |k: int| column_children(group[k])[i]);
        assert(inner_group(group, i) =~= field);
    }
}

/// Lists behind 32-bit offsets are joined where the items behind their offsets are, as long as
/// these can be counted in 31 bits.
pub proof fn law_lists_are_joined(group: Seq<Column>, items: Seq<Column>)
    requires
        group.len() > 1,
        column_kind(group[0]) is List,
        column_children(group[0]).len() == 1,
        sum_of(Seq::new(group.len(), |k: int| column_cells(group[k]).len() as usize)) <= usize::MAX
            / 64,
        sum_of(
            Seq::new(
                group.len(),
                |k: int| (column_offsets(group[k]).1 - column_offsets(group[k]).0) as usize,
            ),
        ) <= 0x7fff_ffff,
        items.len() == group.len(),
        forall|k: int|
            #![trigger items[k]]
            0 <= k < group.len() ==> items[k] == slice_of(
                column_children(group[k])[0],
                column_offsets(group[k]).0 as int,
                column_offsets(group[k]).1 - column_offsets(group[k]).0,
            ),
        joinable(items),
        group_depth(items) < group_depth(group),
    ensures
        joinable(group),
{
    assert(lengths(group) =~= Seq::new(
        group.len(),
        |k: int| column_cells(group[k]).len() as usize,
    ));
    assert(spans(group) =~= Seq::new(
        group.len(),
        |k: int| (column_offsets(group[k]).1 - column_offsets(group[k]).0) as usize,
    ));
    assert(spanned_group(group) =~= items);
}

/// There is room for values of fixed size where there are as many already, or where they take no
/// more than the given number of bytes together.
pub proof fn law_room(room: int, width: int, len: int)
    ensures
        has_room(room, width, len) <==> room <= len || room * width <= 0x01ff_ffff,
{
}

/// Structures are copied where their fields are, and take memory where one of their fields does.
pub proof fn law_structures_are_copied(column: Column, room: int, once: bool)
    requires
        column_kind(column) is Struct,
        forall|i: int|
            #![trigger column_children(column)[i]]
            0 <= i < column_children(column).len() ==> {
                &&& column_depth(column_children(column)[i]) < column_depth(column)
                &&& copyable(column_children(column)[i], room, once)
            },
    ensures
        copyable(column, room, once),
        (exists|i: int|
            0 <= i < column_children(column).len() && weighty(
                #[trigger] column_children(column)[i],
            )) ==> weighty(column),
{
}

/// Run-end encodings are joined where at most one of them has rows, or where their values are.
pub proof fn law_run_ends_are_joined(group: Seq<Column>, values: Seq<Column>)
    requires
        group.len() > 1,
        column_kind(group[0]) is RunEnd,
        column_children(group[0]).len() == 2,
        sum_of(Seq::new(group.len(), |k: int| column_cells(group[k]).len() as usize)) <= usize::MAX
            / 64,
        values.len() == filled(group).len(),
        forall|k: int|
            #![trigger values[k]]
            0 <= k < values.len() ==> values[k] == column_children(filled(group)[k])[1],
        values.len() <= 1 || (joinable(values) && group_depth(values) < group_depth(group)),
    ensures
        joinable(group),
{
    assert(lengths(group) =~= Seq::new(
        group.len(),
        |k: int| column_cells(group[k]).len() as usize,
    ));
    assert(inner_group(filled(group), 1) =~= values);
}

/// The columns with rows are those that have rows, in order.
pub proof fn law_filled_columns(group: Seq<Column>, column: Column)
    ensures
        filled(Seq::empty()).len() == 0,
        column_cells(column).len() > 0 ==> filled(group.push(column)) == filled(group).push(column),
        column_cells(column).len() == 0 ==> filled(group.push(column)) == filled(group),
{
    assert(group.push(column).drop_last() =~= group);
}

/// List views behind 32-bit offsets are joined where all items inside are, as long as these can
/// be counted in 31 bits.
pub proof fn law_list_views_are_joined(group: Seq<Column>, items: Seq<Column>)
    requires
        group.len() > 1,
        column_kind(group[0]) is ListView,
        column_children(group[0]).len() == 1,
        sum_of(Seq::new(group.len(), |k: int| column_cells(group[k]).len() as usize)) <= usize::MAX
            / 64,
        items.len() == group.len(),
        forall|k: int|
            #![trigger items[k]]
            0 <= k < group.len() ==> items[k] == column_children(group[k])[0],
        sum_of(Seq::new(items.len(), |k: int| column_cells(items[k]).len() as usize))
            <= 0x7fff_ffff,
        joinable(items),
        group_depth(items) < group_depth(group),
    ensures
        joinable(group),
{
    assert(inner_group(group, 0) =~= items);
    assert(lengths(group) =~= Seq::new(
        group.len(),
        |k: int| column_cells(group[k]).len() as usize,
    ));
    assert(lengths(items) =~= Seq::new(
        items.len(),
        |k: int| column_cells(items[k]).len() as usize,
    ));
}

/// Unions of numbers, truth values, text or bytes are joined, dense ones as long as their rows
/// can be counted in 31 bits.
pub proof fn law_unions_are_joined(group: Seq<Column>)
    requires
        group.len() > 1,
        column_kind(group[0]) is SparseUnion || column_kind(group[0]) is DenseUnion,
        sum_of(Seq::new(group.len(), |k: int| column_cells(group[k]).len() as usize))
            <= 0x7fff_ffff,
        sum_of(Seq::new(group.len(), |k: int| column_cells(group[k]).len() as usize)) <= usize::MAX
            / 64,
        forall|i: int|
            #![trigger column_children(group[0])[i]]
            0 <= i < column_children(group[0]).len() ==> {
                let variant = Seq::new(group.len(), |k: int| column_children(group[k])[i]);
                let leaf = column_leaf(variant[0]);
                &&& column_kind(variant[0]) is Leaf
                &&& column_children(variant[0]).len() == 0
                &&& leaf is Primitive || leaf is Boolean || leaf is Bytes || leaf is LargeBytes
                &&& group_depth(variant) < group_depth(group)
            },
    ensures
        joinable(group),
{
    assert(lengths(group) =~= Seq::new(
        group.len(),
        |k: int| column_cells(group[k]).len() as usize,
    ));
    let total = sum_of(lengths(group));
    assert forall|i: int| #![trigger inner_group(group, i)]
        0 <= i < column_children(group[0]).len() implies group_depth(inner_group(group, i))
        < group_depth(group) && mergeable(inner_group(group, i), total, true) && mergeable(
        inner_group(group, i),
        total,
        false,
    ) by {
        let variant = Seq::new(group.len(), |k: int| column_children(group[k])[i]);
        let first = column_children(group[0])[i];
        assert(inner_group(group, i) =~= variant);
        assert(variant[0] == first);
    }
}

} // verus!
