//! Which columns Arrow can choose rows from, join and sort: the columns inside a column, at every
//! depth, decide whether what comes of it can be counted and laid out.

use crate::arrow::{
    batch_columns, column_at, column_buffers, column_cells, column_children, column_depth,
    column_key, column_key_type, column_kind, column_leaf, column_offsets, column_width, no_nulls,
    slice_of, struct_sound, Column, ColumnKind, LeafKind, RecordBatch,
};
use vstd::prelude::*;

verus! {

/// As many values as any machine has room for, whatever their width.
pub const SMALL_ROOM: usize = 0x01ff_ffff;

/// The most that 32-bit offsets, and the numbers of rows in dense unions, can count.
pub const MAX_OFFSET: usize = 0x7fff_ffff;

/// The sum of the sizes.
pub open spec fn sum_of(sizes: Seq<usize>) -> int
    decreases sizes.len(),
{
    if sizes.len() == 0 {
        0
    } else {
        sum_of(sizes.drop_last()) + sizes.last()
    }
}

/// The largest number that a key of the given width, with a sign or without, holds.
pub open spec fn key_limit(key: (usize, bool)) -> u64 {
    let (width, signed) = key;
    if width == 1 {
        if signed { 0x7f } else { 0xff }
    } else if width == 2 {
        if signed { 0x7fff } else { 0xffff }
    } else if width == 4 {
        if signed { 0x7fff_ffff } else { 0xffff_ffff }
    } else if width == 8 {
        if signed { 0x7fff_ffff_ffff_ffff } else { 0xffff_ffff_ffff_ffff }
    } else {
        0
    }
}

/// Whether room for so many values of the given width can be had: no more than there are already,
/// or few.
pub open spec fn has_room(room: int, width: int, len: int) -> bool {
    room <= len || room * width <= SMALL_ROOM
}

/// Whether the column is nothing but values of one width, none of them null.
pub open spec fn is_flat(column: Column) -> bool {
    &&& column_kind(column) is Leaf
    &&& column_leaf(column) is Primitive || column_leaf(column) is DayTime
    &&& no_nulls(column_cells(column))
}

/// Whether a column has offsets into one run of values.
pub open spec fn has_offsets(column: Column) -> bool {
    ||| column_kind(column) is List || column_kind(column) is LargeList
    ||| column_kind(column) is Leaf && (column_leaf(column) is Bytes || column_leaf(
        column,
    ) is LargeBytes)
}

/// How many values lie behind the offsets of a column.
pub open spec fn span(column: Column) -> int {
    column_offsets(column).1 - column_offsets(column).0
}

/// How many values the column inside is made room for where the column is.
pub open spec fn room_inside(column: Column, room: int) -> int {
    if column_kind(column) is FixedSizeList {
        room * column_width(column)
    } else {
        room
    }
}

/// Whether each value inside is copied once where each value of a column of this layout is.
pub open spec fn once_inside(kind: ColumnKind, once: bool) -> bool {
    match kind {
        ColumnKind::List
        | ColumnKind::LargeList
        | ColumnKind::FixedSizeList
        | ColumnKind::Struct
        | ColumnKind::SparseUnion => once,
        _ => false,
    }
}

/// Whether each value of the column takes memory, so that there cannot be more of them than fit
/// there.
pub open spec fn weighty(column: Column) -> bool
    decreases column_depth(column),
{
    let inner = column_children(column);
    match column_kind(column) {
        ColumnKind::Leaf => match column_leaf(column) {
            LeafKind::Null => false,
            LeafKind::FixedBinary => column_width(column) > 0,
            _ => true,
        },
        ColumnKind::RunEnd => false,
        ColumnKind::FixedSizeList => column_width(column) > 0 && inner.len() == 1
            && if column_depth(inner[0]) < column_depth(column) {
            weighty(inner[0])
        } else {
            false
        },
        ColumnKind::Struct => exists|i: int|
            #![trigger inner[i]]
            0 <= i < inner.len() && if column_depth(inner[i]) < column_depth(column) {
                weighty(inner[i])
            } else {
                false
            },
        _ => true,
    }
}

/// Whether so many items of lists, each copied once or else at will, fit into memory: they take
/// some, or are few and copied once.
pub open spec fn items_fit(item: Column, count: int, once: bool) -> bool {
    weighty(item) || (once && count <= u32::MAX)
}

/// Whether a column can be copied as far as the columns inside do not matter.
pub open spec fn copyable_here(column: Column, room: int, once: bool) -> bool {
    let inner = column_children(column);
    let len = column_cells(column).len() as int;
    match column_kind(column) {
        ColumnKind::Leaf => match column_leaf(column) {
            LeafKind::DayTime => false,
            LeafKind::FixedBinary => has_room(room, column_width(column) as int, len),
            _ => true,
        },
        ColumnKind::List | ColumnKind::LargeList => inner.len() == 1 && items_fit(
            inner[0],
            column_cells(inner[0]).len() as int,
            once,
        ),
        ColumnKind::ListView | ColumnKind::LargeListView => inner.len() == 1 && items_fit(
            inner[0],
            column_cells(inner[0]).len() as int,
            false,
        ),
        ColumnKind::FixedSizeList => {
            &&& has_room(room, column_width(column) as int, len)
            &&& room * column_width(column) <= usize::MAX
            &&& (inner.len() == 1 && weighty(inner[0])) || (once && len * column_width(column)
                <= SMALL_ROOM)
        },
        ColumnKind::Dictionary => {
            &&& inner.len() == 1
            &&& column_cells(inner[0]).len() <= key_limit(column_key_type(column)) + 1
        },
        ColumnKind::RunEnd => {
            &&& inner.len() == 2
            &&& has_room(room, 1, column_cells(inner[0]).len() as int)
        },
        ColumnKind::DenseUnion => once && len <= MAX_OFFSET,
        _ => true,
    }
}

/// Whether runs of values of the column can be copied, with room made for so many values, each
/// copied once or else at will. There must be room for the values of fixed size and for the runs
/// inside; list items that take no memory themselves are few, since a bit may be kept for each; a
/// dictionary has no more values than its keys tell apart; the rows of a dense union can be
/// counted; and intervals of days and milliseconds are not copied, since they are read as if they
/// were aligned to eight bytes.
pub open spec fn copyable(column: Column, room: int, once: bool) -> bool
    decreases column_depth(column),
{
    let inner = column_children(column);
    let kind = column_kind(column);
    &&& copyable_here(column, room, once)
    &&& kind is Dictionary || forall|i: int|
        #![trigger inner[i]]
        0 <= i < inner.len() ==> if column_depth(inner[i]) < column_depth(column) {
            copyable(inner[i], room_inside(column, room), once_inside(kind, once))
        } else {
            false
        }
}

/// How many values the items of `n` lists are made room for: as many as lists have on average.
pub open spec fn list_room(column: Column, n: int) -> int {
    if column_cells(column).len() == 0 {
        0
    } else {
        (span(column) / column_cells(column).len() as int) * n
    }
}

/// Whether the column inside needs to be looked at for rows of the column to be taken.
pub open spec fn takes_inside(kind: ColumnKind) -> bool {
    match kind {
        ColumnKind::FixedSizeList
        | ColumnKind::Struct
        | ColumnKind::RunEnd
        | ColumnKind::SparseUnion
        | ColumnKind::DenseUnion => true,
        _ => false,
    }
}

/// Whether rows of a column can be taken as far as they are not taken from the columns inside.
pub open spec fn takeable_here(column: Column, n: int, once: bool) -> bool {
    let inner = column_children(column);
    let len = column_cells(column).len() as int;
    let width = column_width(column) as int;
    match column_kind(column) {
        ColumnKind::Leaf => column_leaf(column) is FixedBinary ==> once || has_room(n, width, len),
        ColumnKind::List | ColumnKind::LargeList => {
            let room = list_room(column, n);
            &&& inner.len() == 1
            &&& has_room(room, 1, span(column))
            &&& is_flat(inner[0]) || copyable(inner[0], room, once)
            &&& items_fit(inner[0], column_cells(inner[0]).len() as int, once)
        },
        ColumnKind::FixedSizeList => {
            &&& inner.len() == 1
            &&& once || has_room(n, width, len)
            &&& n * width <= usize::MAX
            &&& is_flat(inner[0]) || column_cells(inner[0]).len() <= u32::MAX
            &&& weighty(inner[0]) || n * width <= SMALL_ROOM
        },
        ColumnKind::Struct => struct_sound(column),
        ColumnKind::RunEnd => {
            &&& inner.len() == 2
            &&& n <= len
            &&& column_cells(inner[1]).len() <= MAX_OFFSET
        },
        ColumnKind::DenseUnion => n <= MAX_OFFSET,
        _ => true,
    }
}

/// Whether `n` rows of the column can be taken, each once or else at will: what is inside lists can
/// be copied, the items of fixed-size lists fit into memory and can be numbered in four bytes,
/// structures have no nulls in fields that are declared to hold none, and the runs and the rows of
/// a dense union can be counted. Runs and the variants of dense unions are taken at will.
pub open spec fn takeable(column: Column, n: int, once: bool) -> bool
    decreases column_depth(column),
{
    let inner = column_children(column);
    let kind = column_kind(column);
    &&& takeable_here(column, n, once)
    &&& !takes_inside(kind) || forall|i: int|
        #![trigger inner[i]]
        0 <= i < inner.len() ==> if column_depth(inner[i]) < column_depth(column) {
            (kind is FixedSizeList && is_flat(inner[i])) || takeable(
                inner[i],
                room_inside(column, n),
                once_inside(kind, once),
            )
        } else {
            false
        }
}

/// Whether the rows of a column of numbers, truth values, text or bytes of any length are ranked
/// where they stand inside a column that is sorted by.
pub open spec fn is_ranked(column: Column) -> bool {
    column_kind(column) is Leaf && !(column_leaf(column) is FixedBinary) && !(column_leaf(
        column,
    ) is Null)
}

/// Whether rows can be sorted by the column alone: what is ranked inside can be numbered in four
/// bytes.
pub open spec fn sortable(column: Column) -> bool
    decreases column_depth(column),
{
    let inner = column_children(column);
    match column_kind(column) {
        ColumnKind::List
        | ColumnKind::LargeList
        | ColumnKind::ListView
        | ColumnKind::LargeListView
        | ColumnKind::FixedSizeList
        | ColumnKind::Dictionary => forall|i: int|
            #![trigger inner[i]]
            0 <= i < inner.len() ==> is_ranked(inner[i]) ==> column_cells(inner[i]).len()
                <= u32::MAX,
        ColumnKind::RunEnd => forall|i: int|
            #![trigger inner[i]]
            0 <= i < inner.len() ==> if column_depth(inner[i]) < column_depth(column) {
                sortable(inner[i])
            } else {
                false
            },
        _ => true,
    }
}

/// How many columns deep the deepest of the columns goes.
pub open spec fn group_depth(group: Seq<Column>) -> nat
    decreases group.len(),
{
    if group.len() == 0 {
        0
    } else {
        let rest = group_depth(group.drop_last());
        if rest > column_depth(group.last()) {
            rest
        } else {
            column_depth(group.last())
        }
    }
}

/// The columns that have rows.
pub open spec fn filled(group: Seq<Column>) -> Seq<Column>
    decreases group.len(),
{
    if group.len() == 0 {
        Seq::empty()
    } else if column_cells(group.last()).len() > 0 {
        filled(group.drop_last()).push(group.last())
    } else {
        filled(group.drop_last())
    }
}

/// The lengths of the columns.
pub open spec fn lengths(group: Seq<Column>) -> Seq<usize> {
    Seq::new(group.len(), |k: int| column_cells(group[k]).len() as usize)
}

/// The numbers of buffers of the columns.
pub open spec fn buffer_counts(group: Seq<Column>) -> Seq<usize> {
    Seq::new(group.len(), |k: int| column_buffers(group[k]))
}

/// How many values lie behind the offsets of each column.
pub open spec fn spans(group: Seq<Column>) -> Seq<usize> {
    Seq::new(group.len(), |k: int| span(group[k]) as usize)
}

/// The `i`-th column inside each column.
pub open spec fn inner_group(group: Seq<Column>, i: int) -> Seq<Column> {
    Seq::new(group.len(), |k: int| column_children(group[k])[i])
}

/// The values behind the offsets of each column.
pub open spec fn spanned_group(group: Seq<Column>) -> Seq<Column> {
    Seq::new(
        group.len(),
        |k: int|
            slice_of(
                column_children(group[k])[0],
                column_offsets(group[k]).0 as int,
                span(group[k]),
            ),
    )
}

/// Whether the columns are laid out alike, with equally many columns inside. Columns that are not
/// are of different types.
pub open spec fn alike(group: Seq<Column>) -> bool {
    forall|k: int|
        #![trigger group[k]]
        0 <= k < group.len() ==> {
            &&& column_kind(group[k]) == column_kind(group[0])
            &&& column_leaf(group[k]) == column_leaf(group[0])
            &&& column_kind(group[0]) is Dictionary ==> column_key_type(group[k])
                == column_key_type(group[0])
            &&& column_children(group[k]).len() == column_children(group[0]).len()
        }
}

/// The most values that the offsets of a column can count.
pub open spec fn offset_limit(column: Column) -> u64 {
    match column_kind(column) {
        ColumnKind::LargeList | ColumnKind::LargeListView => 0x7fff_ffff_ffff_ffff,
        ColumnKind::Leaf => if column_leaf(column) is LargeBytes {
            0x7fff_ffff_ffff_ffff
        } else {
            0x7fff_ffff
        },
        _ => 0x7fff_ffff,
    }
}

/// How many values the dictionaries before the `i`-th have together.
pub open spec fn values_before(group: Seq<Column>, i: int) -> int {
    sum_of(lengths(inner_group(group, 0)).take(i))
}

/// Whether the keys that dictionaries store where they are null can be moved past the values of
/// the dictionaries before.
pub open spec fn null_keys_fit(group: Seq<Column>) -> bool {
    forall|i: int, row: int|
        #![trigger column_cells(group[i])[row]]
        0 <= i < group.len() && 0 <= row < column_cells(group[i]).len() && column_cells(
            group[i],
        )[row] is Null ==> {
            ||| values_before(group, i) > key_limit(column_key_type(group[0]))
            ||| column_key(group[i], row) + values_before(group, i) <= key_limit(
                column_key_type(group[0]),
            )
        }
}

/// Whether lists can be merged as far as the columns inside do not matter: their items fit into
/// memory.
pub open spec fn lists_mergeable(group: Seq<Column>, once: bool) -> bool {
    column_children(group[0]).len() == 1 && items_fit(
        column_children(group[0])[0],
        sum_of(lengths(inner_group(group, 0))),
        once,
    )
}

/// Whether fixed-size lists can be merged as far as the columns inside do not matter: there is room
/// for their items, and these can be counted.
pub open spec fn fixed_lists_mergeable(group: Seq<Column>, room: int, once: bool) -> bool {
    let width = column_width(group[0]) as int;
    let inner = column_children(group[0]);
    let total = sum_of(lengths(group));
    &&& has_room(room, width, total)
    &&& room * width <= usize::MAX
    &&& (inner.len() == 1 && weighty(inner[0])) || (once && total * width <= SMALL_ROOM)
}

/// Whether the values of dictionaries, so many in all, can be put into one column, come what may:
/// offsets and views can count what all of them hold, and there is room.
pub open spec fn values_mergeable(group: Seq<Column>, room: int) -> bool
    decreases group_depth(group),
{
    let first = group[0];
    let inner = column_children(first).len();
    let total = sum_of(lengths(group));
    !alike(group) || match column_kind(first) {
        ColumnKind::Leaf => match column_leaf(first) {
            LeafKind::Primitive | LeafKind::Boolean | LeafKind::Null => true,
            LeafKind::DayTime => false,
            LeafKind::FixedBinary => has_room(room, column_width(first) as int, total),
            LeafKind::Bytes | LeafKind::LargeBytes => sum_of(spans(group)) <= offset_limit(first),
            LeafKind::ByteView => sum_of(buffer_counts(group)) <= u32::MAX,
        },
        ColumnKind::List | ColumnKind::LargeList | ColumnKind::FixedSizeList
        | ColumnKind::Struct => {
            &&& column_kind(first) is List || column_kind(first) is LargeList ==> sum_of(
                spans(group),
            ) <= offset_limit(first) && lists_mergeable(group, true)
            &&& column_kind(first) is FixedSizeList ==> fixed_lists_mergeable(group, room, true)
            &&& forall|i: int|
                #![trigger inner_group(group, i)]
                0 <= i < inner ==> if group_depth(inner_group(group, i)) < group_depth(group) {
                    values_mergeable(inner_group(group, i), room_inside(first, room))
                } else {
                    false
                }
        },
        _ => false,
    }
}

/// Whether dictionaries can be joined: their values can be put into one column, and their keys
/// moved.
pub open spec fn dictionaries_joinable(group: Seq<Column>) -> bool {
    let values = inner_group(group, 0);
    &&& column_children(group[0]).len() == 1
    &&& sum_of(lengths(values)) <= usize::MAX / 64
    &&& values_mergeable(values, sum_of(lengths(values)))
    &&& null_keys_fit(group)
}

/// Whether columns can be merged as far as the columns inside do not matter.
pub open spec fn mergeable_here(group: Seq<Column>, room: int, once: bool) -> bool {
    let first = group[0];
    let inner = column_children(first).len();
    let total = sum_of(lengths(group));
    match column_kind(first) {
        ColumnKind::Leaf => match column_leaf(first) {
            LeafKind::DayTime => false,
            LeafKind::FixedBinary => has_room(room, column_width(first) as int, total),
            LeafKind::ByteView => sum_of(buffer_counts(group)) <= u32::MAX,
            _ => true,
        },
        ColumnKind::List | ColumnKind::LargeList => lists_mergeable(group, once),
        ColumnKind::ListView | ColumnKind::LargeListView => lists_mergeable(group, false),
        ColumnKind::FixedSizeList => fixed_lists_mergeable(group, room, once),
        ColumnKind::Dictionary => dictionaries_joinable(group),
        ColumnKind::RunEnd => {
            &&& inner == 2
            &&& has_room(room, 1, sum_of(lengths(inner_group(group, 0))))
        },
        ColumnKind::DenseUnion => once && total <= MAX_OFFSET,
        _ => true,
    }
}

/// Whether runs of values of several columns can be copied into one, with room made for so many
/// values, each copied once or else at will.
pub open spec fn mergeable(group: Seq<Column>, room: int, once: bool) -> bool
    decreases group_depth(group),
{
    let first = group[0];
    let kind = column_kind(first);
    !alike(group) || {
        &&& mergeable_here(group, room, once)
        &&& kind is Dictionary || forall|i: int|
            #![trigger inner_group(group, i)]
            0 <= i < column_children(first).len() ==> if group_depth(inner_group(group, i))
                < group_depth(group) {
                mergeable(
                    inner_group(group, i),
                    room_inside(first, room),
                    once_inside(kind, once),
                )
            } else {
                false
            }
    }
}

/// Whether columns can be joined into one: whatever offsets, views or lengths there are inside,
/// they can count the values of all columns together. One column alone always can, and columns of
/// different types are refused before anything is counted. Run-end encodings without rows are left
/// out.
pub open spec fn joinable(group: Seq<Column>) -> bool
    decreases group_depth(group),
{
    let first = group[0];
    let kind = column_kind(first);
    let inner = column_children(first).len();
    let depth = group_depth(group);
    let total = sum_of(lengths(group));
    group.len() <= 1 || !alike(group) || {
        &&& total <= usize::MAX / 64 || (kind is Leaf && column_leaf(first) is Null && total
            <= usize::MAX)
        &&& match kind {
            ColumnKind::Leaf => match column_leaf(first) {
                LeafKind::FixedBinary => total * column_width(first) <= usize::MAX / 64,
                LeafKind::ByteView => sum_of(buffer_counts(group)) <= u32::MAX,
                LeafKind::Bytes | LeafKind::LargeBytes => sum_of(spans(group)) <= usize::MAX / 64,
                _ => true,
            },
            ColumnKind::List | ColumnKind::LargeList => {
                &&& inner == 1
                &&& sum_of(spans(group)) <= offset_limit(first)
                &&& if group_depth(spanned_group(group)) < depth {
                    joinable(spanned_group(group))
                } else {
                    false
                }
            },
            ColumnKind::ListView | ColumnKind::LargeListView => {
                &&& inner == 1
                &&& sum_of(lengths(inner_group(group, 0))) <= offset_limit(first)
                &&& if group_depth(inner_group(group, 0)) < depth {
                    joinable(inner_group(group, 0))
                } else {
                    false
                }
            },
            ColumnKind::FixedSizeList | ColumnKind::Struct => {
                &&& items_fit(first, total, true)
                &&& forall|i: int|
                    #![trigger inner_group(group, i)]
                    0 <= i < inner ==> if group_depth(inner_group(group, i)) < depth {
                        joinable(inner_group(group, i))
                    } else {
                        false
                    }
            },
            ColumnKind::RunEnd => {
                let values = inner_group(filled(group), 1);
                &&& inner == 2
                &&& values.len() <= 1 || if group_depth(values) < depth {
                    joinable(values)
                } else {
                    false
                }
            },
            ColumnKind::Dictionary => dictionaries_joinable(group),
            ColumnKind::SparseUnion | ColumnKind::DenseUnion => mergeable(group, total, true),
        }
    }
}

/// Whether no dictionary is among the column and the columns inside.
pub open spec fn dictionary_free(column: Column) -> bool
    decreases column_depth(column),
{
    let inner = column_children(column);
    !(column_kind(column) is Dictionary) && forall|i: int|
        #![trigger inner[i]]
        0 <= i < inner.len() ==> if column_depth(inner[i]) < column_depth(column) {
            dictionary_free(inner[i])
        } else {
            false
        }
}

/// Column `j` of each batch.
pub open spec fn column_group(batches: Seq<RecordBatch>, j: int) -> Seq<Column> {
    Seq::new(batches.len(), |i: int| column_at(batches[i], j))
}

/// The first of the first `n` columns of the batches that cannot be joined.
pub open spec fn first_unjoinable(batches: Seq<RecordBatch>, n: nat) -> Option<int>
    decreases n,
{
    if n == 0 {
        None
    } else {
        match first_unjoinable(batches, (n - 1) as nat) {
            Some(j) => Some(j),
            None => if joinable(column_group(batches, n - 1)) {
                None
            } else {
                Some(n - 1)
            },
        }
    }
}

/// Whether no dictionary is among the first `n` columns of the batches.
pub open spec fn no_dictionaries(batches: Seq<RecordBatch>, n: nat) -> bool {
    forall|i: int, j: int|
        0 <= i < batches.len() && 0 <= j < n ==> dictionary_free(
            #[trigger] column_at(batches[i], j),
        )
}

proof fn lemma_less_deep(a: Seq<Column>, b: Seq<Column>)
    requires
        a.len() == b.len(),
        a.len() > 0,
        forall|i: int| 0 <= i < a.len() ==> column_depth(#[trigger] a[i]) < column_depth(b[i]),
    ensures
        group_depth(a) < group_depth(b),
    decreases a.len(),
{
    reveal_with_fuel(group_depth, 2);
    assert(column_depth(a[a.len() - 1]) < column_depth(b[b.len() - 1]));
    assert(a.last() == a[a.len() - 1] && b.last() == b[b.len() - 1]);
    if a.len() > 1 {
        assert forall|i: int| 0 <= i < a.drop_last().len() implies column_depth(
            #[trigger] a.drop_last()[i],
        ) < column_depth(b.drop_last()[i]) by {
            assert(column_depth(a[i]) < column_depth(b[i]));
        }
        lemma_less_deep(a.drop_last(), b.drop_last());
    }
}

proof fn lemma_sum_grows(sizes: Seq<usize>, k: int)
    requires
        0 <= k <= sizes.len(),
    ensures
        0 <= sum_of(sizes.take(k)) <= sum_of(sizes),
    decreases sizes.len(),
{
    if k < sizes.len() {
        lemma_sum_grows(sizes.drop_last(), k);
        assert(sizes.drop_last().take(k) =~= sizes.take(k));
    } else {
        assert(sizes.take(k) =~= sizes);
        if sizes.len() > 0 {
            lemma_sum_grows(sizes.drop_last(), k - 1);
        }
    }
}

/// The sum of the sizes, if it is within the limit.
fn sum_up_to(sizes: &Vec<usize>, limit: u64) -> (r: Option<u64>)
    ensures
        match r {
            Some(sum) => sum == sum_of(sizes@) && sum <= limit,
            None => sum_of(sizes@) > limit,
        },
{
    let mut sum: u128 = 0;
    let mut k: usize = 0;
    while k < sizes.len()
        invariant
            k <= sizes@.len(),
            sum == sum_of(sizes@.take(k as int)),
            sum <= limit,
        decreases sizes@.len() - k,
    {
        proof {
            assert(sizes@.take(k + 1).drop_last() =~= sizes@.take(k as int));
            lemma_sum_grows(sizes@, k + 1);
        }
        sum = sum + sizes[k] as u128;
        if sum > limit as u128 {
            return None;
        }
        k += 1;
    }
    assert(sizes@.take(k as int) =~= sizes@);
    Some(sum as u64)
}

/// Whether the sizes together are within the limit.
pub fn sum_within(sizes: &Vec<usize>, limit: u64) -> (r: bool)
    ensures
        r == (sum_of(sizes@) <= limit),
{
    sum_up_to(sizes, limit).is_some()
}

/// Whether the product of the numbers is within the limit.
fn product_within(a: usize, b: usize, limit: usize) -> (r: bool)
    ensures
        r == (a * b <= limit),
{
    let product: u128 = {
        proof {
            assert(a * b <= u64::MAX * u64::MAX) by (nonlinear_arith)
                requires
                    0 <= a <= u64::MAX,
                    0 <= b <= u64::MAX,
            ;
        }
        a as u128 * b as u128
    };
    product <= limit as u128
}

/// Whether room for so many values of the given width can be had.
fn check_room(room: usize, width: usize, len: usize) -> (r: bool)
    ensures
        r == has_room(room as int, width as int, len as int),
{
    room <= len || product_within(room, width, SMALL_ROOM)
}

/// Whether the column is nothing but values of one width, none of them null.
fn check_flat(column: &Column) -> (r: bool)
    ensures
        r == is_flat(*column),
{
    match (column.kind(), column.leaf()) {
        (ColumnKind::Leaf, LeafKind::Primitive) | (ColumnKind::Leaf, LeafKind::DayTime) =>
            column.null_count() == 0,
        _ => false,
    }
}

/// The largest number that a key of the given width, with a sign or without, holds.
fn key_limit_of(key: (usize, bool)) -> (r: u64)
    ensures
        r == key_limit(key),
{
    let (width, signed): (usize, bool) = key;
    if width == 1 {
        if signed { 0x7f } else { 0xff }
    } else if width == 2 {
        if signed { 0x7fff } else { 0xffff }
    } else if width == 4 {
        if signed { 0x7fff_ffff } else { 0xffff_ffff }
    } else if width == 8 {
        if signed { 0x7fff_ffff_ffff_ffff } else { 0xffff_ffff_ffff_ffff }
    } else {
        0
    }
}

/// Whether each value inside is copied once where each value of a column of this layout is.
fn is_once_inside(kind: ColumnKind, once: bool) -> (r: bool)
    ensures
        r == once_inside(kind, once),
{
    match kind {
        ColumnKind::List
        | ColumnKind::LargeList
        | ColumnKind::FixedSizeList
        | ColumnKind::Struct
        | ColumnKind::SparseUnion => once,
        _ => false,
    }
}

/// How many values the column inside is made room for where the column is, if they can be
/// counted.
fn room_inside_of(column: &Column, room: usize) -> (r: Option<usize>)
    ensures
        match r {
            Some(inside) => inside == room_inside(*column, room as int),
            None => column_kind(*column) is FixedSizeList && room * column_width(*column)
                > usize::MAX,
        },
{
    match column.kind() {
        ColumnKind::FixedSizeList => {
            let width: usize = column.width();
            if product_within(room, width, usize::MAX) {
                Some(room * width)
            } else {
                None
            }
        },
        _ => Some(room),
    }
}

/// Whether each value of the column takes memory.
fn is_weighty(column: &Column) -> (r: bool)
    ensures
        r == weighty(*column),
    decreases column_depth(*column),
{
    let inner: Vec<Column> = column.nested();
    match (column.kind(), column.leaf()) {
        (ColumnKind::Leaf, LeafKind::Null) => false,
        (ColumnKind::Leaf, LeafKind::FixedBinary) => column.width() > 0,
        (ColumnKind::RunEnd, _) => false,
        (ColumnKind::FixedSizeList, _) => column.width() > 0 && inner.len() == 1 && is_weighty(
            &inner[0],
        ),
        (ColumnKind::Struct, _) => {
            let mut i: usize = 0;
            while i < inner.len()
                invariant
                    i <= inner@.len(),
                    inner@ == column_children(*column),
                    column_kind(*column) is Struct,
                    forall|k: int|
                        0 <= k < inner@.len() ==> column_depth(#[trigger] inner@[k])
                            < column_depth(*column),
                    forall|k: int| 0 <= k < i ==> !weighty(#[trigger] inner@[k]),
                decreases inner@.len() - i,
            {
                if is_weighty(&inner[i]) {
                    assert(weighty(column_children(*column)[i as int]));
                    return true;
                }
                i += 1;
            }
            false
        },
        _ => true,
    }
}

/// Whether so many items of lists, each copied once or else at will, fit into memory.
fn check_items(item: &Column, count: usize, once: bool) -> (r: bool)
    ensures
        r == items_fit(*item, count as int, once),
{
    is_weighty(item) || (once && count as u64 <= u32::MAX as u64)
}

/// Whether a column can be copied as far as the columns inside do not matter.
fn check_copyable_here(column: &Column, room: usize, once: bool) -> (r: bool)
    ensures
        r == copyable_here(*column, room as int, once),
{
    let inner: Vec<Column> = column.nested();
    let len: usize = column.len();
    match column.kind() {
        ColumnKind::Leaf => match column.leaf() {
            LeafKind::DayTime => false,
            LeafKind::FixedBinary => check_room(room, column.width(), len),
            _ => true,
        },
        ColumnKind::List | ColumnKind::LargeList => inner.len() == 1 && check_items(
            &inner[0],
            inner[0].len(),
            once,
        ),
        ColumnKind::ListView | ColumnKind::LargeListView => inner.len() == 1 && check_items(
            &inner[0],
            inner[0].len(),
            false,
        ),
        ColumnKind::FixedSizeList => check_room(room, column.width(), len) && product_within(
            room,
            column.width(),
            usize::MAX,
        ) && ((inner.len() == 1 && is_weighty(&inner[0])) || (once && product_within(
            len,
            column.width(),
            SMALL_ROOM,
        ))),
        ColumnKind::Dictionary => inner.len() == 1 && inner[0].len() as u128 <= key_limit_of(
            column.key_type(),
        ) as u128 + 1,
        ColumnKind::RunEnd => inner.len() == 2 && check_room(room, 1, inner[0].len()),
        ColumnKind::DenseUnion => once && len <= MAX_OFFSET,
        _ => true,
    }
}

/// Whether runs of values of the column can be copied, with room made for so many values, each
/// copied once or else at will.
pub fn is_copyable(column: &Column, room: usize, once: bool) -> (r: bool)
    ensures
        r == copyable(*column, room as int, once),
    decreases column_depth(*column),
{
    if !check_copyable_here(column, room, once) {
        return false;
    }
    let kind: ColumnKind = column.kind();
    match kind {
        ColumnKind::Dictionary => return true,
        _ => {},
    }
    let inside: usize = match room_inside_of(column, room) {
        Some(inside) => inside,
        None => return false,
    };
    let inside_once: bool = is_once_inside(kind, once);
    let inner: Vec<Column> = column.nested();
    let mut i: usize = 0;
    while i < inner.len()
        invariant
            i <= inner@.len(),
            inner@ == column_children(*column),
            kind == column_kind(*column),
            !(kind is Dictionary),
            inside == room_inside(*column, room as int),
            inside_once == once_inside(kind, once),
            forall|k: int|
                0 <= k < inner@.len() ==> column_depth(#[trigger] inner@[k]) < column_depth(
                    *column,
                ),
            forall|k: int|
                0 <= k < i ==> copyable(#[trigger] inner@[k], inside as int, inside_once),
        decreases inner@.len() - i,
    {
        if !is_copyable(&inner[i], inside, inside_once) {
            return false;
        }
        i += 1;
    }
    true
}

/// The first and the last offset of a column that has offsets.
fn offsets_of(column: &Column) -> (r: (usize, usize))
    requires
        has_offsets(*column),
    ensures
        r == column_offsets(*column),
        r.0 <= r.1,
        !(column_kind(*column) is Leaf) ==> r.1 <= column_cells(
            column_children(*column)[0],
        ).len(),
{
    match (column.kind(), column.leaf()) {
        (ColumnKind::LargeList, _) | (ColumnKind::Leaf, LeafKind::LargeBytes) =>
            column.large_offsets(),
        _ => column.offsets(),
    }
}

/// How many values the items of `n` lists are made room for, if that can be counted.
fn list_room_of(column: &Column, n: usize) -> (r: Option<usize>)
    requires
        column_kind(*column) is List || column_kind(*column) is LargeList,
    ensures
        match r {
            Some(room) => room == list_room(*column, n as int),
            None => list_room(*column, n as int) > usize::MAX,
        },
{
    let (first, last): (usize, usize) = offsets_of(column);
    let len: usize = column.len();
    if len == 0 {
        return Some(0);
    }
    let average: usize = (last - first) / len;
    if product_within(average, n, usize::MAX) {
        Some(average * n)
    } else {
        None
    }
}

/// Whether lists can be taken from: what is inside is flat, or can be copied.
fn check_list_takeable(column: &Column, n: usize, once: bool) -> (r: bool)
    requires
        column_kind(*column) is List || column_kind(*column) is LargeList,
    ensures
        r == takeable_here(*column, n as int, once),
{
    let inner: Vec<Column> = column.nested();
    let (first, last): (usize, usize) = offsets_of(column);
    match list_room_of(column, n) {
        Some(room) => inner.len() == 1 && check_room(room, 1, last - first) && (check_flat(
            &inner[0],
        ) || is_copyable(&inner[0], room, once)) && check_items(&inner[0], inner[0].len(), once),
        None => false,
    }
}

/// Whether rows of a column can be taken as far as they are not taken from the columns inside.
fn check_takeable_here(column: &Column, n: usize, once: bool) -> (r: bool)
    ensures
        r == takeable_here(*column, n as int, once),
{
    let inner: Vec<Column> = column.nested();
    let len: usize = column.len();
    match column.kind() {
        ColumnKind::Leaf => match column.leaf() {
            LeafKind::FixedBinary => once || check_room(n, column.width(), len),
            _ => true,
        },
        ColumnKind::List | ColumnKind::LargeList => check_list_takeable(column, n, once),
        ColumnKind::FixedSizeList => inner.len() == 1 && (once || check_room(
            n,
            column.width(),
            len,
        )) && product_within(n, column.width(), usize::MAX) && (check_flat(&inner[0])
            || inner[0].len() as u64 <= u32::MAX as u64) && (is_weighty(&inner[0])
            || product_within(n, column.width(), SMALL_ROOM)),
        ColumnKind::Struct => column.is_sound_struct(),
        ColumnKind::RunEnd => inner.len() == 2 && n <= len && inner[1].len() <= MAX_OFFSET,
        ColumnKind::DenseUnion => n <= MAX_OFFSET,
        _ => true,
    }
}

/// Whether `n` rows of the column can be taken, each once or else at will.
pub fn is_takeable(column: &Column, n: usize, once: bool) -> (r: bool)
    ensures
        r == takeable(*column, n as int, once),
    decreases column_depth(*column),
{
    if !check_takeable_here(column, n, once) {
        return false;
    }
    let kind: ColumnKind = column.kind();
    match kind {
        ColumnKind::FixedSizeList
        | ColumnKind::Struct
        | ColumnKind::RunEnd
        | ColumnKind::SparseUnion
        | ColumnKind::DenseUnion => {},
        _ => return true,
    }
    let inside: usize = match room_inside_of(column, n) {
        Some(inside) => inside,
        None => return false,
    };
    let inside_once: bool = is_once_inside(kind, once);
    let flat_ok: bool = match kind {
        ColumnKind::FixedSizeList => true,
        _ => false,
    };
    let inner: Vec<Column> = column.nested();
    let mut i: usize = 0;
    while i < inner.len()
        invariant
            i <= inner@.len(),
            inner@ == column_children(*column),
            kind == column_kind(*column),
            takes_inside(kind),
            inside == room_inside(*column, n as int),
            inside_once == once_inside(kind, once),
            flat_ok == (kind is FixedSizeList),
            forall|k: int|
                0 <= k < inner@.len() ==> column_depth(#[trigger] inner@[k]) < column_depth(
                    *column,
                ),
            forall|k: int|
                #![trigger inner@[k]]
                0 <= k < i ==> (flat_ok && is_flat(inner@[k])) || takeable(
                    inner@[k],
                    inside as int,
                    inside_once,
                ),
        decreases inner@.len() - i,
    {
        if !(flat_ok && check_flat(&inner[i])) && !is_takeable(&inner[i], inside, inside_once) {
            return false;
        }
        i += 1;
    }
    true
}

/// Whether the rows of a column are ranked where they stand inside a column that is sorted by.
fn check_ranked(column: &Column) -> (r: bool)
    ensures
        r == is_ranked(*column),
{
    match (column.kind(), column.leaf()) {
        (ColumnKind::Leaf, LeafKind::FixedBinary) | (ColumnKind::Leaf, LeafKind::Null) => false,
        (ColumnKind::Leaf, _) => true,
        _ => false,
    }
}

/// Whether rows can be sorted by the column alone.
pub fn is_sortable(column: &Column) -> (r: bool)
    ensures
        r == sortable(*column),
    decreases column_depth(*column),
{
    let kind: ColumnKind = column.kind();
    let by_runs: bool = match kind {
        ColumnKind::List
        | ColumnKind::LargeList
        | ColumnKind::ListView
        | ColumnKind::LargeListView
        | ColumnKind::FixedSizeList
        | ColumnKind::Dictionary => false,
        ColumnKind::RunEnd => true,
        _ => return true,
    };
    let inner: Vec<Column> = column.nested();
    let mut i: usize = 0;
    while i < inner.len()
        invariant
            i <= inner@.len(),
            inner@ == column_children(*column),
            kind == column_kind(*column),
            by_runs == (kind is RunEnd),
            forall|k: int|
                0 <= k < inner@.len() ==> column_depth(#[trigger] inner@[k]) < column_depth(
                    *column,
                ),
            !(kind is Leaf || kind is Struct || kind is SparseUnion || kind is DenseUnion),
            forall|k: int|
                #![trigger inner@[k]]
                0 <= k < i ==> if by_runs {
                    sortable(inner@[k])
                } else {
                    is_ranked(inner@[k]) ==> column_cells(inner@[k]).len() <= u32::MAX
                },
        decreases inner@.len() - i,
    {
        let ok: bool = if by_runs {
            is_sortable(&inner[i])
        } else {
            !check_ranked(&inner[i]) || inner[i].len() as u64 <= u32::MAX as u64
        };
        if !ok {
            return false;
        }
        i += 1;
    }
    true
}

/// Whether two dictionaries have keys of one type.
fn check_same_keys(a: &Column, b: &Column) -> (r: bool)
    requires
        column_kind(*a) is Dictionary,
        column_kind(*b) is Dictionary,
    ensures
        r == (column_key_type(*a) == column_key_type(*b)),
{
    let (a_width, a_signed): (usize, bool) = a.key_type();
    let (b_width, b_signed): (usize, bool) = b.key_type();
    a_width == b_width && a_signed == b_signed
}

/// Whether the columns are laid out alike, with equally many columns inside.
fn check_alike(group: &Vec<Column>) -> (r: bool)
    requires
        group@.len() > 0,
    ensures
        r == alike(group@),
{
    let kind: ColumnKind = group[0].kind();
    let leaf: LeafKind = group[0].leaf();
    let inner: usize = group[0].nested().len();
    let dictionaries: bool = match kind {
        ColumnKind::Dictionary => true,
        _ => false,
    };
    let mut k: usize = 0;
    while k < group.len()
        invariant
            k <= group@.len(),
            group@.len() > 0,
            kind == column_kind(group@[0]),
            leaf == column_leaf(group@[0]),
            inner == column_children(group@[0]).len(),
            dictionaries == (kind is Dictionary),
            alike(group@.take(k as int)),
            k > 0 ==> group@.take(k as int)[0] == group@[0],
        decreases group@.len() - k,
    {
        let column: &Column = &group[k];
        let same: bool = column.kind() == kind && column.leaf() == leaf && column.nested().len()
            == inner && (!dictionaries || check_same_keys(column, &group[0]));
        if !same {
            assert(!alike(group@)) by {
                assert(group@[k as int] == *column);
            }
            return false;
        }
        proof {
            let longer = group@.take(k + 1);
            assert forall|i: int| #![trigger longer[i]] 0 <= i < longer.len() implies {
                &&& column_kind(longer[i]) == column_kind(longer[0])
                &&& column_leaf(longer[i]) == column_leaf(longer[0])
                &&& column_kind(longer[0]) is Dictionary ==> column_key_type(longer[i])
                    == column_key_type(longer[0])
                &&& column_children(longer[i]).len() == column_children(longer[0]).len()
            } by {
                if i < k {
                    assert(longer[i] == group@.take(k as int)[i]);
                }
            }
        }
        k += 1;
    }
    assert(group@.take(k as int) =~= group@);
    true
}

/// The lengths of the columns.
fn lengths_of(group: &Vec<Column>) -> (r: Vec<usize>)
    ensures
        r@ == lengths(group@),
{
    let mut sizes: Vec<usize> = Vec::new();
    let mut k: usize = 0;
    while k < group.len()
        invariant
            k <= group@.len(),
            sizes@ =~= lengths(group@.take(k as int)),
        decreases group@.len() - k,
    {
        sizes.push(group[k].len());
        k += 1;
    }
    assert(group@.take(k as int) =~= group@);
    sizes
}

/// The numbers of buffers of the columns.
fn buffer_counts_of(group: &Vec<Column>) -> (r: Vec<usize>)
    ensures
        r@ == buffer_counts(group@),
{
    let mut sizes: Vec<usize> = Vec::new();
    let mut k: usize = 0;
    while k < group.len()
        invariant
            k <= group@.len(),
            sizes@ =~= buffer_counts(group@.take(k as int)),
        decreases group@.len() - k,
    {
        sizes.push(group[k].buffers());
        k += 1;
    }
    assert(group@.take(k as int) =~= group@);
    sizes
}

/// How many values lie behind the offsets of each column.
fn spans_of(group: &Vec<Column>) -> (r: Vec<usize>)
    requires
        group@.len() > 0,
        alike(group@),
        has_offsets(group@[0]),
    ensures
        r@ == spans(group@),
{
    let mut sizes: Vec<usize> = Vec::new();
    let mut k: usize = 0;
    while k < group.len()
        invariant
            k <= group@.len(),
            group@.len() > 0,
            alike(group@),
            has_offsets(group@[0]),
            sizes@ =~= spans(group@.take(k as int)),
        decreases group@.len() - k,
    {
        assert(has_offsets(group@[k as int]));
        let (first, last): (usize, usize) = offsets_of(&group[k]);
        sizes.push(last - first);
        k += 1;
    }
    assert(group@.take(k as int) =~= group@);
    sizes
}

/// The `i`-th column inside each column.
fn inner_group_of(group: &Vec<Column>, i: usize) -> (r: Vec<Column>)
    requires
        group@.len() > 0,
        alike(group@),
        i < column_children(group@[0]).len(),
    ensures
        r@ == inner_group(group@, i as int),
        r@.len() > 0,
        group_depth(r@) < group_depth(group@),
{
    let mut made: Vec<Column> = Vec::new();
    let mut k: usize = 0;
    while k < group.len()
        invariant
            k <= group@.len(),
            group@.len() > 0,
            alike(group@),
            i < column_children(group@[0]).len(),
            made@ =~= inner_group(group@.take(k as int), i as int),
            forall|j: int|
                0 <= j < k ==> column_depth(#[trigger] made@[j]) < column_depth(group@[j]),
        decreases group@.len() - k,
    {
        let mut inner: Vec<Column> = group[k].nested();
        assert(column_children(group@[k as int]).len() == column_children(group@[0]).len());
        made.push(inner.swap_remove(i));
        k += 1;
    }
    assert(group@.take(k as int) =~= group@);
    proof {
        lemma_less_deep(made@, group@);
    }
    made
}

/// The values behind the offsets of each column.
fn spanned_group_of(group: &Vec<Column>) -> (r: Vec<Column>)
    requires
        group@.len() > 0,
        alike(group@),
        column_kind(group@[0]) is List || column_kind(group@[0]) is LargeList,
        column_children(group@[0]).len() == 1,
    ensures
        r@ == spanned_group(group@),
        r@.len() > 0,
        group_depth(r@) < group_depth(group@),
{
    let mut made: Vec<Column> = Vec::new();
    let mut k: usize = 0;
    while k < group.len()
        invariant
            k <= group@.len(),
            group@.len() > 0,
            alike(group@),
            column_kind(group@[0]) is List || column_kind(group@[0]) is LargeList,
            column_children(group@[0]).len() == 1,
            made@ =~= spanned_group(group@.take(k as int)),
            forall|i: int|
                0 <= i < k ==> column_depth(#[trigger] made@[i]) < column_depth(group@[i]),
        decreases group@.len() - k,
    {
        assert(has_offsets(group@[k as int]));
        let inner: Vec<Column> = group[k].nested();
        let (first, last): (usize, usize) = offsets_of(&group[k]);
        made.push(inner[0].slice(first, last - first));
        k += 1;
    }
    assert(group@.take(k as int) =~= group@);
    proof {
        lemma_less_deep(made@, group@);
    }
    made
}

/// The most values that the offsets of a column can count.
fn offset_limit_of(column: &Column) -> (r: u64)
    ensures
        r == offset_limit(*column),
{
    match (column.kind(), column.leaf()) {
        (ColumnKind::LargeList, _) | (ColumnKind::LargeListView, _) => 0x7fff_ffff_ffff_ffff,
        (ColumnKind::Leaf, LeafKind::LargeBytes) => 0x7fff_ffff_ffff_ffff,
        _ => 0x7fff_ffff,
    }
}

/// Whether room for so many values of the given width can be had, beside as many as the sizes
/// sum up to.
fn check_room_beside(room: usize, width: usize, sizes: &Vec<usize>) -> (r: bool)
    ensures
        r == has_room(room as int, width as int, sum_of(sizes@)),
{
    match sum_up_to(sizes, usize::MAX as u64) {
        Some(total) => check_room(room, width, total as usize),
        None => true,
    }
}

/// The key that a dictionary stores in a row.
fn key_at(column: &Column, row: usize) -> (r: i128)
    requires
        column_kind(*column) is Dictionary,
        row < column_cells(*column).len(),
    ensures
        r == column_key(*column, row as int),
        -0x8000_0000_0000_0000 <= r <= 0xffff_ffff_ffff_ffff,
{
    let (_, signed): (usize, bool) = column.key_type();
    if signed {
        column.signed_key(row) as i128
    } else {
        column.unsigned_key(row) as i128
    }
}

/// Whether the keys that a dictionary stores where it is null can be moved by `before`.
fn check_null_keys(column: &Column, before: u64, limit: u64) -> (r: bool)
    requires
        column_kind(*column) is Dictionary,
    ensures
        r == forall|row: int|
            0 <= row < column_cells(*column).len() && #[trigger] column_cells(*column)[row] is Null
                ==> before > limit || column_key(*column, row) + before <= limit,
{
    if before > limit || column.null_count() == 0 {
        return true;
    }
    let len: usize = column.len();
    let mut row: usize = 0;
    while row < len
        invariant
            row <= len,
            len == column_cells(*column).len(),
            column_kind(*column) is Dictionary,
            before <= limit,
            forall|k: int|
                0 <= k < row && #[trigger] column_cells(*column)[k] is Null ==> column_key(
                    *column,
                    k,
                ) + before <= limit,
        decreases len - row,
    {
        if column.is_null(row) && key_at(column, row) + before as i128 > limit as i128 {
            return false;
        }
        row += 1;
    }
    true
}

/// Whether the keys that dictionaries store where they are null can be moved past the values of
/// the dictionaries before.
fn check_null_keys_fit(group: &Vec<Column>, sizes: &Vec<usize>) -> (r: bool)
    requires
        group@.len() > 0,
        alike(group@),
        column_kind(group@[0]) is Dictionary,
        sizes@ == lengths(inner_group(group@, 0)),
        sum_of(sizes@) <= usize::MAX / 64,
    ensures
        r == null_keys_fit(group@),
{
    let limit: u64 = key_limit_of(group[0].key_type());
    let mut before: u64 = 0;
    let mut i: usize = 0;
    while i < group.len()
        invariant
            i <= group@.len(),
            group@.len() > 0,
            alike(group@),
            column_kind(group@[0]) is Dictionary,
            sizes@ == lengths(inner_group(group@, 0)),
            sum_of(sizes@) <= usize::MAX / 64,
            limit == key_limit(column_key_type(group@[0])),
            before == values_before(group@, i as int),
            forall|k: int, row: int|
                #![trigger column_cells(group@[k])[row]]
                0 <= k < i && 0 <= row < column_cells(group@[k]).len() && column_cells(
                    group@[k],
                )[row] is Null ==> values_before(group@, k) > limit || column_key(group@[k], row)
                    + values_before(group@, k) <= limit,
        decreases group@.len() - i,
    {
        let column: &Column = &group[i];
        assert(group@[i as int] == *column && column_kind(*column) is Dictionary);
        if !check_null_keys(column, before, limit) {
            return false;
        }
        proof {
            assert(sizes@.take(i + 1).drop_last() =~= sizes@.take(i as int));
            lemma_sum_grows(sizes@, i + 1);
        }
        before = before + sizes[i] as u64;
        i += 1;
    }
    true
}

/// Whether lists can be merged as far as the columns inside do not matter.
fn check_lists(group: &Vec<Column>, once: bool) -> (r: bool)
    requires
        group@.len() > 0,
        alike(group@),
    ensures
        r == lists_mergeable(group@, once),
{
    let inner: Vec<Column> = group[0].nested();
    inner.len() == 1 && (is_weighty(&inner[0]) || (once && sum_within(
        &lengths_of(&inner_group_of(group, 0)),
        u32::MAX as u64,
    )))
}

/// Whether fixed-size lists can be merged as far as the columns inside do not matter.
fn check_fixed_lists(group: &Vec<Column>, room: usize, once: bool) -> (r: bool)
    requires
        group@.len() > 0,
    ensures
        r == fixed_lists_mergeable(group@, room as int, once),
{
    let width: usize = group[0].width();
    let inner: Vec<Column> = group[0].nested();
    let sizes: Vec<usize> = lengths_of(group);
    let few: bool = match sum_up_to(&sizes, usize::MAX as u64) {
        Some(total) => product_within(total as usize, width, SMALL_ROOM),
        None => width == 0,
    };
    proof {
        let total = sum_of(sizes@);
        if width == 0 {
            assert(total * width == 0) by (nonlinear_arith)
                requires
                    width == 0,
            ;
        } else if total > usize::MAX {
            assert(total * width >= total) by (nonlinear_arith)
                requires
                    total >= 0,
                    width >= 1,
            ;
        }
    }
    check_room_beside(room, width, &sizes) && product_within(room, width, usize::MAX) && ((
    inner.len() == 1 && is_weighty(&inner[0])) || (once && few))
}

/// Whether the values of dictionaries, so many in all, can be put into one column.
#[verifier::rlimit(40)]
fn are_values_mergeable(group: &Vec<Column>, room: usize) -> (r: bool)
    requires
        group@.len() > 0,
    ensures
        r == values_mergeable(group@, room as int),
    decreases group_depth(group@),
{
    if !check_alike(group) {
        return true;
    }
    let first: &Column = &group[0];
    match (first.kind(), first.leaf()) {
        (ColumnKind::Leaf, LeafKind::Primitive)
        | (ColumnKind::Leaf, LeafKind::Boolean)
        | (ColumnKind::Leaf, LeafKind::Null) => return true,
        (ColumnKind::Leaf, LeafKind::DayTime) => return false,
        (ColumnKind::Leaf, LeafKind::FixedBinary) => {
            return check_room_beside(room, first.width(), &lengths_of(group));
        },
        (ColumnKind::Leaf, LeafKind::Bytes) | (ColumnKind::Leaf, LeafKind::LargeBytes) => {
            return sum_within(&spans_of(group), offset_limit_of(first));
        },
        (ColumnKind::Leaf, LeafKind::ByteView) => {
            return sum_within(&buffer_counts_of(group), u32::MAX as u64);
        },
        (ColumnKind::List, _) | (ColumnKind::LargeList, _) => {
            if !sum_within(&spans_of(group), offset_limit_of(first)) || !check_lists(group, true) {
                return false;
            }
        },
        (ColumnKind::FixedSizeList, _) => {
            if !check_fixed_lists(group, room, true) {
                return false;
            }
        },
        (ColumnKind::Struct, _) => {},
        _ => return false,
    }
    let inside: usize = match room_inside_of(first, room) {
        Some(inside) => inside,
        None => return false,
    };
    let count: usize = first.nested().len();
    let mut i: usize = 0;
    while i < count
        invariant
            i <= count,
            group@.len() > 0,
            alike(group@),
            first == group@[0],
            count == column_children(group@[0]).len(),
            inside == room_inside(group@[0], room as int),
            column_kind(group@[0]) is List || column_kind(group@[0]) is LargeList || column_kind(
                group@[0],
            ) is FixedSizeList || column_kind(group@[0]) is Struct,
            forall|k: int|
                #![trigger inner_group(group@, k)]
                0 <= k < i ==> group_depth(inner_group(group@, k)) < group_depth(group@)
                    && values_mergeable(inner_group(group@, k), inside as int),
        decreases count - i,
    {
        let inner: Vec<Column> = inner_group_of(group, i);
        if !are_values_mergeable(&inner, inside) {
            return false;
        }
        i += 1;
    }
    true
}

/// Whether dictionaries can be joined: their values can be put into one column, and their keys
/// moved.
fn are_dictionaries_joinable(group: &Vec<Column>) -> (r: bool)
    requires
        group@.len() > 0,
        alike(group@),
        column_kind(group@[0]) is Dictionary,
    ensures
        r == dictionaries_joinable(group@),
{
    if group[0].nested().len() != 1 {
        return false;
    }
    let values: Vec<Column> = inner_group_of(group, 0);
    let sizes: Vec<usize> = lengths_of(&values);
    match sum_up_to(&sizes, (usize::MAX / 64) as u64) {
        Some(total) => are_values_mergeable(&values, total as usize) && check_null_keys_fit(
            group,
            &sizes,
        ),
        None => false,
    }
}

/// Whether columns can be merged as far as the columns inside do not matter.
fn check_mergeable_here(group: &Vec<Column>, room: usize, once: bool) -> (r: bool)
    requires
        group@.len() > 0,
        alike(group@),
    ensures
        r == mergeable_here(group@, room as int, once),
{
    let first: &Column = &group[0];
    match (first.kind(), first.leaf()) {
        (ColumnKind::Leaf, LeafKind::DayTime) => false,
        (ColumnKind::Leaf, LeafKind::FixedBinary) => check_room_beside(
            room,
            first.width(),
            &lengths_of(group),
        ),
        (ColumnKind::Leaf, LeafKind::ByteView) => sum_within(
            &buffer_counts_of(group),
            u32::MAX as u64,
        ),
        (ColumnKind::List, _) | (ColumnKind::LargeList, _) => check_lists(group, once),
        (ColumnKind::ListView, _) | (ColumnKind::LargeListView, _) => check_lists(group, false),
        (ColumnKind::FixedSizeList, _) => check_fixed_lists(group, room, once),
        (ColumnKind::Dictionary, _) => are_dictionaries_joinable(group),
        (ColumnKind::RunEnd, _) => first.nested().len() == 2 && check_room_beside(
            room,
            1,
            &lengths_of(&inner_group_of(group, 0)),
        ),
        (ColumnKind::DenseUnion, _) => once && sum_within(&lengths_of(group), MAX_OFFSET as u64),
        _ => true,
    }
}

/// Whether runs of values of several columns can be copied into one, with room made for so many
/// values, each copied once or else at will.
#[verifier::rlimit(40)]
fn are_mergeable(group: &Vec<Column>, room: usize, once: bool) -> (r: bool)
    requires
        group@.len() > 0,
    ensures
        r == mergeable(group@, room as int, once),
    decreases group_depth(group@),
{
    if !check_alike(group) {
        return true;
    }
    if !check_mergeable_here(group, room, once) {
        return false;
    }
    let first: &Column = &group[0];
    let kind: ColumnKind = first.kind();
    match kind {
        ColumnKind::Dictionary => return true,
        _ => {},
    }
    let inside: usize = match room_inside_of(first, room) {
        Some(inside) => inside,
        None => return false,
    };
    let inside_once: bool = is_once_inside(kind, once);
    let count: usize = first.nested().len();
    let mut i: usize = 0;
    while i < count
        invariant
            i <= count,
            group@.len() > 0,
            alike(group@),
            first == group@[0],
            kind == column_kind(group@[0]),
            !(kind is Dictionary),
            count == column_children(group@[0]).len(),
            inside == room_inside(group@[0], room as int),
            inside_once == once_inside(kind, once),
            forall|k: int|
                #![trigger inner_group(group@, k)]
                0 <= k < i ==> group_depth(inner_group(group@, k)) < group_depth(group@)
                    && mergeable(inner_group(group@, k), inside as int, inside_once),
        decreases count - i,
    {
        let inner: Vec<Column> = inner_group_of(group, i);
        if !are_mergeable(&inner, inside, inside_once) {
            return false;
        }
        i += 1;
    }
    true
}

/// Whether the values of all columns together can be counted.
fn check_total(group: &Vec<Column>) -> (r: Option<usize>)
    requires
        group@.len() > 0,
    ensures
        match r {
            Some(total) => {
                &&& total == sum_of(lengths(group@))
                &&& total <= usize::MAX / 64 || (column_kind(group@[0]) is Leaf && column_leaf(
                    group@[0],
                ) is Null)
            },
            None => {
                &&& sum_of(lengths(group@)) > usize::MAX / 64
                &&& sum_of(lengths(group@)) <= usize::MAX ==> !(column_kind(group@[0]) is Leaf
                    && column_leaf(group@[0]) is Null)
            },
        },
{
    let limit: usize = match (group[0].kind(), group[0].leaf()) {
        (ColumnKind::Leaf, LeafKind::Null) => usize::MAX,
        _ => usize::MAX / 64,
    };
    match sum_up_to(&lengths_of(group), limit as u64) {
        Some(total) => Some(total as usize),
        None => None,
    }
}

/// The values of the run-end encodings that have rows.
fn filled_values_of(group: &Vec<Column>) -> (r: Vec<Column>)
    requires
        group@.len() > 0,
        alike(group@),
        column_children(group@[0]).len() == 2,
    ensures
        r@ == inner_group(filled(group@), 1),
        r@.len() > 0 ==> group_depth(r@) < group_depth(group@),
{
    let mut made: Vec<Column> = Vec::new();
    let mut k: usize = 0;
    while k < group.len()
        invariant
            k <= group@.len(),
            group@.len() > 0,
            alike(group@),
            column_children(group@[0]).len() == 2,
            made@ == inner_group(filled(group@.take(k as int)), 1),
            made@.len() > 0 ==> group_depth(made@) < group_depth(group@.take(k as int)),
        decreases group@.len() - k,
    {
        let ghost before = made@;
        let ghost shorter = group@.take(k as int);
        let ghost longer = group@.take(k + 1);
        assert(longer.drop_last() =~= shorter);
        assert(longer.last() == group@[k as int]);
        if group[k].len() > 0 {
            assert(column_children(group@[k as int]).len() == column_children(group@[0]).len());
            let mut inner: Vec<Column> = group[k].nested();
            made.push(inner.swap_remove(1));
            proof {
                reveal_with_fuel(group_depth, 2);
                assert(made@.drop_last() =~= before);
                assert(made@ =~= inner_group(filled(longer), 1));
            }
        }
        k += 1;
    }
    assert(group@.take(k as int) =~= group@);
    made
}

/// Whether the columns inside each column can be joined in turn, one by one.
#[verifier::rlimit(40)]
fn are_inner_joinable(group: &Vec<Column>) -> (r: bool)
    requires
        group@.len() > 0,
        alike(group@),
    ensures
        r == forall|i: int|
            #![trigger inner_group(group@, i)]
            0 <= i < column_children(group@[0]).len() ==> group_depth(inner_group(group@, i))
                < group_depth(group@) && joinable(inner_group(group@, i)),
    decreases group_depth(group@), 0int,
{
    let count: usize = group[0].nested().len();
    let mut i: usize = 0;
    while i < count
        invariant
            i <= count,
            group@.len() > 0,
            alike(group@),
            count == column_children(group@[0]).len(),
            forall|k: int|
                #![trigger inner_group(group@, k)]
                0 <= k < i ==> group_depth(inner_group(group@, k)) < group_depth(group@)
                    && joinable(inner_group(group@, k)),
        decreases count - i,
    {
        let inner: Vec<Column> = inner_group_of(group, i);
        if !are_joinable(&inner) {
            return false;
        }
        i += 1;
    }
    true
}

/// Whether columns can be joined into one.
#[verifier::rlimit(40)]
pub fn are_joinable(group: &Vec<Column>) -> (r: bool)
    ensures
        r == joinable(group@),
    decreases group_depth(group@), 1int,
{
    if group.len() <= 1 || !check_alike(group) {
        return true;
    }
    let first: &Column = &group[0];
    let total: usize = match check_total(group) {
        Some(total) => total,
        None => return false,
    };
    match (first.kind(), first.leaf()) {
        (ColumnKind::Leaf, LeafKind::FixedBinary) => product_within(
            total,
            first.width(),
            usize::MAX / 64,
        ),
        (ColumnKind::Leaf, LeafKind::ByteView) => sum_within(
            &buffer_counts_of(group),
            u32::MAX as u64,
        ),
        (ColumnKind::Leaf, LeafKind::Bytes) | (ColumnKind::Leaf, LeafKind::LargeBytes) =>
            sum_within(&spans_of(group), (usize::MAX / 64) as u64),
        (ColumnKind::Leaf, _) => true,
        (ColumnKind::List, _) | (ColumnKind::LargeList, _) => {
            first.nested().len() == 1 && sum_within(&spans_of(group), offset_limit_of(first))
                && are_joinable(&spanned_group_of(group))
        },
        (ColumnKind::ListView, _) | (ColumnKind::LargeListView, _) => {
            if first.nested().len() != 1 {
                return false;
            }
            let values: Vec<Column> = inner_group_of(group, 0);
            sum_within(&lengths_of(&values), offset_limit_of(first)) && are_joinable(&values)
        },
        (ColumnKind::FixedSizeList, _) | (ColumnKind::Struct, _) => check_items(first, total, true)
            && are_inner_joinable(group),
        (ColumnKind::RunEnd, _) => {
            if first.nested().len() != 2 {
                return false;
            }
            let values: Vec<Column> = filled_values_of(group);
            values.len() <= 1 || are_joinable(&values)
        },
        (ColumnKind::Dictionary, _) => are_dictionaries_joinable(group),
        (ColumnKind::SparseUnion, _) | (ColumnKind::DenseUnion, _) => are_mergeable(
            group,
            total,
            true,
        ),
    }
}

/// Finds the first column of the batches that cannot be joined.
pub(crate) fn find_unjoinable(batches: &Vec<RecordBatch>, n: usize) -> (r: Option<usize>)
    requires
        forall|i: int| 0 <= i < batches@.len() ==> batch_columns(#[trigger] batches@[i]).len() >= n,
    ensures
        match r {
            Some(j) => first_unjoinable(batches@, n as nat) == Some(j as int) && j < n,
            None => first_unjoinable(batches@, n as nat) is None && forall|j: int|
                0 <= j < n ==> joinable(#[trigger] column_group(batches@, j)),
        },
{
    let mut j: usize = 0;
    while j < n
        invariant
            j <= n,
            forall|i: int|
                0 <= i < batches@.len() ==> batch_columns(#[trigger] batches@[i]).len() >= n,
            first_unjoinable(batches@, j as nat) is None,
            forall|k: int| 0 <= k < j ==> joinable(#[trigger] column_group(batches@, k)),
        decreases n - j,
    {
        let mut group: Vec<Column> = Vec::new();
        let mut i: usize = 0;
        while i < batches.len()
            invariant
                i <= batches@.len(),
                j < n,
                forall|k: int|
                    0 <= k < batches@.len() ==> batch_columns(#[trigger] batches@[k]).len() >= n,
                group@ =~= column_group(batches@.take(i as int), j as int),
            decreases batches@.len() - i,
        {
            group.push(batches[i].column(j));
            i += 1;
        }
        assert(batches@.take(i as int) =~= batches@);
        if !are_joinable(&group) {
            proof {
                lemma_unjoinable_stays(batches@, (j + 1) as nat, n as nat);
            }
            return Some(j);
        }
        j += 1;
    }
    None
}

proof fn lemma_unjoinable_stays(batches: Seq<RecordBatch>, k: nat, n: nat)
    requires
        k <= n,
        first_unjoinable(batches, k) is Some,
    ensures
        first_unjoinable(batches, n) == first_unjoinable(batches, k),
    decreases n - k,
{
    if k < n {
        lemma_unjoinable_stays(batches, k, (n - 1) as nat);
    }
}

} // verus!
