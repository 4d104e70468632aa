//! Where the sequence numbers of a write begin.

use crate::key_value_laws::numbered;
use crate::meta::DataFileMeta;
use vstd::prelude::*;

verus! {

/// The largest of the numbers, or zero where there are none.
pub open spec fn largest(numbers: Seq<i64>) -> int
    decreases numbers.len(),
{
    if numbers.len() == 0 {
        0
    } else if numbers.len() == 1 {
        numbers[0] as int
    } else if numbers.last() > largest(numbers.drop_last()) {
        numbers.last() as int
    } else {
        largest(numbers.drop_last())
    }
}

/// The first sequence number of a write to a table whose latest snapshot has files with the given
/// largest sequence numbers, or to a table without a snapshot.
pub fn next_sequence_number(latest: &Option<Vec<i64>>) -> (r: i64)
    requires
        latest matches Some(numbers) ==> largest(numbers@) < i64::MAX,
    ensures
        r == match latest {
            None => 0,
            Some(numbers) => largest(numbers@) + 1,
        },
        latest matches Some(numbers) ==> forall|i: int|
            0 <= i < numbers@.len() ==> (#[trigger] numbers@[i]) < r,
{
    proof {
        if let Some(numbers) = latest {
            assert forall|i: int| 0 <= i < numbers@.len() implies (#[trigger] numbers@[i])
                <= largest(numbers@) by {
                lemma_largest(numbers@, i);
            }
        }
    }
    match latest {
        None => 0,
        Some(numbers) => {
            if numbers.len() == 0 {
                return 1;
            }
            let mut max: i64 = numbers[0];
            let mut i: usize = 1;
            assert(numbers@.take(1) =~= seq![numbers@[0]]);
            while i < numbers.len()
                invariant
                    1 <= i <= numbers@.len(),
                    max == largest(numbers@.take(i as int)),
                decreases numbers@.len() - i,
            {
                assert(numbers@.take(i + 1).drop_last() =~= numbers@.take(i as int));
                if numbers[i] > max {
                    max = numbers[i];
                }
                i += 1;
            }
            assert(numbers@.take(i as int) =~= numbers@);
            max + 1
        },
    }
}

proof fn lemma_largest(numbers: Seq<i64>, i: int)
    requires
        0 <= i < numbers.len(),
    ensures
        numbers[i] <= largest(numbers),
    decreases numbers.len(),
{
    if i < numbers.len() - 1 {
        lemma_largest(numbers.drop_last(), i);
    } else if numbers.len() > 1 {
        assert(numbers.last() == numbers[i]);
    }
}

/// The largest of the numbers is one of them, and none is larger; it is zero where there are
/// none.
pub proof fn law_largest(numbers: Seq<i64>)
    ensures
        numbers.len() == 0 ==> largest(numbers) == 0,
        numbers.len() > 0 ==> exists|i: int|
            0 <= i < numbers.len() && largest(numbers) == #[trigger] numbers[i],
        forall|i: int| 0 <= i < numbers.len() ==> (#[trigger] numbers[i]) <= largest(numbers),
    decreases numbers.len(),
{
    assert forall|i: int| 0 <= i < numbers.len() implies (#[trigger] numbers[i]) <= largest(
        numbers,
    ) by {
        lemma_largest(numbers, i);
    }
    if numbers.len() == 1 {
        assert(largest(numbers) == numbers[0]);
    } else if numbers.len() > 1 {
        let rest = numbers.drop_last();
        law_largest(rest);
        if numbers.last() > largest(rest) {
            assert(largest(numbers) == numbers[numbers.len() - 1]);
        } else {
            let i = choose|i: int| 0 <= i < rest.len() && largest(rest) == #[trigger] rest[i];
            assert(largest(numbers) == numbers[i]);
        }
    }
}

/// A write that begins after the latest snapshot numbers its rows above every row of the
/// snapshot: of two rows with one key, the one written later has the larger number.
pub proof fn law_later_writes_number_above(
    numbers: Seq<i64>,
    i: int,
    files: Seq<DataFileMeta>,
    limit: int,
    j: int,
)
    requires
        0 <= i < numbers.len(),
        0 <= j < files.len(),
        numbered(files, largest(numbers) + 1, limit),
    ensures
        numbers[i] < files[j].min_sequence_number,
{
    lemma_largest(numbers, i);
}

} // verus!
