//! Where the files of a bucket stand, and how they are told apart.

use crate::files::{file_name, is_file_name, is_uuid, NewFile, WriterConfig};
use crate::text::{decimal, digit, digits};
use vstd::prelude::*;
use vstd::string::*;

verus! {

/// The decimal notation of a number: the code of a digit is forty-eight more than its value, the
/// last digit stands for the remainder by ten and the others for the quotient, and a minus sign
/// stands before the notation of a negative number's opposite.
pub proof fn law_decimal_notation(n: int)
    ensures
        0 <= n < 10 ==> decimal(n).len() == 1 && decimal(n)[0] as u32 == 48 + n,
        n >= 10 ==> {
            &&& decimal(n).len() == decimal(n / 10).len() + 1
            &&& decimal(n).drop_last() == decimal(n / 10)
            &&& decimal(n).last() as u32 == 48 + n % 10
        },
        n < 0 ==> decimal(n) == seq!['-'] + decimal(-n),
{
    if n >= 10 {
        assert(digits(n as nat).drop_last() =~= digits((n / 10) as nat));
    }
}

proof fn lemma_digits_differ(a: nat, b: nat)
    ensures
        digits(a).len() > 0,
        digits(a)[0] != '-',
        digits(a) == digits(b) ==> a == b,
    decreases a + b,
{
    if a >= 10 {
        lemma_digits_differ(a / 10, 0);
        assert(digits(a)[0] == digits(a / 10)[0]);
    }
    if b >= 10 {
        lemma_digits_differ(b / 10, 0);
    }
    if digits(a) == digits(b) {
        assert(digits(a).last() == digits(b).last());
        if a >= 10 && b >= 10 {
            assert(digits(a).drop_last() =~= digits(a / 10));
            assert(digits(b).drop_last() =~= digits(b / 10));
            lemma_digits_differ(a / 10, b / 10);
        }
    }
}

/// Different numbers have different notations.
pub proof fn law_decimal_tells_numbers_apart(a: int, b: int)
    requires
        a != b,
    ensures
        decimal(a) != decimal(b),
{
    let x = if a < 0 {
        (-a) as nat
    } else {
        a as nat
    };
    let y = if b < 0 {
        (-b) as nat
    } else {
        b as nat
    };
    lemma_digits_differ(x, y);
    lemma_digits_differ(y, x);
    if decimal(a) == decimal(b) {
        assert(decimal(a)[0] == decimal(b)[0]);
        if a < 0 && b < 0 {
            assert(decimal(a).skip(1) =~= digits(x));
            assert(decimal(b).skip(1) =~= digits(y));
        }
    }
}

/// A new file stands in the directory of its bucket, which stands in the directory of its
/// partition, if there is one, below the table. It is compressed as the table says.
pub proof fn law_file_stands_in_its_bucket(config: WriterConfig, name: Seq<char>, file: NewFile)
    requires
        config.creates(name, file),
    ensures
        config.partition_path@.len() == 0 ==> file.directory@ == config.table_location@
            + "/bucket-"@ + decimal(config.bucket as int) + "/"@,
        config.partition_path@.len() > 0 ==> file.directory@ == config.table_location@ + "/"@
            + config.partition_path@ + "/bucket-"@ + decimal(config.bucket as int) + "/"@,
        file.path@ == file.directory@ + name,
        file.compression@ == config.file_compression@,
        file.zstd_level == config.file_compression_zstd_level,
{
}

/// The buckets of one partition have directories of their own.
pub proof fn law_buckets_stand_apart(
    a: WriterConfig,
    b: WriterConfig,
    name: Seq<char>,
    other: Seq<char>,
    file: NewFile,
    another: NewFile,
)
    requires
        a.table_location@ == b.table_location@,
        a.partition_path@ == b.partition_path@,
        a.bucket != b.bucket,
        a.creates(name, file),
        b.creates(other, another),
    ensures
        file.directory@ != another.directory@,
{
    let before = if a.partition_path@.len() == 0 {
        a.table_location@ + "/bucket-"@
    } else {
        a.table_location@ + "/"@ + a.partition_path@ + "/bucket-"@
    };
    let x = decimal(a.bucket as int);
    let y = decimal(b.bucket as int);
    let n = before.len() as int;
    reveal_strlit("/");
    law_decimal_tells_numbers_apart(a.bucket as int, b.bucket as int);
    assert(file.directory@.subrange(n, file.directory@.len() - 1) =~= x);
    assert(another.directory@.subrange(n, another.directory@.len() - 1) =~= y);
}

/// The name of a data file is made of fixed words, a random identifier of thirty-six characters,
/// and the number of files before it.
pub proof fn law_file_name(text: Seq<char>, count: int)
    requires
        is_file_name(text, count),
    ensures
        text.len() == 50 + decimal(count).len(),
        text.subrange(0, 5) == "data-"@,
        is_uuid(text.subrange(5, 41)),
        text[41] == '-',
        text.subrange(42, 42int + decimal(count).len()) == decimal(count),
        text.skip(42int + decimal(count).len()) == ".parquet"@,
{
    let uuid = choose|uuid: Seq<char>| is_uuid(uuid) && text == #[trigger] file_name(uuid, count);
    reveal_strlit("data-");
    reveal_strlit("-");
    reveal_strlit(".parquet");
    assert(text.subrange(0, 5) =~= "data-"@);
    assert(text.subrange(5, 41) =~= uuid);
    assert(text.subrange(42, 42int + decimal(count).len()) =~= decimal(count));
    assert(text.skip(42int + decimal(count).len()) =~= ".parquet"@);
}

} // verus!
