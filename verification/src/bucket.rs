//! The hash of a row and the bucket that it selects.

use crate::binary_row::BinaryRow;
use vstd::prelude::*;

verus! {

/// The hash of the empty input before it is finished.
pub const SEED: u32 = 42;

/// The four bytes from `4 * i` on as a number, least significant first.
pub open spec fn word_at(data: Seq<u8>, i: int) -> u32 {
    (data[4 * i] + 0x100 * data[4 * i + 1] + 0x1_0000 * data[4 * i + 2] + 0x100_0000 * data[4 * i
        + 3]) as u32
}

/// One word, scrambled.
pub open spec fn mix_word(word: u32) -> u32 {
    let a = word.wrapping_mul(0xcc9e_2d51u32);
    ((a << 15u32) | (a >> 17u32)).wrapping_mul(0x1b87_3593u32)
}

/// The hash so far with one more word taken in.
pub open spec fn mix(hash: u32, word: u32) -> u32 {
    let a = hash ^ mix_word(word);
    ((a << 13u32) | (a >> 19u32)).wrapping_mul(5u32).wrapping_add(0xe654_6b64u32)
}

/// The first `n` words taken in, in order.
pub open spec fn mix_words(data: Seq<u8>, n: nat) -> u32
    decreases n,
{
    if n == 0 {
        SEED
    } else {
        mix(mix_words(data, (n - 1) as nat), word_at(data, n - 1))
    }
}

/// The last step: the length taken in and the bits spread.
pub open spec fn finish(hash: u32, len: u32) -> u32 {
    let a = hash ^ len;
    let b = (a ^ (a >> 16u32)).wrapping_mul(0x85eb_ca6bu32);
    let c = (b ^ (b >> 13u32)).wrapping_mul(0xc2b2_ae35u32);
    c ^ (c >> 16u32)
}

/// A 32-bit pattern read as a signed number.
pub open spec fn signed(x: u32) -> int {
    if x < 0x8000_0000 {
        x as int
    } else {
        x - 0x1_0000_0000
    }
}

/// The hash of a row's bytes, word by word.
pub open spec fn row_hash(data: Seq<u8>) -> int {
    signed(finish(mix_words(data, data.len() / 4), data.len() as u32))
}

/// The magnitude of an integer.
pub open spec fn magnitude(n: int) -> int {
    if n < 0 {
        -n
    } else {
        n
    }
}

/// The bucket of a row: the magnitude of the remainder of its hash by the number of buckets.
pub open spec fn bucket_of(data: Seq<u8>, total_buckets: int) -> int {
    magnitude(row_hash(data)) % total_buckets
}

/// Reads one word.
fn word_exec(data: &Vec<u8>, i: usize) -> (r: u32)
    requires
        4 * i + 3 < data@.len(),
    ensures
        r == word_at(data@, i as int),
{
    let size: usize = data.len();
    let at: usize = 4 * i;
    let b0: u32 = data[at] as u32;
    let b1: u32 = data[at + 1] as u32;
    let b2: u32 = data[at + 2] as u32;
    let b3: u32 = data[at + 3] as u32;
    b0 + 0x100 * b1 + 0x1_0000 * b2 + 0x100_0000 * b3
}

/// Takes one word in.
fn mix_exec(hash: u32, word: u32) -> (r: u32)
    ensures
        r == mix(hash, word),
{
    let a: u32 = word.wrapping_mul(0xcc9e_2d51);
    let b: u32 = ((a << 15u32) | (a >> 17u32)).wrapping_mul(0x1b87_3593);
    let c: u32 = hash ^ b;
    ((c << 13u32) | (c >> 19u32)).wrapping_mul(5).wrapping_add(0xe654_6b64)
}

/// Takes the length in and spreads the bits.
fn finish_exec(hash: u32, len: u32) -> (r: u32)
    ensures
        r == finish(hash, len),
{
    let a: u32 = hash ^ len;
    let b: u32 = (a ^ (a >> 16u32)).wrapping_mul(0x85eb_ca6b);
    let c: u32 = (b ^ (b >> 13u32)).wrapping_mul(0xc2b2_ae35);
    c ^ (c >> 16u32)
}

impl BinaryRow {
    /// The hash of the row's bytes.
    pub fn hash_code(&self) -> (r: i32)
        ensures
            r == row_hash(self.data@),
    {
        let words: usize = self.data.len() / 4;
        let mut hash: u32 = SEED;
        let mut i: usize = 0;
        while i < words
            invariant
                i <= words,
                words == self.data@.len() / 4,
                hash == mix_words(self.data@, i as nat),
            decreases words - i,
        {
            hash = mix_exec(hash, word_exec(&self.data, i));
            i += 1;
        }
        let bits: u32 = finish_exec(hash, self.data.len() as u32);
        if bits < 0x8000_0000 {
            bits as i32
        } else {
            (bits as i64 - 0x1_0000_0000) as i32
        }
    }

    /// The bucket that the row selects among `total_buckets`.
    pub fn bucket(&self, total_buckets: i32) -> (r: i32)
        requires
            total_buckets > 0,
        ensures
            r == bucket_of(self.data@, total_buckets as int),
            0 <= r < total_buckets,
    {
        let hash: i64 = self.hash_code() as i64;
        let size: u64 = if hash < 0 { (-hash) as u64 } else { hash as u64 };
        (size % total_buckets as u64) as i32
    }
}

} // verus!
