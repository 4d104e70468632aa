//! What decides the bucket of a row: every value of its bucket columns, and nothing else.

use crate::arrow::Cell;
use crate::binary_row::row_data;
use crate::bucket::{bucket_of, finish, mix, mix_word, mix_words, row_hash, word_at};
use crate::datum::row_cell;
use crate::route::Router;
use vstd::arithmetic::div_mod::{lemma_mul_mod_noop, lemma_small_mod};
use vstd::prelude::*;

verus! {

/// The bucket of a row is that of the values of all its bucket columns, in order, wherever the
/// table has more than one bucket and a bucket column; else it is the first.
pub proof fn law_bucket_of_a_row(router: Router, columns: Seq<Seq<Cell>>, row: int)
    ensures
        router.total_buckets > 1 && router.bucket_key_indices@.len() >= 1 ==> router.route(
            columns,
            row,
        ).bucket == bucket_of(
            row_data(
                Seq::new(
                    router.bucket_key_indices@.len(),
                    |k: int|
                        row_cell(
                            columns[router.bucket_key_indices@[k] as int][row],
                            router.fields@[router.bucket_key_indices@[k] as int].data_type,
                        ),
                ),
            ),
            router.total_buckets as int,
        ),
        router.total_buckets <= 1 || router.bucket_key_indices@.len() == 0 ==> router.route(
            columns,
            row,
        ).bucket == 0,
{
    let cells = router.cells_at(columns, row, router.bucket_key_indices@);
    assert(cells =~= Seq::new(
        router.bucket_key_indices@.len(),
        |k: int|
            row_cell(
                columns[router.bucket_key_indices@[k] as int][row],
                router.fields@[router.bucket_key_indices@[k] as int].data_type,
            ),
    ));
}

/// The bucket is the magnitude of the remainder of the hash: opposite hashes share a bucket.
pub proof fn law_bucket_is_the_remainder(data: Seq<u8>, total_buckets: int)
    requires
        total_buckets > 0,
    ensures
        0 <= bucket_of(data, total_buckets) < total_buckets,
        row_hash(data) >= 0 ==> bucket_of(data, total_buckets) == row_hash(data) % total_buckets,
        row_hash(data) < 0 ==> bucket_of(data, total_buckets) == (-row_hash(data)) % total_buckets,
{
}

proof fn lemma_odd_factor(x: u32, y: u32, c: u32, inverse: u32)
    requires
        (c * inverse) % 0x1_0000_0000 == 1,
        x.wrapping_mul(c) == y.wrapping_mul(c),
    ensures
        x == y,
{
    lemma_undo_factor(x, c, inverse);
    lemma_undo_factor(y, c, inverse);
}

#[verifier::rlimit(50)]
proof fn lemma_undo_factor(x: u32, c: u32, inverse: u32)
    requires
        (c * inverse) % 0x1_0000_0000 == 1,
    ensures
        (x.wrapping_mul(c) * inverse) % 0x1_0000_0000 == x,
{
    let m = 0x1_0000_0000int;
    let p = x * c;
    assert(x.wrapping_mul(c) == p % m);
    lemma_mul_mod_noop(p, inverse as int, m);
    lemma_mul_mod_noop(p % m, inverse as int, m);
    lemma_mul_mod_noop(x as int, c * inverse, m);
    assert(p * inverse == x * (c * inverse)) by (nonlinear_arith)
        requires
            p == x * c,
    ;
    lemma_small_mod(x as nat, m as nat);
    lemma_small_mod(1, m as nat);
    assert((p % m) % m == p % m);
    assert((x as int) % m == x);
}

proof fn lemma_mix_word(x: u32, y: u32)
    requires
        mix_word(x) == mix_word(y),
    ensures
        x == y,
{
    let a = x.wrapping_mul(0xcc9e_2d51u32);
    let b = y.wrapping_mul(0xcc9e_2d51u32);
    lemma_odd_factor(
        (a << 15u32) | (a >> 17u32),
        (b << 15u32) | (b >> 17u32),
        0x1b87_3593,
        0x56ed_309b,
    );
    assert(a == b) by (bit_vector)
        requires
            (a << 15u32) | (a >> 17u32) == (b << 15u32) | (b >> 17u32),
    ;
    lemma_odd_factor(x, y, 0xcc9e_2d51, 0xdee1_3bb1);
}

proof fn lemma_mix(g: u32, x: u32, h: u32, y: u32)
    requires
        mix(g, x) == mix(h, y),
    ensures
        g == h ==> x == y,
        x == y ==> g == h,
{
    let u = mix_word(x);
    let v = mix_word(y);
    let a = g ^ u;
    let b = h ^ v;
    let c = (a << 13u32) | (a >> 19u32);
    let d = (b << 13u32) | (b >> 19u32);
    assert(c.wrapping_mul(5u32) == d.wrapping_mul(5u32));
    lemma_odd_factor(c, d, 5, 0xcccc_cccd);
    assert(a == b) by (bit_vector)
        requires
            (a << 13u32) | (a >> 19u32) == (b << 13u32) | (b >> 19u32),
    ;
    if g == h {
        assert(u == v) by (bit_vector)
            requires
                g ^ u == h ^ v,
                g == h,
        ;
        lemma_mix_word(x, y);
    }
    if x == y {
        assert(g == h) by (bit_vector)
            requires
                g ^ u == h ^ v,
                u == v,
        ;
    }
}

proof fn lemma_finish(g: u32, h: u32, len: u32)
    requires
        finish(g, len) == finish(h, len),
    ensures
        g == h,
{
    let a = g ^ len;
    let b = (a ^ (a >> 16u32)).wrapping_mul(0x85eb_ca6bu32);
    let c = (b ^ (b >> 13u32)).wrapping_mul(0xc2b2_ae35u32);
    let x = h ^ len;
    let y = (x ^ (x >> 16u32)).wrapping_mul(0x85eb_ca6bu32);
    let z = (y ^ (y >> 13u32)).wrapping_mul(0xc2b2_ae35u32);
    assert(c == z) by (bit_vector)
        requires
            c ^ (c >> 16u32) == z ^ (z >> 16u32),
    ;
    lemma_odd_factor(b ^ (b >> 13u32), y ^ (y >> 13u32), 0xc2b2_ae35, 0x7ed1_b41d);
    assert(b == y) by (bit_vector)
        requires
            b ^ (b >> 13u32) == y ^ (y >> 13u32),
    ;
    lemma_odd_factor(a ^ (a >> 16u32), x ^ (x >> 16u32), 0x85eb_ca6b, 0xa5cb_9243);
    assert(a == x) by (bit_vector)
        requires
            a ^ (a >> 16u32) == x ^ (x >> 16u32),
    ;
    assert(g == h) by (bit_vector)
        requires
            g ^ len == h ^ len,
    ;
}

proof fn lemma_mix_words(a: Seq<u8>, b: Seq<u8>, n: nat, k: int)
    requires
        0 <= k < n,
        word_at(a, k) != word_at(b, k),
        forall|i: int| 0 <= i < n && i != k ==> #[trigger] word_at(a, i) == word_at(b, i),
    ensures
        mix_words(a, n) != mix_words(b, n),
    decreases n,
{
    let m = (n - 1) as nat;
    if k == n - 1 {
        lemma_same_words(a, b, m);
    } else {
        lemma_mix_words(a, b, m, k);
        assert(word_at(a, n - 1) == word_at(b, n - 1));
    }
    if mix_words(a, n) == mix_words(b, n) {
        lemma_mix(mix_words(a, m), word_at(a, n - 1), mix_words(b, m), word_at(b, n - 1));
    }
}

proof fn lemma_same_words(a: Seq<u8>, b: Seq<u8>, n: nat)
    requires
        forall|i: int| 0 <= i < n ==> #[trigger] word_at(a, i) == word_at(b, i),
    ensures
        mix_words(a, n) == mix_words(b, n),
    decreases n,
{
    if n > 0 {
        lemma_same_words(a, b, (n - 1) as nat);
        assert(word_at(a, n - 1) == word_at(b, n - 1));
    }
}

/// Every byte of a row counts: rows of one length that differ within one word of four bytes, and
/// nowhere else, have different hashes.
#[verifier::rlimit(50)]
pub proof fn law_hash_tells_words_apart(a: Seq<u8>, b: Seq<u8>, k: int)
    requires
        a.len() == b.len(),
        a.len() % 4 == 0,
        0 <= 4 * k < a.len(),
        exists|i: int| 4 * k <= i < 4 * k + 4 && (#[trigger] a[i]) != b[i],
        forall|i: int| 0 <= i < a.len() && !(4 * k <= i < 4 * k + 4) ==> (#[trigger] a[i]) == b[i],
    ensures
        row_hash(a) != row_hash(b),
{
    let n = a.len() / 4;
    let at = 4 * k;
    assert(word_at(a, k) != word_at(b, k)) by {
        assert(a[at] != b[at] || a[at + 1] != b[at + 1] || a[at + 2] != b[at + 2] || a[at + 3]
            != b[at + 3]);
    }
    assert forall|i: int| 0 <= i < n && i != k implies #[trigger] word_at(a, i) == word_at(
        b,
        i,
    ) by {
        assert(a[4 * i] == b[4 * i]);
    }
    lemma_mix_words(a, b, n, k);
    if row_hash(a) == row_hash(b) {
        lemma_finish(mix_words(a, n), mix_words(b, n), a.len() as u32);
    }
}

/// The hash takes the words of four bytes in one after the other, least significant byte first,
/// whatever stands before or after them; the number of bytes goes in last.
pub proof fn law_hash_takes_words_in_order(data: Seq<u8>, k: int)
    requires
        0 <= k,
        4 * k + 4 <= data.len(),
    ensures
        mix_words(data, 0) == 42,
        word_at(data, k) == data[4 * k] + 0x100 * data[4 * k + 1] + 0x1_0000 * data[4 * k + 2]
            + 0x100_0000 * data[4 * k + 3],
        ({
            let w = word_at(data, k).wrapping_mul(0xcc9e_2d51);
            let v = ((w << 15u32) | (w >> 17u32)).wrapping_mul(0x1b87_3593);
            let h = mix_words(data, k as nat) ^ v;
            mix_words(data, (k + 1) as nat) == ((h << 13u32) | (h >> 19u32)).wrapping_mul(
                5,
            ).wrapping_add(0xe654_6b64)
        }),
        ({
            let a = mix_words(data, data.len() / 4) ^ (data.len() as u32);
            let b = (a ^ (a >> 16u32)).wrapping_mul(0x85eb_ca6b);
            let c = (b ^ (b >> 13u32)).wrapping_mul(0xc2b2_ae35);
            let d = c ^ (c >> 16u32);
            &&& d < 0x8000_0000 ==> row_hash(data) == d
            &&& d >= 0x8000_0000 ==> row_hash(data) == d - 0x1_0000_0000
        }),
{
}

} // verus!
