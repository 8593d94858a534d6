//! The RFC 791 Internet checksum of an IPv4 header, and its recomputation
//! in place.
//!
//! The model: a header of `len` bytes is summed as big-endian 16-bit words
//! (an odd trailing byte counts as the high byte of a padding word), the
//! carries above 16 bits are folded back in until the sum fits in 16 bits,
//! and the checksum is the ones' complement of that folded sum, taken with
//! the checksum field itself cleared.

use vstd::arithmetic::div_mod::{
    lemma_fundamental_div_mod, lemma_mod_multiples_basic, lemma_mod_multiples_vanish,
    lemma_small_mod,
};
use vstd::prelude::*;

verus! {

/// The 16-bit big-endian word stored at byte offsets `i` and `i + 1`.
pub open spec fn be_word_at(b: Seq<u8>, i: int) -> int {
    (b[i] as int) * 256 + (b[i + 1] as int)
}

/// Sum of the first `n` big-endian 16-bit words of `b`.
pub open spec fn words_sum(b: Seq<u8>, n: int) -> int
    decreases n,
{
    if n <= 0 {
        0
    } else {
        words_sum(b, n - 1) + be_word_at(b, 2 * (n - 1))
    }
}

/// Sum of the first `len` bytes of `b` taken as big-endian 16-bit words;
/// when `len` is odd, the final byte counts as the high byte of a padding
/// word, per RFC 791.
pub open spec fn header_sum(b: Seq<u8>, len: int) -> int {
    words_sum(b, len / 2) + if len % 2 == 1 {
        (b[len - 1] as int) * 256
    } else {
        0
    }
}

/// End-around-carry fold: adds the bits above the low 16 back into the low
/// 16 until the value fits in 16 bits.
pub open spec fn fold_carries(s: int) -> int
    decreases s,
    when s >= 0
    via fold_carries_decreases
{
    if s <= 0xFFFF {
        s
    } else {
        fold_carries(s % 0x10000 + s / 0x10000)
    }
}

#[via_fn]
proof fn fold_carries_decreases(s: int) {
    if s > 0xFFFF {
        lemma_fundamental_div_mod(s, 0x10000);
    }
}

/// The header with its checksum field (bytes 10 and 11) cleared, as the
/// checksum definition requires before summing.
pub open spec fn zero_cksum(b: Seq<u8>) -> Seq<u8> {
    b.update(10, 0u8).update(11, 0u8)
}

/// The checksum RFC 791 prescribes for the first `len` bytes of `b`: the
/// ones' complement of the folded sum taken with the checksum field cleared.
pub open spec fn computed_checksum(b: Seq<u8>, len: int) -> int {
    0xFFFF - fold_carries(header_sum(zero_cksum(b), len))
}

/// High byte of a 16-bit value.
pub open spec fn hi_byte(w: int) -> u8 {
    (w / 256) as u8
}

/// Low byte of a 16-bit value.
pub open spec fn lo_byte(w: int) -> u8 {
    (w % 256) as u8
}

/// The header after checksum recomputation: only bytes 10 and 11 change,
/// and they hold `computed_checksum` in big-endian order.
pub open spec fn recompute_spec(b: Seq<u8>, len: int) -> Seq<u8> {
    b.update(10, hi_byte(computed_checksum(b, len))).update(
        11,
        lo_byte(computed_checksum(b, len)),
    )
}

/// Internal consistency per RFC 791: the folded ones'-complement sum of
/// every header word, the checksum field included, is `0xFFFF`, so its
/// ones' complement is zero.
pub open spec fn checksum_valid(b: Seq<u8>, len: int) -> bool {
    fold_carries(header_sum(b, len)) == 0xFFFF
}

/// One fold step keeps the value nonnegative, strictly decreases it, keeps
/// `fold_carries` fixed, and preserves the residue modulo `0xFFFF`.
proof fn lemma_fold_step(s: int)
    requires
        s > 0xFFFF,
    ensures
        1 <= s % 0x10000 + s / 0x10000 < s,
        fold_carries(s) == fold_carries(s % 0x10000 + s / 0x10000),
        (s % 0x10000 + s / 0x10000) % 0xFFFF == s % 0xFFFF,
{
    lemma_fundamental_div_mod(s, 0x10000);
    let q = s / 0x10000;
    let r = s % 0x10000;
    assert(s == 0xFFFF * q + (q + r));
    lemma_mod_multiples_vanish(q, q + r, 0xFFFF);
}

/// The folded sum lies in `[0, 0xFFFF]`, never exceeds the sum, agrees with
/// it modulo `0xFFFF`, and is zero only for the zero sum.
proof fn lemma_fold_props(s: int)
    requires
        s >= 0,
    ensures
        0 <= fold_carries(s) <= 0xFFFF,
        fold_carries(s) <= s,
        fold_carries(s) % 0xFFFF == s % 0xFFFF,
        s > 0 ==> fold_carries(s) > 0,
    decreases s,
{
    if s > 0xFFFF {
        lemma_fold_step(s);
        lemma_fold_props(s % 0x10000 + s / 0x10000);
    }
}

/// A positive multiple of `0xFFFF` folds to exactly `0xFFFF`.
proof fn lemma_fold_multiple(s: int)
    requires
        s > 0,
        s % 0xFFFF == 0,
    ensures
        fold_carries(s) == 0xFFFF,
{
    lemma_fold_props(s);
    let f = fold_carries(s);
    if f < 0xFFFF {
        lemma_small_mod(f as nat, 0xFFFF as nat);
    }
}

/// The word sum over in-bounds words is nonnegative and at most
/// `n * 0xFFFF`.
proof fn lemma_words_sum_bounds(b: Seq<u8>, n: int)
    requires
        0 <= n,
        2 * n <= b.len(),
    ensures
        0 <= words_sum(b, n) <= n * 0xFFFF,
    decreases n,
{
    if n > 0 {
        lemma_words_sum_bounds(b, n - 1);
    }
}

/// The word sum reads only the bytes it covers.
proof fn lemma_words_sum_agree(a: Seq<u8>, b: Seq<u8>, n: int)
    requires
        forall|i: int| 0 <= i < 2 * n ==> a[i] == b[i],
    ensures
        words_sum(a, n) == words_sum(b, n),
    decreases n,
{
    if n > 0 {
        lemma_words_sum_agree(a, b, n - 1);
    }
}

/// Clearing the checksum field removes exactly the checksum word (word 5,
/// bytes 10 and 11) from the word sum.
proof fn lemma_words_sum_zero_cksum(b: Seq<u8>, n: int)
    requires
        6 <= n,
        2 * n <= b.len(),
    ensures
        words_sum(b, n) == words_sum(zero_cksum(b), n) + be_word_at(b, 10),
    decreases n,
{
    let z = zero_cksum(b);
    if n == 6 {
        lemma_words_sum_agree(b, z, 5);
    } else {
        lemma_words_sum_zero_cksum(b, n - 1);
    }
}

/// Clearing the checksum field removes exactly the checksum word from the
/// header sum, provided the header covers that field.
proof fn lemma_header_sum_split(b: Seq<u8>, len: int)
    requires
        12 <= len <= b.len(),
    ensures
        header_sum(b, len) == header_sum(zero_cksum(b), len) + be_word_at(b, 10),
{
    lemma_words_sum_zero_cksum(b, len / 2);
}

/// Writing `computed_checksum` into the checksum field makes the header
/// internally consistent per RFC 791, for any header long enough to contain
/// the field.
pub proof fn lemma_recompute_checksum_valid(b: Seq<u8>, len: int)
    requires
        12 <= len <= b.len(),
    ensures
        checksum_valid(recompute_spec(b, len), len),
{
    let z = zero_cksum(b);
    let s0 = header_sum(z, len);
    lemma_words_sum_bounds(z, len / 2);
    lemma_fold_props(s0);
    let f = fold_carries(s0);
    let cks = 0xFFFF - f;
    let nb = recompute_spec(b, len);
    assert(zero_cksum(nb) =~= z);
    lemma_fundamental_div_mod(cks, 256);
    assert(be_word_at(nb, 10) == cks);
    lemma_header_sum_split(nb, len);
    let t = header_sum(nb, len);
    assert(t == s0 + cks);
    lemma_fundamental_div_mod(s0, 0xFFFF);
    lemma_fundamental_div_mod(f, 0xFFFF);
    let q1 = s0 / 0xFFFF;
    let q2 = f / 0xFFFF;
    assert(t == 0xFFFF * (q1 - q2 + 1));
    lemma_mod_multiples_basic(q1 - q2 + 1, 0xFFFF);
    lemma_fold_multiple(t);
}

/// Rewrites the checksum field (bytes 10 and 11, big-endian) so that the
/// first `header_len` bytes of `buf` form an internally consistent IPv4
/// header per RFC 791. No other byte changes.
pub fn recalculate_ip_checksum(buf: &mut Vec<u8>, header_len: usize)
    requires
        12 <= old(buf).len(),
        header_len <= old(buf).len(),
        header_len <= 60,
    ensures
        final(buf)@ == recompute_spec(old(buf)@, header_len as int),
{
    buf.set(10, 0);
    buf.set(11, 0);
    let words: usize = header_len / 2;
    let mut sum: u32 = 0;
    let mut i: usize = 0;
    while i < words
        invariant
            i <= words,
            words == header_len / 2,
            header_len <= buf.len() <= old(buf).len(),
            header_len <= 60,
            buf@ == zero_cksum(old(buf)@),
            sum == words_sum(buf@, i as int),
            sum <= i * 0xFFFF,
        decreases words - i,
    {
        let w: u32 = (buf[2 * i] as u32) * 256 + (buf[2 * i + 1] as u32);
        sum = sum + w;
        i = i + 1;
    }
    if header_len % 2 == 1 {
        sum = sum + (buf[header_len - 1] as u32) * 256;
    }
    assert(sum == header_sum(zero_cksum(old(buf)@), header_len as int));
    let ghost s0: int = sum as int;
    proof {
        lemma_fold_props(s0);
    }
    while sum > 0xFFFF
        invariant
            fold_carries(sum as int) == fold_carries(s0),
        decreases sum,
    {
        proof {
            lemma_fold_step(sum as int);
        }
        sum = sum % 0x10000 + sum / 0x10000;
    }
    let cks: u32 = 0xFFFF - sum;
    assert(cks == computed_checksum(old(buf)@, header_len as int));
    buf.set(10, (cks / 256) as u8);
    buf.set(11, (cks % 256) as u8);
    assert(buf@ =~= recompute_spec(old(buf)@, header_len as int));
}

} // verus!
