//! The Internet checksum: the one's complement of the one's complement sum of
//! big-endian 16-bit words.

use vstd::prelude::*;

verus! {

/// The largest number of bytes whose words a 32-bit accumulator can add up.
pub const MAX_CHECKSUM_LEN: usize = 131_072;

/// The 16-bit word with the bytes `hi`, `lo`.
pub open spec fn be16(hi: u8, lo: u8) -> int {
    hi * 256 + lo
}

/// The high byte of a 16-bit word.
pub open spec fn hi8(w: int) -> u8 {
    (w / 256) as u8
}

/// The low byte of a 16-bit word.
pub open spec fn lo8(w: int) -> u8 {
    (w % 256) as u8
}

/// The word that starts at byte `i`; a missing last byte counts as zero.
pub open spec fn word_at(s: Seq<u8>, i: int) -> int {
    be16(s[i], if i + 1 < s.len() { s[i + 1] } else { 0 })
}

/// The sum of the first `k` words.
pub open spec fn words_sum(s: Seq<u8>, k: nat) -> int
    decreases k,
{
    if k == 0 {
        0
    } else {
        words_sum(s, (k - 1) as nat) + word_at(s, 2 * (k - 1))
    }
}

/// The sum of all words of `s`, an odd last byte padded with a zero byte.
pub open spec fn total_sum(s: Seq<u8>) -> int {
    words_sum(s, ((s.len() + 1) / 2) as nat)
}

/// A sum folded to 16 bits with end-around carry: its residue modulo 65535,
/// with 65535 standing for a nonzero multiple.
pub open spec fn folded(sum: int) -> int {
    if sum == 0 {
        0
    } else {
        (sum - 1) % 65535 + 1
    }
}

/// The checksum field value for a given word sum.
pub open spec fn checksum_of_sum(sum: int) -> int {
    65535 - folded(sum)
}

/// The Internet checksum of `s`.
pub open spec fn internet_checksum(s: Seq<u8>) -> int {
    checksum_of_sum(total_sum(s))
}

/// `s` with the big-endian word `w` written at byte `p`.
pub open spec fn with_word(s: Seq<u8>, p: int, w: int) -> Seq<u8> {
    s.update(p, hi8(w)).update(p + 1, lo8(w))
}

pub proof fn lemma_word_bytes(w: int)
    requires
        0 <= w <= 65535,
    ensures
        be16(hi8(w), lo8(w)) == w,
{
}

/// The first `k` words of `s` add up to at most `65535 * k`.
pub proof fn lemma_words_sum_bounds(s: Seq<u8>, k: nat)
    ensures
        0 <= words_sum(s, k) <= 65535 * k,
    decreases k,
{
    if k > 0 {
        lemma_words_sum_bounds(s, (k - 1) as nat);
    }
}

/// Writing the word at an even position changes the sum by the difference.
pub proof fn lemma_words_sum_update(s: Seq<u8>, p: int, hi: u8, lo: u8, k: nat)
    requires
        0 <= p,
        p % 2 == 0,
        p + 1 < s.len(),
        2 * k <= s.len() + 1,
    ensures
        words_sum(s.update(p, hi).update(p + 1, lo), k) == words_sum(s, k) + (if p < 2 * k {
            be16(hi, lo) - word_at(s, p)
        } else {
            0
        }),
    decreases k,
{
    if k > 0 {
        lemma_words_sum_update(s, p, hi, lo, (k - 1) as nat);
        let t = s.update(p, hi).update(p + 1, lo);
        let i = 2 * (k - 1);
        if i == p {
            assert(word_at(t, i) == be16(hi, lo));
        } else {
            assert(word_at(t, i) == word_at(s, i));
        }
    }
}

/// The word `w` with its bytes swapped.
pub open spec fn swapped(w: int) -> int {
    (w % 256) * 256 + w / 256
}

/// Writing one byte changes the sum by the difference, in the lane of the byte.
pub proof fn lemma_words_sum_byte(s: Seq<u8>, p: int, b: u8, k: nat)
    requires
        0 <= p < s.len(),
        2 * k <= s.len() + 1,
    ensures
        words_sum(s.update(p, b), k) == words_sum(s, k) + (if p >= 2 * k {
            0
        } else if p % 2 == 0 {
            (b - s[p]) * 256
        } else {
            b - s[p]
        }),
    decreases k,
{
    if k > 0 {
        lemma_words_sum_byte(s, p, b, (k - 1) as nat);
        let t = s.update(p, b);
        let i = 2 * (k - 1);
        if i == p {
            assert(word_at(t, i) == word_at(s, i) + (b - s[p]) * 256);
        } else if i + 1 == p {
            assert(word_at(t, i) == word_at(s, i) + (b - s[p]));
        } else {
            assert(word_at(t, i) == word_at(s, i));
        }
    }
}

/// Writing a word at an odd position changes the sum by the difference of the
/// words with their bytes swapped.
pub proof fn lemma_words_sum_odd_update(s: Seq<u8>, p: int, w: int)
    requires
        0 <= p,
        p % 2 == 1,
        p + 1 < s.len(),
        0 <= w <= 65535,
    ensures
        total_sum(with_word(s, p, w)) == total_sum(s) - swapped(be16(s[p], s[p + 1])) + swapped(w),
{
    let k = ((s.len() + 1) / 2) as nat;
    let t = s.update(p, hi8(w));
    lemma_words_sum_byte(s, p, hi8(w), k);
    lemma_words_sum_byte(t, p + 1, lo8(w), k);
    lemma_word_bytes(w);
    assert(t[p + 1] == s[p + 1]);
    let old = be16(s[p], s[p + 1]);
    assert(old % 256 == s[p + 1] && old / 256 == s[p]);
    assert(w % 256 == lo8(w) && w / 256 == hi8(w));
}

/// A sequence whose checksum word at an even position holds the checksum of
/// the rest has checksum zero.
pub proof fn checksum_verifies(s: Seq<u8>, p: int)
    requires
        0 <= p,
        p % 2 == 0,
        p + 1 < s.len(),
        word_at(s, p) == 0,
    ensures
        internet_checksum(with_word(s, p, internet_checksum(s))) == 0,
{
    let c = internet_checksum(s);
    let k = ((s.len() + 1) / 2) as nat;
    lemma_words_sum_bounds(s, k);
    lemma_words_sum_update(s, p, hi8(c), lo8(c), k);
    lemma_word_bytes(c);
}

/// Folds a 32-bit sum to 16 bits with end-around carry.
pub fn fold_sum(sum: u32) -> (r: u16)
    ensures
        r == folded(sum as int),
{
    let mut s: u32 = sum;
    while s > 0xFFFF
        invariant
            folded(s as int) == folded(sum as int),
        decreases s,
    {
        let low: u32 = s % 0x1_0000;
        let high: u32 = s / 0x1_0000;
        assert((low + high - 1) % 65535 == (s - 1) % 65535);
        s = low + high;
    }
    s as u16
}

/// Adds up the big-endian words of `data[start..end]`.
pub fn sum_words(data: &[u8], start: usize, end: usize) -> (sum: u32)
    requires
        start <= end <= data@.len(),
        end - start <= MAX_CHECKSUM_LEN,
    ensures
        sum == total_sum(data@.subrange(start as int, end as int)),
        sum <= 65535 * ((end - start + 1) / 2),
{
    let ghost s = data@.subrange(start as int, end as int);
    let mut sum: u32 = 0;
    let mut i: usize = start;
    while end - i >= 2
        invariant
            start <= i <= end <= data@.len(),
            (i - start) % 2 == 0,
            end - start <= MAX_CHECKSUM_LEN,
            s == data@.subrange(start as int, end as int),
            sum == words_sum(s, ((i - start) / 2) as nat),
            sum <= 65535 * ((i - start) / 2),
        decreases end - i,
    {
        let w: u32 = data[i] as u32 * 256 + data[i + 1] as u32;
        assert(w == word_at(s, i - start));
        assert((i + 2 - start) / 2 - 1 == (i - start) / 2);
        sum = sum + w;
        i = i + 2;
    }
    if i < end {
        let w: u32 = data[i] as u32 * 256;
        assert(w == word_at(s, i - start));
        assert((end - start + 1) / 2 - 1 == (i - start) / 2);
        sum = sum + w;
    }
    sum
}

/// The Internet checksum of a header.
pub fn ip_checksum(header: &[u8]) -> (c: u16)
    requires
        1 <= header@.len() <= MAX_CHECKSUM_LEN,
    ensures
        c == internet_checksum(header@),
{
    let sum = sum_words(header, 0, header.len());
    assert(header@.subrange(0, header@.len() as int) =~= header@);
    0xFFFF - fold_sum(sum)
}

} // verus!
