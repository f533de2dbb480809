//! Bit-level facts about little-endian bit strings packed into `u64` words.
use vstd::prelude::*;

verus! {

/// Bit `j` (0 = least significant) of a word.
pub open spec fn word_bit(w: u64, j: int) -> bool {
    (w >> (j as u64)) & 1u64 == 1u64
}

/// Bit `i` of a bit string stored 64 bits to a word, least significant first.
pub open spec fn packed_bit(words: Seq<u64>, i: int) -> bool {
    word_bit(words[i / 64], i % 64)
}

/// Number of words that hold `dim` bits.
pub open spec fn words_for(dim: nat) -> nat {
    (dim + 63) / 64
}

/// Number of set bits among the lowest `n` bits of `w`.
pub open spec fn popcount_upto(w: u64, n: nat) -> nat
    decreases n,
{
    if n == 0 {
        0
    } else {
        popcount_upto(w, (n - 1) as nat) + if word_bit(w, n - 1) {
            1nat
        } else {
            0nat
        }
    }
}

/// Number of set bits of `w`.
pub open spec fn popcount(w: u64) -> nat {
    popcount_upto(w, 64)
}

/// Number of `true` entries of a sequence.
pub open spec fn count_true(s: Seq<bool>) -> nat
    decreases s.len(),
{
    if s.len() == 0 {
        0
    } else {
        count_true(s.drop_last()) + if s.last() {
            1nat
        } else {
            0nat
        }
    }
}

/// `u64::count_ones`: std documents it as the number of ones in the binary
/// representation of the word, which is `popcount`.
#[verifier::external_body]
pub(crate) fn count_ones(w: u64) -> (r: u32)
    ensures
        r == popcount(w),
{
    w.count_ones()
}

/// The number of words that hold `dim` bits, computed without overflow.
pub fn words_needed(dim: usize) -> (n: usize)
    ensures
        n == words_for(dim as nat),
{
    dim / 64 + if dim % 64 != 0 {
        1
    } else {
        0
    }
}

pub proof fn lemma_bit_is_01(w: u64, j: u64)
    ensures
        (w >> j) & 1u64 == 0u64 || (w >> j) & 1u64 == 1u64,
{
    assert((w >> j) & 1u64 == 0u64 || (w >> j) & 1u64 == 1u64) by (bit_vector);
}

pub proof fn lemma_zero_word_bits(j: u64)
    ensures
        !word_bit(0u64, j as int),
{
    assert((0u64 >> j) & 1u64 == 0u64) by (bit_vector);
}

pub proof fn lemma_xor_bit(a: u64, b: u64, j: u64)
    requires
        j < 64,
    ensures
        word_bit(a ^ b, j as int) == (word_bit(a, j as int) != word_bit(b, j as int)),
{
    assert((((a ^ b) >> j) & 1u64 == 1u64) == (((a >> j) & 1u64 == 1u64) != ((b >> j) & 1u64
        == 1u64))) by (bit_vector)
        requires
            j < 64,
    ;
}

pub proof fn lemma_or_bit(a: u64, b: u64, j: u64)
    requires
        j < 64,
    ensures
        word_bit(a | b, j as int) == (word_bit(a, j as int) || word_bit(b, j as int)),
{
    assert((((a | b) >> j) & 1u64 == 1u64) == (((a >> j) & 1u64 == 1u64) || ((b >> j) & 1u64
        == 1u64))) by (bit_vector)
        requires
            j < 64,
    ;
}

/// Setting bit `k` to `v` (0 or 1) by `|` leaves every other bit alone.
pub proof fn lemma_or_shifted_bit(x: u64, v: u64, k: u64, j: u64)
    requires
        k < 64,
        j < 64,
        v == 0 || v == 1,
    ensures
        word_bit(x | (v << k), j as int) == (word_bit(x, j as int) || (j == k && v == 1)),
{
    assert((((x | (v << k)) >> j) & 1u64 == 1u64) == (((x >> j) & 1u64 == 1u64) || (j == k && v
        == 1u64))) by (bit_vector)
        requires
            k < 64,
            j < 64,
            v == 0u64 || v == 1u64,
    ;
}

/// Masking with the low `k` bits keeps the bits below `k` and clears the rest.
pub proof fn lemma_low_mask_bit(x: u64, k: u64, j: u64)
    requires
        0 < k < 64,
        j < 64,
    ensures
        word_bit(x & ((1u64 << k) - 1u64) as u64, j as int) == (j < k && word_bit(x, j as int)),
{
    assert((((x & (((1u64 << k) - 1u64) as u64)) >> j) & 1u64 == 1u64) == (j < k && ((x >> j)
        & 1u64 == 1u64))) by (bit_vector)
        requires
            0 < k < 64,
            j < 64,
    ;
}

/// Two words that agree on all 64 bits are equal.
pub proof fn lemma_word_ext(a: u64, b: u64)
    requires
        forall|j: int| 0 <= j < 64 ==> #[trigger] word_bit(a, j) == word_bit(b, j),
    ensures
        a == b,
{
    let c = a ^ b;
    assert forall|j: int| 0 <= j < 64 implies !#[trigger] word_bit(c, j) by {
        lemma_xor_bit(a, b, j as u64);
    }
    assert(!word_bit(c, 0) && !word_bit(c, 1) && !word_bit(c, 2) && !word_bit(c, 3));
    assert(!word_bit(c, 4) && !word_bit(c, 5) && !word_bit(c, 6) && !word_bit(c, 7));
    assert(!word_bit(c, 8) && !word_bit(c, 9) && !word_bit(c, 10) && !word_bit(c, 11));
    assert(!word_bit(c, 12) && !word_bit(c, 13) && !word_bit(c, 14) && !word_bit(c, 15));
    assert(!word_bit(c, 16) && !word_bit(c, 17) && !word_bit(c, 18) && !word_bit(c, 19));
    assert(!word_bit(c, 20) && !word_bit(c, 21) && !word_bit(c, 22) && !word_bit(c, 23));
    assert(!word_bit(c, 24) && !word_bit(c, 25) && !word_bit(c, 26) && !word_bit(c, 27));
    assert(!word_bit(c, 28) && !word_bit(c, 29) && !word_bit(c, 30) && !word_bit(c, 31));
    assert(!word_bit(c, 32) && !word_bit(c, 33) && !word_bit(c, 34) && !word_bit(c, 35));
    assert(!word_bit(c, 36) && !word_bit(c, 37) && !word_bit(c, 38) && !word_bit(c, 39));
    assert(!word_bit(c, 40) && !word_bit(c, 41) && !word_bit(c, 42) && !word_bit(c, 43));
    assert(!word_bit(c, 44) && !word_bit(c, 45) && !word_bit(c, 46) && !word_bit(c, 47));
    assert(!word_bit(c, 48) && !word_bit(c, 49) && !word_bit(c, 50) && !word_bit(c, 51));
    assert(!word_bit(c, 52) && !word_bit(c, 53) && !word_bit(c, 54) && !word_bit(c, 55));
    assert(!word_bit(c, 56) && !word_bit(c, 57) && !word_bit(c, 58) && !word_bit(c, 59));
    assert(!word_bit(c, 60) && !word_bit(c, 61) && !word_bit(c, 62) && !word_bit(c, 63));
    lemma_all_bits_clear_is_zero(c);
    assert(a == b) by (bit_vector)
        requires
            c == a ^ b,
            c == 0u64,
    ;
}

proof fn lemma_all_bits_clear_is_zero(c: u64)
    requires
        !word_bit(c, 0) && !word_bit(c, 1) && !word_bit(c, 2) && !word_bit(c, 3),
        !word_bit(c, 4) && !word_bit(c, 5) && !word_bit(c, 6) && !word_bit(c, 7),
        !word_bit(c, 8) && !word_bit(c, 9) && !word_bit(c, 10) && !word_bit(c, 11),
        !word_bit(c, 12) && !word_bit(c, 13) && !word_bit(c, 14) && !word_bit(c, 15),
        !word_bit(c, 16) && !word_bit(c, 17) && !word_bit(c, 18) && !word_bit(c, 19),
        !word_bit(c, 20) && !word_bit(c, 21) && !word_bit(c, 22) && !word_bit(c, 23),
        !word_bit(c, 24) && !word_bit(c, 25) && !word_bit(c, 26) && !word_bit(c, 27),
        !word_bit(c, 28) && !word_bit(c, 29) && !word_bit(c, 30) && !word_bit(c, 31),
        !word_bit(c, 32) && !word_bit(c, 33) && !word_bit(c, 34) && !word_bit(c, 35),
        !word_bit(c, 36) && !word_bit(c, 37) && !word_bit(c, 38) && !word_bit(c, 39),
        !word_bit(c, 40) && !word_bit(c, 41) && !word_bit(c, 42) && !word_bit(c, 43),
        !word_bit(c, 44) && !word_bit(c, 45) && !word_bit(c, 46) && !word_bit(c, 47),
        !word_bit(c, 48) && !word_bit(c, 49) && !word_bit(c, 50) && !word_bit(c, 51),
        !word_bit(c, 52) && !word_bit(c, 53) && !word_bit(c, 54) && !word_bit(c, 55),
        !word_bit(c, 56) && !word_bit(c, 57) && !word_bit(c, 58) && !word_bit(c, 59),
        !word_bit(c, 60) && !word_bit(c, 61) && !word_bit(c, 62) && !word_bit(c, 63),
    ensures
        c == 0,
{
    assert(c == 0u64) by (bit_vector)
        requires
            (c >> 0u64) & 1u64 != 1u64 && (c >> 1u64) & 1u64 != 1u64 && (c >> 2u64) & 1u64 != 1u64 && (c >> 3u64) & 1u64 != 1u64,
            (c >> 4u64) & 1u64 != 1u64 && (c >> 5u64) & 1u64 != 1u64 && (c >> 6u64) & 1u64 != 1u64 && (c >> 7u64) & 1u64 != 1u64,
            (c >> 8u64) & 1u64 != 1u64 && (c >> 9u64) & 1u64 != 1u64 && (c >> 10u64) & 1u64 != 1u64 && (c >> 11u64) & 1u64 != 1u64,
            (c >> 12u64) & 1u64 != 1u64 && (c >> 13u64) & 1u64 != 1u64 && (c >> 14u64) & 1u64 != 1u64 && (c >> 15u64) & 1u64 != 1u64,
            (c >> 16u64) & 1u64 != 1u64 && (c >> 17u64) & 1u64 != 1u64 && (c >> 18u64) & 1u64 != 1u64 && (c >> 19u64) & 1u64 != 1u64,
            (c >> 20u64) & 1u64 != 1u64 && (c >> 21u64) & 1u64 != 1u64 && (c >> 22u64) & 1u64 != 1u64 && (c >> 23u64) & 1u64 != 1u64,
            (c >> 24u64) & 1u64 != 1u64 && (c >> 25u64) & 1u64 != 1u64 && (c >> 26u64) & 1u64 != 1u64 && (c >> 27u64) & 1u64 != 1u64,
            (c >> 28u64) & 1u64 != 1u64 && (c >> 29u64) & 1u64 != 1u64 && (c >> 30u64) & 1u64 != 1u64 && (c >> 31u64) & 1u64 != 1u64,
            (c >> 32u64) & 1u64 != 1u64 && (c >> 33u64) & 1u64 != 1u64 && (c >> 34u64) & 1u64 != 1u64 && (c >> 35u64) & 1u64 != 1u64,
            (c >> 36u64) & 1u64 != 1u64 && (c >> 37u64) & 1u64 != 1u64 && (c >> 38u64) & 1u64 != 1u64 && (c >> 39u64) & 1u64 != 1u64,
            (c >> 40u64) & 1u64 != 1u64 && (c >> 41u64) & 1u64 != 1u64 && (c >> 42u64) & 1u64 != 1u64 && (c >> 43u64) & 1u64 != 1u64,
            (c >> 44u64) & 1u64 != 1u64 && (c >> 45u64) & 1u64 != 1u64 && (c >> 46u64) & 1u64 != 1u64 && (c >> 47u64) & 1u64 != 1u64,
            (c >> 48u64) & 1u64 != 1u64 && (c >> 49u64) & 1u64 != 1u64 && (c >> 50u64) & 1u64 != 1u64 && (c >> 51u64) & 1u64 != 1u64,
            (c >> 52u64) & 1u64 != 1u64 && (c >> 53u64) & 1u64 != 1u64 && (c >> 54u64) & 1u64 != 1u64 && (c >> 55u64) & 1u64 != 1u64,
            (c >> 56u64) & 1u64 != 1u64 && (c >> 57u64) & 1u64 != 1u64 && (c >> 58u64) & 1u64 != 1u64 && (c >> 59u64) & 1u64 != 1u64,
            (c >> 60u64) & 1u64 != 1u64 && (c >> 61u64) & 1u64 != 1u64 && (c >> 62u64) & 1u64 != 1u64 && (c >> 63u64) & 1u64 != 1u64,
    ;
}


/// The bits of `(a & b) | ((a ^ b) & t)`: where `a` and `b` agree their
/// common bit, elsewhere the bit of `t`.
pub proof fn lemma_agree_or_tie_bit(a: u64, b: u64, t: u64, j: u64)
    requires
        j < 64,
    ensures
        word_bit((a & b) | ((a ^ b) & t), j as int) == ((word_bit(a, j as int) && word_bit(
            b,
            j as int,
        )) || (word_bit(a, j as int) != word_bit(b, j as int) && word_bit(t, j as int))),
{
    assert(((((a & b) | ((a ^ b) & t)) >> j) & 1u64 == 1u64) == ((((a >> j) & 1u64 == 1u64) && ((b
        >> j) & 1u64 == 1u64)) || ((((a >> j) & 1u64 == 1u64) != ((b >> j) & 1u64 == 1u64)) && ((t
        >> j) & 1u64 == 1u64)))) by (bit_vector)
        requires
            j < 64,
    ;
}

/// `count_true` of a concatenation is the sum of the counts.
pub proof fn lemma_count_true_append(s: Seq<bool>, t: Seq<bool>)
    ensures
        count_true(s + t) == count_true(s) + count_true(t),
    decreases t.len(),
{
    if t.len() == 0 {
        assert(s + t =~= s);
    } else {
        lemma_count_true_append(s, t.drop_last());
        assert((s + t).drop_last() =~= s + t.drop_last());
    }
}

/// A sequence with no `true` entry counts zero.
pub proof fn lemma_count_true_none(s: Seq<bool>)
    requires
        forall|i: int| 0 <= i < s.len() ==> !#[trigger] s[i],
    ensures
        count_true(s) == 0,
    decreases s.len(),
{
    if s.len() > 0 {
        lemma_count_true_none(s.drop_last());
    }
}

/// A count never exceeds the length.
pub proof fn lemma_count_true_le_len(s: Seq<bool>)
    ensures
        count_true(s) <= s.len(),
    decreases s.len(),
{
    if s.len() > 0 {
        lemma_count_true_le_len(s.drop_last());
    }
}

/// `popcount_upto` counts the set bits among the lowest `m` bits.
pub proof fn lemma_popcount_upto_is_count(w: u64, m: nat)
    ensures
        popcount_upto(w, m) == count_true(Seq::new(m, |j: int| word_bit(w, j))),
    decreases m,
{
    if m > 0 {
        lemma_popcount_upto_is_count(w, (m - 1) as nat);
        assert(Seq::new(m, |j: int| word_bit(w, j)).drop_last() =~= Seq::new(
            (m - 1) as nat,
            |j: int| word_bit(w, j),
        ));
    }
}

/// The bits `64 * n` up to `64 * n + 64` of a packed sequence are the bits
/// of word `n`.
pub proof fn lemma_word_slice(words: Seq<u64>, n: int)
    requires
        0 <= n < words.len(),
    ensures
        Seq::new(((n + 1) * 64) as nat, |i: int| packed_bit(words, i)) == Seq::new(
            (n * 64) as nat,
            |i: int| packed_bit(words, i),
        ) + Seq::new(64, |j: int| word_bit(words[n], j)),
{
    let lhs = Seq::new(((n + 1) * 64) as nat, |i: int| packed_bit(words, i));
    let rhs = Seq::new((n * 64) as nat, |i: int| packed_bit(words, i)) + Seq::new(
        64,
        |j: int| word_bit(words[n], j),
    );
    assert(lhs.len() == rhs.len()) by (nonlinear_arith)
        requires
            lhs.len() == (n + 1) * 64,
            rhs.len() == n * 64 + 64,
    ;
    assert forall|i: int| 0 <= i < lhs.len() implies #[trigger] lhs[i] == rhs[i] by {
        if i >= n * 64 {
            assert(i / 64 == n && i % 64 == i - n * 64) by (nonlinear_arith)
                requires
                    n * 64 <= i < (n + 1) * 64,
            ;
        }
    }
    assert(lhs =~= rhs);
}

} // verus!
