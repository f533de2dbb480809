//! Bit-packed quantized codes: unpacking sign bits, counting differing bits
//! word by word, and packing fixed-width levels into a contiguous stream.
use vstd::prelude::*;
use crate::bits::{
    count_ones, count_true, lemma_count_true_append, lemma_popcount_upto_is_count,
    lemma_word_slice, lemma_xor_bit, lemma_zero_word_bits, packed_bit, word_bit, words_for,
};
use crate::bsc::{lemma_replace_word, BinaryHDVector};

verus! {

/// The first `dim` bits of a packed bit string.
pub open spec fn packed_prefix(words: Seq<u64>, dim: nat) -> Seq<bool> {
    Seq::new(dim, |i: int| packed_bit(words, i))
}

/// Positions, among the first `64 * n` of two packed bit strings, where they
/// differ.
pub open spec fn differing_bits(a: Seq<u64>, b: Seq<u64>, n: nat) -> Seq<bool> {
    Seq::new(n * 64, |p: int| packed_bit(a, p) != packed_bit(b, p))
}

/// The number of words two packed strings share: the shorter length.
pub open spec fn common_words(a: Seq<u64>, b: Seq<u64>) -> nat {
    if a.len() <= b.len() {
        a.len()
    } else {
        b.len()
    }
}

/// Bit `p` of the stream that holds `levels` as consecutive `bits`-bit
/// fields, least significant bit first; clear past the last field.
pub open spec fn level_stream_bit(levels: Seq<u64>, bits: nat, p: int) -> bool {
    &&& 0 <= p < levels.len() * bits
    &&& word_bit(levels[p / (bits as int)], p % (bits as int))
}

/// Field `k` of a level stream holds the low `bits` bits of level `k`:
/// bit `j` of the field, at stream position `k * bits + j`, is bit `j` of
/// the level; nothing is stored past the last field.
pub proof fn lemma_level_stream_fields(levels: Seq<u64>, bits: nat, k: int, j: int)
    requires
        bits >= 1,
        0 <= k < levels.len(),
        0 <= j < bits,
    ensures
        level_stream_bit(levels, bits, k * bits + j) == word_bit(levels[k], j),
        !level_stream_bit(levels, bits, levels.len() * bits + j),
{
    vstd::arithmetic::div_mod::lemma_fundamental_div_mod_converse(k * bits + j, bits as int, k, j);
    vstd::arithmetic::mul::lemma_mul_inequality(k + 1, levels.len() as int, bits as int);
    assert((k + 1) * bits == k * bits + bits) by (nonlinear_arith);
}

/// The bits read back from a vector's own words are the vector's bits.
pub proof fn lemma_unpack_vector(v: BinaryHDVector)
    ensures
        packed_prefix(v.words@, v.dim as nat) == v@,
{
    assert(packed_prefix(v.words@, v.dim as nat) =~= v@);
}

/// Reads the first `dim` bits of a packed bit string, one flag per bit.
pub fn unpack_bit_flags(words: &[u64], dim: usize) -> (r: Vec<bool>)
    requires
        dim <= words@.len() * 64,
    ensures
        r@ == packed_prefix(words@, dim as nat),
{
    let mut out: Vec<bool> = Vec::new();
    let mut i: usize = 0;
    while i < dim
        invariant
            dim <= words@.len() * 64,
            i <= dim,
            out@ == packed_prefix(words@, i as nat),
        decreases dim - i,
    {
        let bit = (words[i / 64] >> ((i % 64) as u64)) & 1u64;
        out.push(bit == 1u64);
        i = i + 1;
        proof {
            assert(out@ =~= packed_prefix(words@, i as nat));
        }
    }
    out
}

/// The number of differing bits over the words the two strings share:
/// `count_ones` of the XOR of each pair of words, summed.
pub fn wordwise_diff_bits(a: &[u64], b: &[u64]) -> (d: u64)
    requires
        common_words(a@, b@) * 64 <= u64::MAX,
    ensures
        d == count_true(differing_bits(a@, b@, common_words(a@, b@))),
{
    let n: usize = if a.len() <= b.len() {
        a.len()
    } else {
        b.len()
    };
    let ghost xw = Seq::new(n as nat, |k: int| a@[k] ^ b@[k]);
    proof {
        assert forall|p: int| 0 <= p < n * 64 implies #[trigger] packed_bit(xw, p) == (packed_bit(
            a@,
            p,
        ) != packed_bit(b@, p)) by {
            lemma_xor_bit(a@[p / 64], b@[p / 64], (p % 64) as u64);
        }
        assert(Seq::new((n * 64) as nat, |p: int| packed_bit(xw, p)) =~= differing_bits(
            a@,
            b@,
            n as nat,
        ));
    }
    let mut acc: u64 = 0;
    let mut w: usize = 0;
    while w < n
        invariant
            n <= a@.len(),
            n <= b@.len(),
            n * 64 <= u64::MAX,
            xw == Seq::new(n as nat, |k: int| a@[k] ^ b@[k]),
            w <= n,
            acc == count_true(Seq::new((w * 64) as nat, |p: int| packed_bit(xw, p))),
            acc <= w * 64,
        decreases n - w,
    {
        let c = count_ones(a[w] ^ b[w]);
        proof {
            lemma_word_slice(xw, w as int);
            lemma_popcount_upto_is_count(xw[w as int], 64);
            lemma_count_true_append(
                Seq::new((w * 64) as nat, |p: int| packed_bit(xw, p)),
                Seq::new(64, |j: int| word_bit(xw[w as int], j)),
            );
            crate::bits::lemma_count_true_le_len(Seq::new(64, |j: int| word_bit(xw[w as int], j)));
        }
        acc = acc + c as u64;
        w = w + 1;
    }
    acc
}

/// Where bit `t` of field `i` lands in a stream of `b`-bit fields.
proof fn lemma_field_position(i: int, b: int, t: int)
    requires
        0 <= i,
        0 <= t < b,
    ensures
        (i * b + t) / b == i,
        (i * b + t) % b == t,
{
    vstd::arithmetic::div_mod::lemma_fundamental_div_mod_converse(i * b + t, b, i, t);
}

/// Position `p` of a packed string is bit `p - 64 * w` of word `w` when it
/// falls in that word.
proof fn lemma_word_position(p: int, w: int)
    requires
        0 <= w,
        w * 64 <= p < w * 64 + 64,
    ensures
        p / 64 == w,
        p % 64 == p - w * 64,
{
    vstd::arithmetic::div_mod::lemma_fundamental_div_mod_converse(p, 64, w, p - w * 64);
}

/// A field of `b` bits shifted up by `o` (with `o + b <= 64`) holds bit `t`
/// of the field at `o + t`.
proof fn lemma_shifted_field_bit(u: u64, b: u64, o: u64, t: u64)
    requires
        1 <= b <= 63,
        o + b <= 64,
        t < b,
    ensures
        word_bit((u & ((1u64 << b) - 1u64) as u64) << o, (o + t) as int) == word_bit(u, t as int),
{
    let ot = (o + t) as u64;
    assert(((((u & (((1u64 << b) - 1u64) as u64)) << o) >> ot) & 1u64 == 1u64) == ((u >> t) & 1u64
        == 1u64)) by (bit_vector)
        requires
            1 <= b <= 63,
            o + b <= 64,
            t < b,
            ot == o + t,
    ;
}

/// A field of `b` bits shifted up by `o` has no bit outside `o .. o + b`.
proof fn lemma_shifted_field_clear(u: u64, b: u64, o: u64, j: u64)
    requires
        1 <= b <= 63,
        o + b <= 64,
        j < 64,
        j < o || o + b <= j,
    ensures
        !word_bit((u & ((1u64 << b) - 1u64) as u64) << o, j as int),
{
    assert(((((u & (((1u64 << b) - 1u64) as u64)) << o) >> j) & 1u64 == 0u64)) by (bit_vector)
        requires
            1 <= b <= 63,
            o + b <= 64,
            j < 64,
            j < o || o + b <= j,
    ;
}

/// The high part of a field split at bit `l`: bits `l ..` of `u`, masked to
/// `h` bits, moved down to the bottom of the next word.
proof fn lemma_high_part_bit(u: u64, l: u64, h: u64, j: u64)
    requires
        1 <= l <= 63,
        1 <= h <= 63,
        l + h <= 63,
        j < 64,
    ensures
        word_bit((u >> l) & ((1u64 << h) - 1u64) as u64, j as int) == (j < h && word_bit(
            u,
            (l + j) as int,
        )),
{
    let lj = (l + j) as u64;
    if j < h {
        assert((((((u >> l) & (((1u64 << h) - 1u64) as u64)) >> j) & 1u64 == 1u64) == ((u >> lj)
            & 1u64 == 1u64))) by (bit_vector)
            requires
                1 <= l <= 63,
                1 <= h <= 63,
                l + h <= 63,
                j < h,
                lj == l + j,
        ;
    } else {
        assert(((((u >> l) & (((1u64 << h) - 1u64) as u64)) >> j) & 1u64 == 0u64)) by (bit_vector)
            requires
                1 <= h <= 63,
                h <= j < 64,
        ;
    }
}

/// ORing `x` into word `w` of a packed string sets exactly the bits of `x`
/// in that word and leaves the others.
proof fn lemma_or_word(old: Seq<u64>, new: Seq<u64>, w: int, x: u64)
    requires
        0 <= w < old.len(),
        new == old.update(w, old[w] | x),
    ensures
        forall|p: int|
            0 <= p < old.len() * 64 ==> #[trigger] packed_bit(new, p) == (packed_bit(old, p) || (p
                / 64 == w && word_bit(x, p % 64))),
{
    lemma_replace_word(old, new, w, old[w] | x);
    assert forall|p: int| 0 <= p < old.len() * 64 implies #[trigger] packed_bit(new, p) == (
    packed_bit(old, p) || (p / 64 == w && word_bit(x, p % 64))) by {
        if p / 64 == w {
            crate::bits::lemma_or_bit(old[w], x, (p % 64) as u64);
        }
    }
}

/// Packs the low `bits` bits of each level into a stream of `bits`-bit
/// fields, the first level in the lowest bits of the first word; a field
/// that crosses a word boundary continues at the bottom of the next word.
/// The stream takes `ceil(levels.len() * bits / 64)` words and every bit
/// past the last field is clear.
pub fn pack_levels(levels: &[u64], bits: u32) -> (r: Vec<u64>)
    requires
        1 <= bits <= 63,
        levels@.len() * bits + 63 <= usize::MAX,
    ensures
        r@.len() == words_for((levels@.len() * bits) as nat),
        forall|p: int|
            0 <= p < r@.len() * 64 ==> #[trigger] packed_bit(r@, p) == level_stream_bit(
                levels@,
                bits as nat,
                p,
            ),
{
    let b: usize = bits as usize;
    let total: usize = levels.len() * b;
    let n_words: usize = (total + 63) / 64;
    proof {
        let bb = bits as u64;
        assert(1u64 << bb >= 1u64) by (bit_vector)
            requires
                bb < 64,
        ;
    }
    let mask: u64 = (1u64 << (bits as u64)) - 1u64;
    let mut words: Vec<u64> = Vec::new();
    let mut k: usize = 0;
    while k < n_words
        invariant
            k <= n_words,
            words@.len() == k,
            forall|m: int| 0 <= m < k ==> words@[m] == 0u64,
        decreases n_words - k,
    {
        words.push(0u64);
        k = k + 1;
    }
    proof {
        assert forall|p: int| 0 <= p < n_words * 64 implies !#[trigger] packed_bit(words@, p) by {
            lemma_zero_word_bits((p % 64) as u64);
        }
    }
    let mut cursor: usize = 0;
    let mut i: usize = 0;
    while i < levels.len()
        invariant
            1 <= b <= 63,
            b == bits,
            mask == ((1u64 << (bits as u64)) - 1u64) as u64,
            total == levels@.len() * b,
            total + 63 <= usize::MAX,
            n_words == (total + 63) / 64,
            words@.len() == n_words,
            i <= levels@.len(),
            cursor == i * b,
            cursor <= total,
            forall|p: int|
                0 <= p < n_words * 64 ==> #[trigger] packed_bit(words@, p) == (p < cursor
                    && level_stream_bit(levels@, b as nat, p)),
        decreases levels@.len() - i,
    {
        let u = levels[i];
        proof {
            assert((i + 1) * b <= levels@.len() * b) by (nonlinear_arith)
                requires
                    i < levels@.len(),
                    b >= 1,
            ;
            assert((i + 1) * b == i * b + b) by (nonlinear_arith);
        }
        let w = cursor / 64;
        let off = cursor % 64;
        let ghost before = words@;
        proof {
            assert(n_words * 64 >= total) by (nonlinear_arith)
                requires
                    n_words == (total + 63) / 64,
            ;
            assert(w < n_words) by (nonlinear_arith)
                requires
                    w == cursor / 64,
                    cursor < total,
                    n_words * 64 >= total,
            ;
            assert(cursor == w * 64 + off) by (nonlinear_arith)
                requires
                    w == cursor / 64,
                    off == cursor % 64,
            ;
        }
        if off + b <= 64 {
            let x = (u & mask) << (off as u64);
            let cur = words[w];
            words.set(w, cur | x);
            proof {
                lemma_or_word(before, words@, w as int, x);
                assert forall|p: int| 0 <= p < n_words * 64 implies #[trigger] packed_bit(
                    words@,
                    p,
                ) == (p < cursor + b && level_stream_bit(levels@, b as nat, p)) by {
                    if p / 64 == w {
                        lemma_word_position(p, w as int);
                        let j = p % 64;
                        if off <= j < off + b {
                            let t = j - off;
                            lemma_shifted_field_bit(u, b as u64, off as u64, t as u64);
                            lemma_field_position(i as int, b as int, t);
                        } else {
                            lemma_shifted_field_clear(u, b as u64, off as u64, j as u64);
                        }
                    } else if cursor <= p < cursor + b {
                        assert(w * 64 <= p < w * 64 + 64);
                        lemma_word_position(p, w as int);
                    }
                }
            }
        } else {
            let low: usize = 64 - off;
            let hb: usize = b - low;
            proof {
                let l = low as u64;
                assert(1u64 << l >= 1u64) by (bit_vector)
                    requires
                        l < 64,
                ;
                let h = hb as u64;
                assert(1u64 << h >= 1u64) by (bit_vector)
                    requires
                        h < 64,
                ;
            }
            let low_mask: u64 = (1u64 << (low as u64)) - 1u64;
            let x = (u & low_mask) << (off as u64);
            let cur = words[w];
            words.set(w, cur | x);
            let ghost mid = words@;
            proof {
                lemma_or_word(before, mid, w as int, x);
            }
            if w + 1 < n_words {
                let y = (u >> (low as u64)) & ((1u64 << (hb as u64)) - 1u64);
                let nxt = words[w + 1];
                words.set(w + 1, nxt | y);
                proof {
                    lemma_or_word(mid, words@, w + 1, y);
                    assert forall|p: int| 0 <= p < n_words * 64 implies #[trigger] packed_bit(
                        words@,
                        p,
                    ) == (p < cursor + b && level_stream_bit(levels@, b as nat, p)) by {
                        if p / 64 == w {
                            lemma_word_position(p, w as int);
                            let j = p % 64;
                            if off <= j {
                                let t = j - off;
                                lemma_shifted_field_bit(u, low as u64, off as u64, t as u64);
                                lemma_field_position(i as int, b as int, t);
                            } else {
                                lemma_shifted_field_clear(u, low as u64, off as u64, j as u64);
                            }
                        } else if p / 64 == w + 1 {
                            lemma_word_position(p, w + 1);
                            let j = p % 64;
                            lemma_high_part_bit(u, low as u64, hb as u64, j as u64);
                            if j < hb {
                                lemma_field_position(i as int, b as int, low + j);
                            }
                        } else if cursor <= p < cursor + b {
                            if p < w * 64 + 64 {
                                lemma_word_position(p, w as int);
                            } else {
                                lemma_word_position(p, w + 1);
                            }
                        }
                    }
                }
            } else {
                proof {
                    assert(false) by (nonlinear_arith)
                        requires
                            cursor == w * 64 + off,
                            off + b > 64,
                            cursor + b <= total,
                            w + 1 >= n_words,
                            n_words == (total + 63) / 64,
                    ;
                }
            }
        }
        cursor = cursor + b;
        i = i + 1;
    }
    proof {
        assert forall|p: int| 0 <= p < words@.len() * 64 implies #[trigger] packed_bit(words@, p)
            == level_stream_bit(levels@, bits as nat, p) by {
        }
    }
    words
}

} // verus!
