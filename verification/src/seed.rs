//! Deterministic seeds and seeded binary vectors from string keys.
use vstd::prelude::*;
use crate::bsc::{BinaryHDVector, bits_of_bytes};
use crate::bsc::lemma_bits_determine_words;
use crate::rng::{seeded_stream, seeded_words};
use vstd::string::StringSliceAdditionalSpecFns;

verus! {

/// The multiplicative hash of a key: starting from `acc`, each byte `b`
/// maps the state `s` to `s * 31 + b`, wrapping at 2^64.
pub open spec fn seed_fold(acc: u64, bytes: Seq<u8>) -> u64
    decreases bytes.len(),
{
    if bytes.len() == 0 {
        acc
    } else {
        seed_fold(acc, bytes.drop_last()).wrapping_mul(31).wrapping_add(bytes.last() as u64)
    }
}

/// A deterministic `u64` seed from a base seed and a string key: the fold
/// of `s * 31 + b` over the key's UTF-8 bytes, starting at `base_seed`.
pub fn deterministic_seed(base_seed: u64, key: &str) -> (r: u64)
    ensures
        r == seed_fold(base_seed, key.spec_bytes()),
{
    let bytes = key.as_bytes();
    let mut acc = base_seed;
    let mut i: usize = 0;
    while i < bytes.len()
        invariant
            bytes@ == key.spec_bytes(),
            i <= bytes@.len(),
            acc == seed_fold(base_seed, bytes@.take(i as int)),
        decreases bytes@.len() - i,
    {
        proof {
            assert(bytes@.take(i + 1).drop_last() =~= bytes@.take(i as int));
        }
        acc = acc.wrapping_mul(31).wrapping_add(bytes[i] as u64);
        i = i + 1;
    }
    proof {
        assert(bytes@.take(bytes@.len() as int) =~= bytes@);
    }
    acc
}

/// Each byte of a key enters its seed unchanged: the seed of the empty key
/// is the base seed, and appending a byte `b` to a key maps its seed `s`
/// to `(s * 31 + b) mod 2^64`.
pub proof fn lemma_seed_byte_step(base_seed: u64, key: Seq<u8>, b: u8)
    ensures
        seed_fold(base_seed, Seq::<u8>::empty()) == base_seed,
        seed_fold(base_seed, key.push(b)) as int == (seed_fold(base_seed, key) as int * 31 + b as int)
            % 0x1_0000_0000_0000_0000int,
{
    assert(key.push(b).drop_last() =~= key);
    let s = seed_fold(base_seed, key);
    let m = s.wrapping_mul(31);
    assert(m as int == (s as int * 31) % 0x1_0000_0000_0000_0000int);
    assert((m as int + b as int) % 0x1_0000_0000_0000_0000int == (s as int * 31 + b as int)
        % 0x1_0000_0000_0000_0000int) by (nonlinear_arith)
        requires
            m as int == (s as int * 31) % 0x1_0000_0000_0000_0000int,
    {
        vstd::arithmetic::div_mod::lemma_add_mod_noop(s as int * 31, b as int, 0x1_0000_0000_0000_0000int);
    }
}

/// Whether a generator word, read as the float `(w >> 11) * 2^-53` that
/// `Rng::gen::<f64>` makes of it, lies below one half: exactly when its top
/// bit is clear.
pub open spec fn draw_below_half(w: u64) -> bool {
    w >> 63u64 == 0
}

/// A word lies below one half as a draw exactly when the 53-bit fraction
/// `(w >> 11) / 2^53` that the float is made of is below `1/2`, that is
/// when `2 * (w >> 11) < 2^53`.
pub proof fn lemma_draw_below_half_fraction(w: u64)
    ensures
        draw_below_half(w) == (2 * ((w >> 11u64) as int) < 0x20_0000_0000_0000int),
{
    assert((w >> 63u64 == 0u64) == (w >> 11u64 < 0x10_0000_0000_0000u64)) by (bit_vector);
}

/// The bit a draw gives: 1 where the draw lies below one half.
pub open spec fn draw_bits(draws: Seq<u64>) -> Seq<bool> {
    Seq::new(draws.len(), |i: int| draw_below_half(draws[i]))
}

/// Builds a binary vector with one bit per generator word: bit `i` is set
/// exactly when draw `i`, read as a float in [0, 1), is below one half.
pub fn binary_from_draws(draws: &[u64]) -> (r: BinaryHDVector)
    ensures
        r.wf(),
        r.dim == draws@.len(),
        r@ == draw_bits(draws@),
{
    let mut bits: Vec<u8> = Vec::new();
    let mut i: usize = 0;
    while i < draws.len()
        invariant
            i <= draws@.len(),
            bits@.len() == i,
            forall|k: int| 0 <= k < i ==> (#[trigger] bits@[k] != 0) == draw_below_half(draws@[k]),
        decreases draws@.len() - i,
    {
        let b: u8 = if draws[i] >> 63u64 == 0 {
            1
        } else {
            0
        };
        bits.push(b);
        i = i + 1;
    }
    let r = BinaryHDVector::from_bits(&bits);
    proof {
        assert(bits_of_bytes(bits@) =~= draw_bits(draws@));
    }
    r
}

/// The bits of the seeded binary vector for a base seed, the bytes of a
/// key and a dimension: one draw of the generator seeded with the key's
/// seed per bit.
pub open spec fn seeded_bits(base_seed: u64, key: Seq<u8>, dim: nat) -> Seq<bool> {
    draw_bits(seeded_stream(seed_fold(base_seed, key), dim))
}

/// A deterministic binary vector of `dim` bits from a base seed and a key:
/// the standard generator seeded with `deterministic_seed(base_seed, key)`
/// draws one word per bit, and `binary_from_draws` turns them into bits.
pub fn deterministic_binary_hd_vector(base_seed: u64, key: &str, dim: usize) -> (r: BinaryHDVector)
    ensures
        r.wf(),
        r.dim == dim,
        r@ == seeded_bits(base_seed, key.spec_bytes(), dim as nat),
{
    let seed = deterministic_seed(base_seed, key);
    let draws = seeded_words(seed, dim);
    binary_from_draws(&draws)
}

/// The same base seed, key and dimension always give the same vector, down
/// to its words.
pub proof fn lemma_seeded_vector_reproducible(
    a: BinaryHDVector,
    b: BinaryHDVector,
    base_seed: u64,
    key: Seq<u8>,
    dim: nat,
)
    requires
        a.wf(),
        b.wf(),
        a.dim == dim,
        b.dim == dim,
        a@ == seeded_bits(base_seed, key, dim),
        b@ == seeded_bits(base_seed, key, dim),
    ensures
        a.words@ == b.words@,
{
    lemma_bits_determine_words(a, b);
}

} // verus!
