//! Binary spatter coding (BSC): bit-packed binary hypervectors.
use vstd::prelude::*;
use crate::bits::{
    count_ones, count_true, lemma_agree_or_tie_bit, lemma_bit_is_01, lemma_count_true_append,
    lemma_count_true_le_len, lemma_count_true_none, lemma_low_mask_bit, lemma_or_shifted_bit,
    lemma_popcount_upto_is_count, lemma_word_ext, lemma_word_slice, lemma_xor_bit,
    lemma_zero_word_bits, packed_bit, popcount, word_bit, words_for, words_needed,
};
use crate::rng::{thread_random_word, thread_rng};

verus! {

/// Setting bit `i` of a packed bit string to `v` by `|` on its word changes
/// no other bit.
pub proof fn lemma_set_packed_bit(old: Seq<u64>, new: Seq<u64>, i: int, v: u64)
    requires
        0 <= i < old.len() * 64,
        v == 0 || v == 1,
        new == old.update(i / 64, old[i / 64] | (v << ((i % 64) as u64))),
    ensures
        new.len() == old.len(),
        forall|k: int|
            0 <= k < old.len() * 64 ==> #[trigger] packed_bit(new, k) == (packed_bit(old, k) || (k
                == i && v == 1)),
{
    assert forall|k: int| 0 <= k < old.len() * 64 implies #[trigger] packed_bit(new, k) == (
    packed_bit(old, k) || (k == i && v == 1)) by {
        if k / 64 == i / 64 {
            lemma_or_shifted_bit(old[i / 64], v, (i % 64) as u64, (k % 64) as u64);
        }
    }
}

/// Replacing word `w` changes only the bits stored in that word.
pub proof fn lemma_replace_word(old: Seq<u64>, new: Seq<u64>, w: int, x: u64)
    requires
        0 <= w < old.len(),
        new == old.update(w, x),
    ensures
        forall|k: int|
            0 <= k < old.len() * 64 && k / 64 != w ==> #[trigger] packed_bit(new, k) == packed_bit(
                old,
                k,
            ),
        forall|k: int|
            0 <= k < old.len() * 64 && k / 64 == w ==> #[trigger] packed_bit(new, k) == word_bit(
                x,
                k % 64,
            ),
{
}

/// ORs the bit value `v` (0 or 1) into position `i` of a packed bit string.
fn or_bit(words: &mut Vec<u64>, i: usize, v: u64)
    requires
        i < old(words)@.len() * 64,
        v == 0 || v == 1,
    ensures
        final(words)@.len() == old(words)@.len(),
        forall|k: int|
            0 <= k < old(words)@.len() * 64 ==> #[trigger] packed_bit(final(words)@, k) == (
            packed_bit(old(words)@, k) || (k == i && v == 1)),
{
    let ghost before = words@;
    let w = i / 64;
    let cur = words[w];
    words.set(w, cur | (v << ((i % 64) as u64)));
    proof {
        lemma_set_packed_bit(before, words@, i as int, v);
    }
}

/// Where bit `k` of a vector rotated by `s` (0 < s < len) comes from.
pub open spec fn rotation_source(k: int, s: int, len: int) -> int {
    if k >= s {
        k - s
    } else {
        k + len - s
    }
}

/// Cyclic rotation of a bit sequence by `s` positions toward higher
/// indices (0 <= s < len): bit `k` of the result is bit `k - s` (mod len)
/// of `a`.
pub open spec fn rotate_bits(a: Seq<bool>, s: int) -> Seq<bool> {
    Seq::new(a.len(), |k: int| a[rotation_source(k, s, a.len() as int)])
}

/// The tie-breaking word used when two words disagree during pairwise
/// majority bundling of word `wi`: a hash of both words and the position.
/// `(b << 37) | (b >> 27)` is `b.rotate_left(37)` and
/// `(h >> 17) | (h << 47)` is `h.rotate_right(17)`.
pub open spec fn tie_word(a: u64, b: u64, wi: u64) -> u64 {
    let h = a.wrapping_mul(0x9E3779B97F4A7C15u64) ^ ((b << 37u64) | (b >> 27u64)) ^ wi.wrapping_mul(
        0xBF58476D1CE4E5B9u64,
    );
    h ^ ((h >> 17u64) | (h << 47u64))
}

/// Pairwise majority of two vectors of the same dimension: where they agree
/// their common bit, where they disagree the bit of `tie_word`.
pub open spec fn pair_majority_bits(a: BinaryHDVector, b: BinaryHDVector) -> Seq<bool> {
    Seq::new(
        a.dim as nat,
        |i: int|
            (a@[i] && b@[i]) || (a@[i] != b@[i] && word_bit(
                tie_word(a.words@[i / 64], b.words@[i / 64], (i / 64) as u64),
                i % 64,
            )),
    )
}

/// Net vote of bit `i` over a sequence of vectors: +1 for every vector whose
/// bit is set, -1 for every vector whose bit is clear.
pub open spec fn vote_sum(vs: Seq<BinaryHDVector>, i: int) -> int
    decreases vs.len(),
{
    if vs.len() == 0 {
        0
    } else {
        vote_sum(vs.drop_last(), i) + if vs.last()@[i] {
            1int
        } else {
            -1int
        }
    }
}

/// Majority vote over a nonempty sequence of vectors: a bit is set where
/// more vectors set it than clear it; on a tie the first vector decides.
pub open spec fn majority_bits(vs: Seq<BinaryHDVector>) -> Seq<bool> {
    Seq::new(
        vs[0].dim as nat,
        |i: int| vote_sum(vs, i) > 0 || (vote_sum(vs, i) == 0 && vs[0]@[i]),
    )
}

/// The tie-breaking bit for position `i` when a vote sum is zero: the top
/// bit of `i * 0x9E3779B97F4A7C15` (wrapping).
pub open spec fn position_tie_bit(i: int) -> bool {
    ((i as u64).wrapping_mul(0x9E3779B97F4A7C15u64) >> 63u64) & 1u64 == 1u64
}

/// Majority of vote sums: a bit is set where its sum is positive, clear
/// where it is negative, and `position_tie_bit` where it is zero.
pub open spec fn majority_of_sums(sums: Seq<i64>, dim: nat) -> Seq<bool> {
    Seq::new(dim, |i: int| sums[i] > 0 || (sums[i] == 0 && position_tie_bit(i)))
}

/// All vectors well-formed and of the same dimension as the first.
pub open spec fn same_shape(vs: Seq<BinaryHDVector>) -> bool {
    forall|k: int| 0 <= k < vs.len() ==> (#[trigger] vs[k]).wf() && vs[k].dim == vs[0].dim
}

/// Adding one more vector changes each vote by that vector's bit.
pub proof fn lemma_vote_step(vs: Seq<BinaryHDVector>, k: int, i: int)
    requires
        0 <= k < vs.len(),
    ensures
        vote_sum(vs.take(k + 1), i) == vote_sum(vs.take(k), i) + if vs[k]@[i] {
            1int
        } else {
            -1int
        },
{
    assert(vs.take(k + 1).drop_last() =~= vs.take(k));
}

/// A vote over `n` vectors lies in `[-n, n]`.
pub proof fn lemma_vote_bound(vs: Seq<BinaryHDVector>, i: int)
    ensures
        -vs.len() <= vote_sum(vs, i) <= vs.len(),
    decreases vs.len(),
{
    if vs.len() > 0 {
        lemma_vote_bound(vs.drop_last(), i);
    }
}

/// A binary hypervector of `dim` bits, packed 64 to a `u64` word, least
/// significant bit first. Binding is XOR, bundling is majority vote and
/// permutation is cyclic rotation.
#[derive(Clone, Debug)]
pub struct BinaryHDVector {
    pub dim: usize,
    pub words: Vec<u64>,
}

impl View for BinaryHDVector {
    type V = Seq<bool>;

    /// The `dim` bits of the vector.
    open spec fn view(&self) -> Seq<bool> {
        Seq::new(self.dim as nat, |i: int| packed_bit(self.words@, i))
    }
}

impl BinaryHDVector {
    /// Well-formedness: exactly enough words for `dim` bits, and every bit
    /// stored past `dim` in the last word is clear.
    pub open spec fn wf(&self) -> bool {
        &&& self.words@.len() == words_for(self.dim as nat)
        &&& forall|i: int|
            self.dim <= i < self.words@.len() * 64 ==> !#[trigger] packed_bit(self.words@, i)
    }

    /// Whether the vector is well-formed (see `wf`): the right number of
    /// words and no bit set past the dimension.
    pub fn is_well_formed(&self) -> (b: bool)
        ensures
            b == self.wf(),
    {
        let n = words_needed(self.dim);
        if self.words.len() != n {
            return false;
        }
        let tail = self.dim % 64;
        if tail == 0 {
            proof {
                assert(n * 64 == self.dim) by (nonlinear_arith)
                    requires
                        n == (self.dim + 63) / 64,
                        self.dim % 64 == 0,
                ;
            }
            return true;
        }
        let last = self.words[n - 1];
        proof {
            assert((n - 1) * 64 + tail == self.dim && n * 64 == (n - 1) * 64 + 64) by (nonlinear_arith)
                requires
                    n == (self.dim + 63) / 64,
                    tail == self.dim % 64,
                    tail != 0,
            ;
        }
        let mut j: usize = tail;
        while j < 64
            invariant
                n >= 1,
                self.words@.len() == n,
                last == self.words@[n - 1],
                (n - 1) * 64 + tail == self.dim,
                n * 64 == (n - 1) * 64 + 64,
                tail <= j <= 64,
                forall|i: int| self.dim <= i < (n - 1) * 64 + j ==> !#[trigger] packed_bit(self.words@, i),
            decreases 64 - j,
        {
            let bit = (last >> (j as u64)) & 1u64;
            proof {
                let i = (n - 1) * 64 + j;
                assert(i / 64 == n - 1 && i % 64 == j) by (nonlinear_arith)
                    requires
                        i == (n - 1) * 64 + j,
                        j < 64,
                ;
            }
            if bit == 1u64 {
                proof {
                    assert(packed_bit(self.words@, (n - 1) * 64 + j));
                }
                return false;
            }
            j = j + 1;
        }
        true
    }

    /// The all-zero vector of `dim` bits.
    pub fn zeros(dim: usize) -> (r: Self)
        ensures
            r.wf(),
            r.dim == dim,
            forall|i: int| 0 <= i < dim ==> !#[trigger] r@[i],
            forall|i: int| 0 <= i < r.words@.len() * 64 ==> !#[trigger] packed_bit(r.words@, i),
    {
        let n_words = words_needed(dim);
        let mut words: Vec<u64> = Vec::new();
        let mut w: usize = 0;
        while w < n_words
            invariant
                w <= n_words,
                words@.len() == w,
                forall|k: int| 0 <= k < w ==> words@[k] == 0u64,
            decreases n_words - w,
        {
            words.push(0u64);
            w = w + 1;
        }
        proof {
            assert forall|i: int| 0 <= i < words@.len() * 64 implies !#[trigger] packed_bit(
                words@,
                i,
            ) by {
                lemma_zero_word_bits((i % 64) as u64);
            }
        }
        BinaryHDVector { dim, words }
    }

    /// Packs bits given one per byte: a nonzero byte is a 1 bit.
    pub fn from_bits(bits: &[u8]) -> (r: Self)
        ensures
            r.wf(),
            r.dim == bits@.len(),
            r@ == bits_of_bytes(bits@),
    {
        let dim = bits.len();
        let mut v = Self::zeros(dim);
        let mut i: usize = 0;
        while i < dim
            invariant
                dim == bits@.len(),
                v.dim == dim,
                i <= dim,
                v.words@.len() == words_for(dim as nat),
                forall|k: int| 0 <= k < i ==> #[trigger] packed_bit(v.words@, k) == (bits@[k] != 0),
                forall|k: int| i <= k < v.words@.len() * 64 ==> !#[trigger] packed_bit(v.words@, k),
            decreases dim - i,
        {
            if bits[i] != 0 {
                let ghost old_words = v.words@;
                let w = i / 64;
                let cur = v.words[w];
                v.words.set(w, cur | (1u64 << ((i % 64) as u64)));
                proof {
                    lemma_set_packed_bit(old_words, v.words@, i as int, 1u64);
                }
            }
            i = i + 1;
        }
        proof {
            assert(v@ =~= bits_of_bytes(bits@));
        }
        v.clear_phantom_bits();
        v
    }

    /// Number of bits.
    pub fn dim(&self) -> (d: usize)
        ensures
            d == self.dim,
    {
        self.dim
    }

    /// The packed words.
    pub fn words(&self) -> (w: &[u64])
        ensures
            w@ == self.words@,
    {
        self.words.as_slice()
    }

    /// Bit `i` as the integer 0 or 1.
    pub(crate) fn bit_value(&self, i: usize) -> (b: u64)
        requires
            self.wf(),
            i < self.dim,
        ensures
            b == 0 || b == 1,
            (b == 1) == self@[i as int],
    {
        proof {
            assert(i / 64 < self.words@.len());
            lemma_bit_is_01(self.words@[(i / 64) as int], (i % 64) as u64);
        }
        (self.words[i / 64] >> ((i % 64) as u64)) & 1u64
    }

    /// Unpacks to one byte per bit, 1 for a set bit and 0 otherwise.
    pub fn to_bits(&self) -> (r: Vec<u8>)
        requires
            self.wf(),
        ensures
            r@ == bytes_of_bits(self@),
    {
        let mut bits: Vec<u8> = Vec::new();
        let mut i: usize = 0;
        while i < self.dim
            invariant
                self.wf(),
                i <= self.dim,
                bits@.len() == i,
                forall|k: int| 0 <= k < i ==> #[trigger] bits@[k] == if self@[k] {
                    1u8
                } else {
                    0u8
                },
            decreases self.dim - i,
        {
            let b = self.bit_value(i);
            bits.push(b as u8);
            i = i + 1;
        }
        proof {
            assert(bits@ =~= bytes_of_bits(self@));
        }
        bits
    }

    /// A copy of this vector with the same dimension and words.
    pub fn duplicate(&self) -> (r: Self)
        ensures
            r.dim == self.dim,
            r.words@ == self.words@,
    {
        let mut words: Vec<u64> = Vec::new();
        let mut w: usize = 0;
        while w < self.words.len()
            invariant
                w <= self.words@.len(),
                words@ == self.words@.take(w as int),
            decreases self.words@.len() - w,
        {
            words.push(self.words[w]);
            w = w + 1;
            proof {
                assert(words@ =~= self.words@.take(w as int));
            }
        }
        proof {
            assert(words@ =~= self.words@);
        }
        BinaryHDVector { dim: self.dim, words }
    }

    /// Clears the bits stored past `dim` in the last word.
    fn clear_phantom_bits(&mut self)
        requires
            old(self).words@.len() == words_for(old(self).dim as nat),
        ensures
            final(self).wf(),
            final(self).dim == old(self).dim,
            final(self)@ == old(self)@,
    {
        let last_bit = self.dim % 64;
        let n = self.words.len();
        if last_bit != 0 && n > 0 {
            let ghost old_words = self.words@;
            proof {
                let k = last_bit as u64;
                assert(1u64 << k >= 1u64) by (bit_vector)
                    requires
                        k < 64,
                ;
            }
            let mask: u64 = (1u64 << (last_bit as u64)) - 1u64;
            let last = self.words[n - 1];
            self.words.set(n - 1, last & mask);
            proof {
                lemma_replace_word(old_words, self.words@, n - 1, last & mask);
                assert forall|k: int| 0 <= k < n * 64 && (k / 64) == n - 1 implies #[trigger] packed_bit(
                    self.words@,
                    k,
                ) == (k < self.dim && packed_bit(old_words, k)) by {
                    lemma_low_mask_bit(last, last_bit as u64, (k % 64) as u64);
                }
                assert(self@ =~= old(self)@);
            }
        }
    }

    /// XOR binding. Self-inverse: binding twice with the same vector gives
    /// the first vector back.
    pub fn xor_bind(&self, other: &Self) -> (r: Self)
        requires
            self.wf(),
            other.wf(),
            self.dim == other.dim,
        ensures
            r.wf(),
            r.dim == self.dim,
            r@ == xor_bits(self@, other@),
    {
        let n = self.words.len();
        let mut words: Vec<u64> = Vec::new();
        let mut w: usize = 0;
        while w < n
            invariant
                n == self.words@.len(),
                n == other.words@.len(),
                w <= n,
                words@.len() == w,
                forall|k: int| 0 <= k < w ==> #[trigger] words@[k] == self.words@[k] ^ other.words@[k],
            decreases n - w,
        {
            words.push(self.words[w] ^ other.words[w]);
            w = w + 1;
        }
        let r = BinaryHDVector { dim: self.dim, words };
        proof {
            assert forall|i: int| 0 <= i < n * 64 implies #[trigger] packed_bit(r.words@, i) == (
            packed_bit(self.words@, i) != packed_bit(other.words@, i)) by {
                lemma_xor_bit(self.words@[i / 64], other.words@[i / 64], (i % 64) as u64);
            }
            assert(r@ =~= xor_bits(self@, other@));
        }
        r
    }
}

impl BinaryHDVector {
    /// A uniformly random vector of `dim` bits.
    pub fn random(dim: usize) -> (r: Self)
        ensures
            r.wf(),
            r.dim == dim,
    {
        let n_words = words_needed(dim);
        let mut rng = thread_rng();
        let mut words: Vec<u64> = Vec::new();
        let mut w: usize = 0;
        while w < n_words
            invariant
                w <= n_words,
                words@.len() == w,
            decreases n_words - w,
        {
            words.push(thread_random_word(&mut rng));
            w = w + 1;
        }
        let mut v = BinaryHDVector { dim, words };
        v.clear_phantom_bits();
        v
    }

    /// Keeps the first `target_dim` bits (all of them when `target_dim` is
    /// at least the dimension).
    pub fn subsample(&self, target_dim: usize) -> (r: Self)
        requires
            self.wf(),
        ensures
            r.wf(),
            target_dim >= self.dim ==> r.dim == self.dim && r.words@ == self.words@,
            target_dim < self.dim ==> r.dim == target_dim && r@ == self@.take(target_dim as int),
    {
        if target_dim >= self.dim {
            return self.duplicate();
        }
        let n_words = words_needed(target_dim);
        let mut words: Vec<u64> = Vec::new();
        let mut w: usize = 0;
        while w < n_words
            invariant
                n_words == words_for(target_dim as nat),
                n_words <= self.words@.len(),
                w <= n_words,
                words@ == self.words@.take(w as int),
            decreases n_words - w,
        {
            words.push(self.words[w]);
            w = w + 1;
            proof {
                assert(words@ =~= self.words@.take(w as int));
            }
        }
        let mut r = BinaryHDVector { dim: target_dim, words };
        proof {
            assert forall|k: int| 0 <= k < target_dim implies #[trigger] packed_bit(r.words@, k)
                == packed_bit(self.words@, k) by {
                assert(k / 64 < n_words);
            }
            assert(r@ =~= self@.take(target_dim as int));
        }
        r.clear_phantom_bits();
        r
    }

    /// Cyclic rotation by `shift` positions toward higher indices (BSC
    /// permutation).
    pub fn rotate(&self, shift: usize) -> (r: Self)
        requires
            self.wf(),
        ensures
            r.wf(),
            r.dim == self.dim,
            self.dim == 0 ==> r@ == self@,
            self.dim > 0 ==> r@ == rotate_bits(self@, (shift % self.dim) as int),
    {
        if self.dim == 0 {
            let r = self.duplicate();
            return r;
        }
        let dim = self.dim;
        let bit_shift = shift % dim;
        if bit_shift == 0 {
            let r = self.duplicate();
            proof {
                assert(r@ =~= rotate_bits(self@, 0));
            }
            return r;
        }
        let z = Self::zeros(dim);
        let mut new_words = z.words;
        let n_words = new_words.len();
        let mut i: usize = 0;
        while i < dim
            invariant
                self.wf(),
                dim == self.dim,
                0 < bit_shift < dim,
                n_words == words_for(dim as nat),
                new_words@.len() == n_words,
                i <= dim,
                forall|k: int|
                    0 <= k < dim ==> #[trigger] packed_bit(new_words@, k) == (rotation_source(
                        k,
                        bit_shift as int,
                        dim as int,
                    ) < i && self@[rotation_source(k, bit_shift as int, dim as int)]),
                forall|k: int| dim <= k < n_words * 64 ==> !#[trigger] packed_bit(new_words@, k),
            decreases dim - i,
        {
            let b = self.bit_value(i);
            let dst = if i >= dim - bit_shift {
                i - (dim - bit_shift)
            } else {
                i + bit_shift
            };
            let ghost before = new_words@;
            or_bit(&mut new_words, dst, b);
            proof {
                assert(rotation_source(dst as int, bit_shift as int, dim as int) == i);
                assert forall|k: int| 0 <= k < dim implies #[trigger] packed_bit(new_words@, k) == (
                rotation_source(k, bit_shift as int, dim as int) < i + 1 && self@[rotation_source(
                    k,
                    bit_shift as int,
                    dim as int,
                )]) by {
                    assert(packed_bit(before, k) == (rotation_source(
                        k,
                        bit_shift as int,
                        dim as int,
                    ) < i && self@[rotation_source(k, bit_shift as int, dim as int)]));
                }
            }
            i = i + 1;
        }
        let mut r = BinaryHDVector { dim, words: new_words };
        proof {
            assert(r@ =~= rotate_bits(self@, bit_shift as int));
        }
        r.clear_phantom_bits();
        r
    }

    /// Pairwise majority bundling, word by word: bits where both vectors
    /// agree are kept, disagreeing bits are decided by a hash of both words
    /// (`tie_word`).
    pub fn majority_bundle(&self, other: &Self) -> (r: Self)
        requires
            self.wf(),
            other.wf(),
            self.dim == other.dim,
        ensures
            r.wf(),
            r.dim == self.dim,
            r@ == pair_majority_bits(*self, *other),
    {
        let n = self.words.len();
        let mut words: Vec<u64> = Vec::new();
        let mut w: usize = 0;
        while w < n
            invariant
                n == self.words@.len(),
                n == other.words@.len(),
                w <= n,
                words@.len() == w,
                forall|k: int|
                    0 <= k < w ==> #[trigger] words@[k] == ((self.words@[k] & other.words@[k]) | ((
                    self.words@[k] ^ other.words@[k]) & tie_word(
                        self.words@[k],
                        other.words@[k],
                        k as u64,
                    ))),
            decreases n - w,
        {
            let a = self.words[w];
            let b = other.words[w];
            let agreed = a & b;
            let contested = a ^ b;
            let h = a.wrapping_mul(0x9E3779B97F4A7C15u64) ^ ((b << 37u64) | (b >> 27u64)) ^ (
            w as u64).wrapping_mul(0xBF58476D1CE4E5B9u64);
            let tie = h ^ ((h >> 17u64) | (h << 47u64));
            words.push(agreed | (contested & tie));
            w = w + 1;
        }
        let mut r = BinaryHDVector { dim: self.dim, words };
        proof {
            assert forall|i: int| 0 <= i < self.dim implies #[trigger] packed_bit(r.words@, i)
                == pair_majority_bits(*self, *other)[i] by {
                let k = i / 64;
                lemma_agree_or_tie_bit(
                    self.words@[k],
                    other.words@[k],
                    tie_word(self.words@[k], other.words@[k], k as u64),
                    (i % 64) as u64,
                );
            }
            assert(r@ =~= pair_majority_bits(*self, *other));
        }
        r.clear_phantom_bits();
        r
    }

    /// Majority vote over many vectors of one dimension: a bit is set where
    /// more vectors set it than clear it; on a tie the first vector decides.
    /// An empty slice gives the empty vector.
    pub fn majority_bundle_all(vectors: &[BinaryHDVector]) -> (r: Self)
        requires
            same_shape(vectors@),
            vectors@.len() <= i32::MAX,
        ensures
            r.wf(),
            vectors@.len() == 0 ==> r.dim == 0,
            vectors@.len() > 0 ==> r.dim == vectors@[0].dim && r@ == majority_bits(vectors@),
    {
        if vectors.len() == 0 {
            return Self::zeros(0);
        }
        let dim = vectors[0].dim;
        let n_words = vectors[0].words.len();
        let ghost vs = vectors@;
        let mut bit_counts: Vec<i32> = Vec::new();
        let mut i: usize = 0;
        while i < dim
            invariant
                i <= dim,
                bit_counts@.len() == i,
                forall|k: int| 0 <= k < i ==> #[trigger] bit_counts@[k] == 0,
            decreases dim - i,
        {
            bit_counts.push(0i32);
            i = i + 1;
        }
        let mut vi: usize = 0;
        while vi < vectors.len()
            invariant
                vs == vectors@,
                same_shape(vs),
                vs.len() <= i32::MAX,
                dim == vs[0].dim,
                vi <= vs.len(),
                bit_counts@.len() == dim,
                forall|k: int| 0 <= k < dim ==> #[trigger] bit_counts@[k] == vote_sum(vs.take(vi as int), k),
            decreases vs.len() - vi,
        {
            let v = &vectors[vi];
            let mut j: usize = 0;
            while j < dim
                invariant
                    vs == vectors@,
                    same_shape(vs),
                    vs.len() <= i32::MAX,
                    dim == vs[0].dim,
                    vi < vs.len(),
                    *v == vs[vi as int],
                    j <= dim,
                    bit_counts@.len() == dim,
                    forall|k: int|
                        0 <= k < j ==> #[trigger] bit_counts@[k] == vote_sum(vs.take(vi + 1), k),
                    forall|k: int|
                        j <= k < dim ==> #[trigger] bit_counts@[k] == vote_sum(vs.take(vi as int), k),
                decreases dim - j,
            {
                proof {
                    assert(vs[vi as int].wf() && vs[vi as int].dim == dim);
                    lemma_vote_step(vs, vi as int, j as int);
                    lemma_vote_bound(vs.take(vi as int), j as int);
                }
                let b = v.bit_value(j);
                let c = bit_counts[j];
                let nc = if b == 1 {
                    c + 1
                } else {
                    c - 1
                };
                bit_counts.set(j, nc);
                j = j + 1;
            }
            vi = vi + 1;
        }
        proof {
            assert(vs.take(vs.len() as int) =~= vs);
        }
        let tie = &vectors[0];
        let z = Self::zeros(dim);
        let mut words = z.words;
        let mut i: usize = 0;
        while i < dim
            invariant
                vs == vectors@,
                same_shape(vs),
                vs.len() > 0,
                *tie == vs[0],
                dim == vs[0].dim,
                n_words == words_for(dim as nat),
                words@.len() == n_words,
                i <= dim,
                bit_counts@.len() == dim,
                forall|k: int| 0 <= k < dim ==> #[trigger] bit_counts@[k] == vote_sum(vs, k),
                forall|k: int|
                    0 <= k < i ==> #[trigger] packed_bit(words@, k) == majority_bits(vs)[k],
                forall|k: int| i <= k < n_words * 64 ==> !#[trigger] packed_bit(words@, k),
            decreases dim - i,
        {
            proof {
                assert(vs[0].wf());
            }
            let c = bit_counts[i];
            let b = if c > 0 {
                1u64
            } else if c < 0 {
                0u64
            } else {
                tie.bit_value(i)
            };
            or_bit(&mut words, i, b);
            i = i + 1;
        }
        let mut r = BinaryHDVector { dim, words };
        proof {
            assert(r@ =~= majority_bits(vs));
        }
        r.clear_phantom_bits();
        r
    }

    /// Number of positions where the two vectors differ, counted word by
    /// word with `count_ones` on the XOR of the words.
    pub fn hamming_distance(&self, other: &Self) -> (d: u64)
        requires
            self.wf(),
            other.wf(),
            self.dim == other.dim,
        ensures
            d == count_true(xor_bits(self@, other@)),
    {
        let n = self.words.len();
        let ghost xw = Seq::new(n as nat, |k: int| self.words@[k] ^ other.words@[k]);
        let ghost all = Seq::new((n * 64) as nat, |i: int| packed_bit(xw, i));
        proof {
            assert forall|i: int| 0 <= i < n * 64 implies #[trigger] packed_bit(xw, i) == (
            packed_bit(self.words@, i) != packed_bit(other.words@, i)) by {
                lemma_xor_bit(self.words@[i / 64], other.words@[i / 64], (i % 64) as u64);
            }
            let x = xor_bits(self@, other@);
            let rest = Seq::new((n * 64 - self.dim) as nat, |i: int| packed_bit(xw, i + self.dim));
            assert(all =~= x + rest);
            lemma_count_true_none(rest);
            lemma_count_true_append(x, rest);
            lemma_count_true_le_len(x);
        }
        let mut acc: u64 = 0;
        let mut w: usize = 0;
        while w < n
            invariant
                n == self.words@.len(),
                n == other.words@.len(),
                xw == Seq::new(n as nat, |k: int| self.words@[k] ^ other.words@[k]),
                all == Seq::new((n * 64) as nat, |i: int| packed_bit(xw, i)),
                count_true(all) <= self.dim,
                count_true(all) == count_true(xor_bits(self@, other@)),
                w <= n,
                acc == count_true(Seq::new((w * 64) as nat, |i: int| packed_bit(xw, i))),
            decreases n - w,
        {
            let c = count_ones(self.words[w] ^ other.words[w]);
            proof {
                lemma_word_slice(xw, w as int);
                lemma_popcount_upto_is_count(xw[w as int], 64);
                lemma_count_true_append(
                    Seq::new((w * 64) as nat, |i: int| packed_bit(xw, i)),
                    Seq::new(64, |j: int| word_bit(xw[w as int], j)),
                );
                let next = Seq::new(((w + 1) * 64) as nat, |i: int| packed_bit(xw, i));
                let tail = Seq::new((n * 64 - (w + 1) * 64) as nat, |i: int| packed_bit(xw, i + (w + 1) * 64));
                assert(all =~= next + tail);
                lemma_count_true_append(next, tail);
            }
            acc = acc + c as u64;
            w = w + 1;
        }
        acc
    }
}

/// Majority vote from per-position sums: a positive sum sets the bit, a
/// negative sum clears it, and a zero sum takes `position_tie_bit`.
pub fn majority_from_sums(sums: &[i64], dim: usize) -> (r: BinaryHDVector)
    requires
        sums@.len() >= dim,
    ensures
        r.wf(),
        r.dim == dim,
        r@ == majority_of_sums(sums@, dim as nat),
{
    let z = BinaryHDVector::zeros(dim);
    let mut words = z.words;
    let n_words = words.len();
    let mut i: usize = 0;
    while i < dim
        invariant
            sums@.len() >= dim,
            n_words == words_for(dim as nat),
            words@.len() == n_words,
            i <= dim,
            forall|k: int| 0 <= k < i ==> #[trigger] packed_bit(words@, k) == majority_of_sums(sums@, dim as nat)[k],
            forall|k: int| i <= k < n_words * 64 ==> !#[trigger] packed_bit(words@, k),
        decreases dim - i,
    {
        let s = sums[i];
        let b = if s > 0 {
            1u64
        } else if s < 0 {
            0u64
        } else {
            let h = (i as u64).wrapping_mul(0x9E3779B97F4A7C15u64);
            proof {
                lemma_bit_is_01(h, 63);
            }
            (h >> 63u64) & 1u64
        };
        or_bit(&mut words, i, b);
        i = i + 1;
    }
    let r = BinaryHDVector { dim, words };
    proof {
        assert(r@ =~= majority_of_sums(sums@, dim as nat));
    }
    r
}

/// Two well-formed vectors with the same dimension and the same bits have
/// the same words.
pub proof fn lemma_bits_determine_words(a: BinaryHDVector, b: BinaryHDVector)
    requires
        a.wf(),
        b.wf(),
        a.dim == b.dim,
        a@ == b@,
    ensures
        a.words@ == b.words@,
{
    assert forall|w: int| 0 <= w < a.words@.len() implies a.words@[w] == b.words@[w] by {
        assert forall|j: int| 0 <= j < 64 implies #[trigger] word_bit(a.words@[w], j) == word_bit(
            b.words@[w],
            j,
        ) by {
            let i = w * 64 + j;
            assert(i / 64 == w && i % 64 == j && i < a.words@.len() * 64) by (nonlinear_arith)
                requires
                    i == w * 64 + j,
                    0 <= j < 64,
                    0 <= w < a.words@.len(),
            ;
            assert(packed_bit(a.words@, i) == word_bit(a.words@[w], j));
            assert(packed_bit(b.words@, i) == word_bit(b.words@[w], j));
            if i < a.dim {
                assert(a@[i] == b@[i]);
                assert(a@[i] == packed_bit(a.words@, i));
                assert(b@[i] == packed_bit(b.words@, i));
            } else {
                assert(!packed_bit(a.words@, i));
                assert(!packed_bit(b.words@, i));
            }
        }
        lemma_word_ext(a.words@[w], b.words@[w]);
    }
    assert(a.words@ =~= b.words@);
}

/// Bits given one per byte: a nonzero byte is a set bit.
pub open spec fn bits_of_bytes(b: Seq<u8>) -> Seq<bool> {
    Seq::new(b.len(), |i: int| b[i] != 0)
}

/// One byte per bit: 1 for a set bit, 0 for a clear one.
pub open spec fn bytes_of_bits(s: Seq<bool>) -> Seq<u8> {
    Seq::new(
        s.len(),
        |i: int|
            if s[i] {
                1u8
            } else {
                0u8
            },
    )
}

/// Unpacking after packing gives back bytes that are all 0 or 1 unchanged,
/// and packing after unpacking gives back the bits.
pub proof fn lemma_bits_bytes_roundtrip(b: Seq<u8>, s: Seq<bool>)
    ensures
        (forall|i: int| 0 <= i < b.len() ==> #[trigger] b[i] == 0 || b[i] == 1) ==> bytes_of_bits(
            bits_of_bytes(b),
        ) == b,
        bits_of_bytes(bytes_of_bits(s)) == s,
{
    assert(bits_of_bytes(bytes_of_bits(s)) =~= s);
    if forall|i: int| 0 <= i < b.len() ==> #[trigger] b[i] == 0 || b[i] == 1 {
        assert(bytes_of_bits(bits_of_bytes(b)) =~= b);
    }
}

/// Pointwise XOR of two bit sequences.
pub open spec fn xor_bits(a: Seq<bool>, b: Seq<bool>) -> Seq<bool> {
    Seq::new(a.len(), |i: int| a[i] != b[i])
}

/// XOR binding is its own inverse: binding `a` with `b` and then with `b`
/// again gives `a`, and the words of any well-formed vector with those bits
/// are the words of `a`.
pub proof fn lemma_xor_bind_self_inverse(a: BinaryHDVector, b: BinaryHDVector, r: BinaryHDVector)
    requires
        a.wf(),
        b.wf(),
        r.wf(),
        a.dim == b.dim,
        r@ == xor_bits(xor_bits(a@, b@), b@),
    ensures
        r@ == a@,
        r.dim == a.dim,
        r.words@ == a.words@,
{
    assert(xor_bits(xor_bits(a@, b@), b@) =~= a@);
    lemma_bits_determine_words(r, a);
}

/// XOR binding is commutative.
pub proof fn lemma_xor_bind_commutative(a: Seq<bool>, b: Seq<bool>)
    requires
        a.len() == b.len(),
    ensures
        xor_bits(a, b) == xor_bits(b, a),
{
    assert(xor_bits(a, b) =~= xor_bits(b, a));
}

/// Rotating by `s` and then by `t` with `s + t` a multiple of the length
/// gives the starting bits back.
pub proof fn lemma_rotate_inverse(a: Seq<bool>, s: int, t: int)
    requires
        0 <= s < a.len(),
        0 <= t < a.len(),
        s + t == a.len() || s + t == 0,
    ensures
        rotate_bits(rotate_bits(a, s), t) == a,
{
    assert(rotate_bits(rotate_bits(a, s), t) =~= a);
}

/// Rotating by `s` and then by `t` is rotating by `s + t`, modulo the
/// length.
pub proof fn lemma_rotate_compose(a: Seq<bool>, s: int, t: int)
    requires
        0 <= s < a.len(),
        0 <= t < a.len(),
    ensures
        rotate_bits(rotate_bits(a, s), t) == rotate_bits(a, (s + t) % (a.len() as int)),
{
    let n = a.len() as int;
    let u = (s + t) % n;
    if s + t < n {
        vstd::arithmetic::div_mod::lemma_fundamental_div_mod_converse(s + t, n, 0, s + t);
    } else {
        vstd::arithmetic::div_mod::lemma_fundamental_div_mod_converse(s + t, n, 1, s + t - n);
    }
    assert(rotate_bits(rotate_bits(a, s), t) =~= rotate_bits(a, u));
}

/// Rotating by zero changes nothing.
pub proof fn lemma_rotate_zero(a: Seq<bool>)
    ensures
        rotate_bits(a, 0) == a,
{
    assert(rotate_bits(a, 0) =~= a);
}

/// Bundling a vector with itself gives the vector back.
pub proof fn lemma_pair_majority_idempotent(a: BinaryHDVector)
    requires
        a.wf(),
    ensures
        pair_majority_bits(a, a) == a@,
{
    assert(pair_majority_bits(a, a) =~= a@);
}

/// Pairwise bundling is symmetric on every bit where the inputs agree, and
/// keeps every such bit.
pub proof fn lemma_pair_majority_keeps_agreement(a: BinaryHDVector, b: BinaryHDVector, i: int)
    requires
        a.dim == b.dim,
        0 <= i < a.dim,
        a@[i] == b@[i],
    ensures
        pair_majority_bits(a, b)[i] == a@[i],
{
}

/// The majority of a single vector is that vector.
pub proof fn lemma_majority_single(v: BinaryHDVector)
    ensures
        majority_bits(seq![v]) == v@,
{
    let vs = seq![v];
    assert forall|i: int| 0 <= i < v.dim implies #[trigger] majority_bits(vs)[i] == v@[i] by {
        assert(vs.drop_last() =~= Seq::<BinaryHDVector>::empty());
        assert(vs.last() == v);
        assert(vote_sum(vs.drop_last(), i) == 0);
        assert(vote_sum(vs, i) == if v@[i] { 1int } else { -1int });
    }
    assert(majority_bits(vs) =~= v@);
}

/// A vector is at Hamming distance zero from itself, distance is symmetric,
/// and distance zero means equal bits.
pub proof fn lemma_hamming_distance_metric(a: Seq<bool>, b: Seq<bool>)
    requires
        a.len() == b.len(),
    ensures
        count_true(xor_bits(a, a)) == 0,
        count_true(xor_bits(a, b)) == count_true(xor_bits(b, a)),
        count_true(xor_bits(a, b)) == 0 ==> a == b,
{
    lemma_count_true_none(xor_bits(a, a));
    lemma_xor_bind_commutative(a, b);
    if count_true(xor_bits(a, b)) == 0 {
        assert forall|i: int| 0 <= i < a.len() implies a[i] == b[i] by {
            if a[i] != b[i] {
                lemma_count_true_positive(xor_bits(a, b), i);
            }
        }
        assert(a =~= b);
    }
}

/// A sequence with a `true` entry counts at least one.
pub proof fn lemma_count_true_positive(s: Seq<bool>, i: int)
    requires
        0 <= i < s.len(),
        s[i],
    ensures
        count_true(s) > 0,
    decreases s.len(),
{
    if i < s.len() - 1 {
        lemma_count_true_positive(s.drop_last(), i);
    }
}

/// Majority bits depend only on the dimensions and the bits of the vectors.
pub proof fn lemma_majority_congruent(a: Seq<BinaryHDVector>, b: Seq<BinaryHDVector>)
    requires
        a.len() == b.len(),
        a.len() > 0,
        forall|k: int| 0 <= k < a.len() ==> (#[trigger] a[k]).dim == b[k].dim && a[k]@ == b[k]@,
    ensures
        majority_bits(a) == majority_bits(b),
{
    assert forall|i: int| 0 <= i < a[0].dim implies vote_sum(a, i) == vote_sum(b, i) by {
        lemma_vote_sum_congruent(a, b, i);
    }
    assert(a[0].dim == b[0].dim && a[0]@ == b[0]@);
    assert(majority_bits(a) =~= majority_bits(b));
}

proof fn lemma_vote_sum_congruent(a: Seq<BinaryHDVector>, b: Seq<BinaryHDVector>, i: int)
    requires
        a.len() == b.len(),
        forall|k: int| 0 <= k < a.len() ==> (#[trigger] a[k]).dim == b[k].dim && a[k]@ == b[k]@,
    ensures
        vote_sum(a, i) == vote_sum(b, i),
    decreases a.len(),
{
    if a.len() > 0 {
        assert(a.last()@ == b.last()@);
        lemma_vote_sum_congruent(a.drop_last(), b.drop_last(), i);
    }
}


proof fn lemma_hash_tie_bit(a: u64, b: u64, wi: u64, j: u64)
    requires
        j < 64,
    ensures
        ({
            let p = a.wrapping_mul(0x9E3779B97F4A7C15u64);
            let q = wi.wrapping_mul(0xBF58476D1CE4E5B9u64);
            word_bit(tie_word(a, b, wi), j as int) == (((p >> j) ^ (b >> ((j + 27) % 64)) ^ (q
                >> j) ^ (p >> ((j + 17) % 64)) ^ (b >> ((j + 44) % 64)) ^ (q >> ((j + 17) % 64)))
                & 1u64 == 1u64)
        }),
{
    let p = a.wrapping_mul(0x9E3779B97F4A7C15u64);
    let q = wi.wrapping_mul(0xBF58476D1CE4E5B9u64);
    let h = p ^ ((b << 37u64) | (b >> 27u64)) ^ q;
    assert(tie_word(a, b, wi) == h ^ ((h >> 17u64) | (h << 47u64)));
    assert((((p ^ ((b << 37u64) | (b >> 27u64)) ^ q) ^ (((p ^ ((b << 37u64) | (b >> 27u64)) ^ q)
        >> 17u64) | ((p ^ ((b << 37u64) | (b >> 27u64)) ^ q) << 47u64))) >> j) & 1u64 == ((p
        >> j) ^ (b >> ((j + 27) % 64)) ^ (q >> j) ^ (p >> ((j + 17) % 64)) ^ (b >> ((j + 44)
        % 64)) ^ (q >> ((j + 17) % 64))) & 1u64) by (bit_vector)
        requires
            j < 64,
    ;
}

/// Pairwise majority bundling keeps every bit on which the two vectors
/// agree, and decides every contested bit `i` (word `w = i / 64`, bit
/// `j = i % 64` of it) by bit `j` of the hash `h ^ h.rotate_right(17)`,
/// where `h = a_w * 0x9E3779B97F4A7C15 ^ b_w.rotate_left(37) ^ w * 0xBF58476D1CE4E5B9`
/// (wrapping products) mixes both words and the word's position, so that
/// neither operand is systematically favoured. Spelled out bit by bit:
/// bit `j` of `x.rotate_left(37)` is bit `(j + 27) % 64` of `x`, and bit
/// `j` of `x.rotate_right(17)` is bit `(j + 17) % 64` of `x`.
pub proof fn lemma_majority_bundle_hash_ties(a: BinaryHDVector, b: BinaryHDVector, i: int)
    requires
        a.wf(),
        b.wf(),
        a.dim == b.dim,
        0 <= i < a.dim,
    ensures
        pair_majority_bits(a, b).len() == a.dim,
        a@[i] == b@[i] ==> pair_majority_bits(a, b)[i] == a@[i],
        a@[i] != b@[i] ==> ({
            let w = i / 64;
            let j = (i % 64) as u64;
            let p = a.words@[w].wrapping_mul(0x9E3779B97F4A7C15u64);
            let q = (w as u64).wrapping_mul(0xBF58476D1CE4E5B9u64);
            let y = b.words@[w];
            pair_majority_bits(a, b)[i] == (((p >> j) ^ (y >> ((j + 27) % 64)) ^ (q >> j) ^ (p
                >> ((j + 17) % 64)) ^ (y >> ((j + 44) % 64)) ^ (q >> ((j + 17) % 64))) & 1u64
                == 1u64)
        }),
{
    let w = i / 64;
    lemma_hash_tie_bit(a.words@[w], b.words@[w], w as u64, (i % 64) as u64);
}


/// The tie bit of a position is the top bit of a multiplicative hash of
/// it: set exactly when `i * 0x9E3779B97F4A7C15 mod 2^64` is at least
/// `2^63`.
pub proof fn lemma_position_tie_bit_is_top_bit(i: int)
    requires
        0 <= i <= u64::MAX,
    ensures
        position_tie_bit(i) == ((i * 0x9E3779B97F4A7C15int) % 0x1_0000_0000_0000_0000int
            >= 0x8000_0000_0000_0000int),
{
    let x = (i as u64).wrapping_mul(0x9E3779B97F4A7C15u64);
    assert(x as int == (i * 0x9E3779B97F4A7C15int) % 0x1_0000_0000_0000_0000int);
    assert(((x >> 63u64) & 1u64 == 1u64) == (x >= 0x8000_0000_0000_0000u64)) by (bit_vector);
}


/// Rotation moves every bit toward higher positions: bit `k` of `a` lands
/// at position `(k + s) % len` of `a` rotated by `s`.
pub proof fn lemma_rotate_moves_bit(a: Seq<bool>, s: int, k: int)
    requires
        0 <= s < a.len(),
        0 <= k < a.len(),
    ensures
        rotate_bits(a, s)[(k + s) % (a.len() as int)] == a[k],
{
    let n = a.len() as int;
    if k + s < n {
        vstd::arithmetic::div_mod::lemma_small_mod((k + s) as nat, n as nat);
    } else {
        vstd::arithmetic::div_mod::lemma_fundamental_div_mod_converse(k + s, n, 1, k + s - n);
        assert((k + s) % n == k + s - n);
    }
}


/// Binding with the all-zero vector changes nothing, and binding with the
/// all-one vector flips every bit.
pub proof fn lemma_xor_bind_constants(a: Seq<bool>)
    ensures
        xor_bits(a, Seq::new(a.len(), |i: int| false)) == a,
        xor_bits(a, Seq::new(a.len(), |i: int| true)) == Seq::new(a.len(), |i: int| !a[i]),
{
    assert(xor_bits(a, Seq::new(a.len(), |i: int| false)) =~= a);
    assert(xor_bits(a, Seq::new(a.len(), |i: int| true)) =~= Seq::new(a.len(), |i: int| !a[i]));
}


/// The net vote at a position is a plain count: the number of vectors with
/// the bit set minus the number with it clear.
pub proof fn lemma_vote_sum_counts(vs: Seq<BinaryHDVector>, i: int)
    ensures
        vote_sum(vs, i) == count_true(Seq::new(vs.len(), |k: int| vs[k]@[i])) - count_true(
            Seq::new(vs.len(), |k: int| !vs[k]@[i]),
        ),
    decreases vs.len(),
{
    if vs.len() > 0 {
        let p = vs.drop_last();
        lemma_vote_sum_counts(p, i);
        assert(Seq::new(vs.len(), |k: int| vs[k]@[i]).drop_last() =~= Seq::new(
            p.len(),
            |k: int| p[k]@[i],
        ));
        assert(Seq::new(vs.len(), |k: int| !vs[k]@[i]).drop_last() =~= Seq::new(
            p.len(),
            |k: int| !p[k]@[i],
        ));
    }
}

} // verus!
