//! Associative reads over binary hypervectors: a majority vote over the
//! selected stored values, and nearest-prototype cleanup by Hamming distance.
use vstd::prelude::*;
use crate::bits::{
    count_true, lemma_bit_is_01, lemma_count_true_append, lemma_count_true_none, packed_bit,
};
use crate::bsc::{majority_from_sums, majority_of_sums, xor_bits, BinaryHDVector};
use crate::quantize::{common_words, differing_bits, wordwise_diff_bits};

verus! {

/// Net vote at position `i` of the first `k` values, counting only the
/// selected ones: +1 where a selected value has the bit set, -1 where it
/// has it clear.
pub open spec fn selected_vote(values: Seq<BinaryHDVector>, sel: Seq<bool>, k: nat, i: int) -> int
    decreases k,
{
    if k == 0 {
        0
    } else {
        selected_vote(values, sel, (k - 1) as nat, i) + if sel[k - 1] {
            if packed_bit(values[k - 1].words@, i) {
                1int
            } else {
                -1int
            }
        } else {
            0int
        }
    }
}

proof fn lemma_selected_vote_bound(values: Seq<BinaryHDVector>, sel: Seq<bool>, k: nat, i: int)
    ensures
        -k <= selected_vote(values, sel, k, i) <= k,
    decreases k,
{
    if k > 0 {
        lemma_selected_vote_bound(values, sel, (k - 1) as nat, i);
    }
}

/// The vote sums of `selective_majority` at each of the first `dim`
/// positions.
pub open spec fn selected_votes(values: Seq<BinaryHDVector>, sel: Seq<bool>, dim: nat) -> Seq<
    i64,
> {
    Seq::new(dim, |i: int| selected_vote(values, sel, values.len(), i) as i64)
}

/// Majority vote over the values whose flag in `selected` is set: each
/// selected value votes +1 at every position where its bit is set and -1
/// where it is clear, and `majority_from_sums` turns the sums into bits
/// (ties take `position_tie_bit`). With nothing selected every position
/// ties.
pub fn selective_majority(values: &[BinaryHDVector], selected: &[bool], dim: usize) -> (r:
    BinaryHDVector)
    requires
        selected@.len() == values@.len(),
        values@.len() <= i64::MAX,
        forall|k: int| 0 <= k < values@.len() ==> dim <= (#[trigger] values@[k]).words@.len() * 64,
    ensures
        r.wf(),
        r.dim == dim,
        r@ == majority_of_sums(selected_votes(values@, selected@, dim as nat), dim as nat),
{
    let mut sums: Vec<i64> = Vec::new();
    let mut i: usize = 0;
    while i < dim
        invariant
            i <= dim,
            sums@.len() == i,
            forall|m: int| 0 <= m < i ==> sums@[m] == 0i64,
        decreases dim - i,
    {
        sums.push(0i64);
        i = i + 1;
    }
    let mut k: usize = 0;
    while k < values.len()
        invariant
            selected@.len() == values@.len(),
            values@.len() <= i64::MAX,
            forall|q: int| 0 <= q < values@.len() ==> dim <= (#[trigger] values@[q]).words@.len() * 64,
            k <= values@.len(),
            sums@.len() == dim,
            forall|m: int| 0 <= m < dim ==> #[trigger] sums@[m] == selected_vote(values@, selected@, k as nat, m),
        decreases values@.len() - k,
    {
        if selected[k] {
            let v = &values[k];
            let mut j: usize = 0;
            while j < dim
                invariant
                    selected@.len() == values@.len(),
                    values@.len() <= i64::MAX,
                    k < values@.len(),
                    selected@[k as int],
                    *v == values@[k as int],
                    dim <= v.words@.len() * 64,
                    j <= dim,
                    sums@.len() == dim,
                    forall|m: int| 0 <= m < j ==> #[trigger] sums@[m] == selected_vote(values@, selected@, (k + 1) as nat, m),
                    forall|m: int| j <= m < dim ==> #[trigger] sums@[m] == selected_vote(values@, selected@, k as nat, m),
                decreases dim - j,
            {
                proof {
                    lemma_bit_is_01(v.words@[(j / 64) as int], (j % 64) as u64);
                    lemma_selected_vote_bound(values@, selected@, k as nat, j as int);
                }
                let bit = (v.words[j / 64] >> ((j % 64) as u64)) & 1u64;
                let s = sums[j];
                if bit == 1u64 {
                    sums.set(j, s + 1);
                } else {
                    sums.set(j, s - 1);
                }
                j = j + 1;
            }
        }
        k = k + 1;
    }
    let r = majority_from_sums(&sums, dim);
    proof {
        assert(sums@ =~= selected_votes(values@, selected@, dim as nat));
    }
    r
}

/// Whether value `k` is selected and has bit `i` set.
pub open spec fn selected_set(values: Seq<BinaryHDVector>, sel: Seq<bool>, k: int, i: int) -> bool {
    sel[k] && packed_bit(values[k].words@, i)
}

/// Whether value `k` is selected and has bit `i` clear.
pub open spec fn selected_clear(values: Seq<BinaryHDVector>, sel: Seq<bool>, k: int, i: int) -> bool {
    sel[k] && !packed_bit(values[k].words@, i)
}

proof fn lemma_selected_vote_prefix(values: Seq<BinaryHDVector>, sel: Seq<bool>, k: nat, i: int)
    ensures
        selected_vote(values, sel, k, i) == count_true(
            Seq::new(k, |q: int| selected_set(values, sel, q, i)),
        ) - count_true(Seq::new(k, |q: int| selected_clear(values, sel, q, i))),
    decreases k,
{
    if k > 0 {
        lemma_selected_vote_prefix(values, sel, (k - 1) as nat, i);
        assert(Seq::new(k, |q: int| selected_set(values, sel, q, i)).drop_last() =~= Seq::new(
            (k - 1) as nat,
            |q: int| selected_set(values, sel, q, i),
        ));
        assert(Seq::new(k, |q: int| selected_clear(values, sel, q, i)).drop_last() =~= Seq::new(
            (k - 1) as nat,
            |q: int| selected_clear(values, sel, q, i),
        ));
    }
}

/// The vote at a position is a plain count: the number of selected values
/// with the bit set minus the number of selected values with it clear
/// (unselected values do not count).
pub proof fn lemma_selected_vote_counts(values: Seq<BinaryHDVector>, sel: Seq<bool>, i: int)
    requires
        sel.len() == values.len(),
    ensures
        selected_vote(values, sel, values.len(), i) == count_true(
            Seq::new(values.len(), |q: int| selected_set(values, sel, q, i)),
        ) - count_true(Seq::new(values.len(), |q: int| selected_clear(values, sel, q, i))),
{
    lemma_selected_vote_prefix(values, sel, values.len(), i);
}

/// Votes add up one value at a time: taking value `k` into account adds
/// +1 where it is selected with the bit set, -1 where it is selected with
/// the bit clear, and nothing where it is not selected.
pub proof fn lemma_selected_vote_additive(values: Seq<BinaryHDVector>, sel: Seq<bool>, k: nat, i: int)
    ensures
        selected_vote(values, sel, k + 1, i) == selected_vote(values, sel, k, i) + if !sel[k as int] {
            0int
        } else if packed_bit(values[k as int].words@, i) {
            1int
        } else {
            -1int
        },
{
}

proof fn lemma_vote_of_one_selected(values: Seq<BinaryHDVector>, sel: Seq<bool>, k: nat, m: int, i: int)
    requires
        0 <= m < sel.len(),
        k <= sel.len(),
        sel[m],
        forall|q: int| 0 <= q < sel.len() && q != m ==> !#[trigger] sel[q],
    ensures
        selected_vote(values, sel, k, i) == if k <= m {
            0int
        } else if packed_bit(values[m].words@, i) {
            1int
        } else {
            -1int
        },
    decreases k,
{
    if k > 0 {
        lemma_vote_of_one_selected(values, sel, (k - 1) as nat, m, i);
    }
}

/// A read that selects exactly one value gives that value's bits back:
/// every sum is +1 or -1, so no position ties.
pub proof fn lemma_single_selection_reads_value(
    values: Seq<BinaryHDVector>,
    sel: Seq<bool>,
    m: int,
    dim: nat,
)
    requires
        sel.len() == values.len(),
        0 <= m < sel.len(),
        sel[m],
        forall|q: int| 0 <= q < sel.len() && q != m ==> !#[trigger] sel[q],
    ensures
        majority_of_sums(selected_votes(values, sel, dim), dim) == Seq::new(
            dim,
            |i: int| packed_bit(values[m].words@, i),
        ),
{
    assert forall|i: int| 0 <= i < dim implies #[trigger] selected_votes(values, sel, dim)[i] == if packed_bit(
        values[m].words@,
        i,
    ) {
        1i64
    } else {
        -1i64
    } by {
        lemma_vote_of_one_selected(values, sel, values.len(), m, i);
    }
    assert(majority_of_sums(selected_votes(values, sel, dim), dim) =~= Seq::new(
        dim,
        |i: int| packed_bit(values[m].words@, i),
    ));
}

/// Hamming distance of two vectors: the number of positions where they
/// differ.
pub open spec fn hamming(a: BinaryHDVector, b: BinaryHDVector) -> nat {
    count_true(xor_bits(a@, b@))
}

/// A cleanup memory over binary prototypes: a query is mapped to its
/// nearest prototype by Hamming distance.
pub struct BinaryCleanupMemory {
    prototypes: Vec<BinaryHDVector>,
}

impl View for BinaryCleanupMemory {
    type V = Seq<BinaryHDVector>;

    /// The stored prototypes, in order.
    closed spec fn view(&self) -> Seq<BinaryHDVector> {
        self.prototypes@
    }
}

impl BinaryCleanupMemory {
    /// A memory holding the given prototypes.
    pub fn new(prototypes: Vec<BinaryHDVector>) -> (r: Self)
        ensures
            r@ == prototypes@,
    {
        BinaryCleanupMemory { prototypes }
    }

    /// Number of prototypes.
    pub fn len(&self) -> (n: usize)
        ensures
            n == self@.len(),
    {
        self.prototypes.len()
    }

    /// The stored prototypes.
    pub fn prototypes(&self) -> (r: &[BinaryHDVector])
        ensures
            r@ == self@,
    {
        self.prototypes.as_slice()
    }

    /// Whether there is no prototype.
    pub fn is_empty(&self) -> (b: bool)
        ensures
            b == (self@.len() == 0),
    {
        self.prototypes.len() == 0
    }

    /// The first prototype at the smallest Hamming distance from `query`:
    /// its index, its distance and a copy of it.
    pub fn nearest(&self, query: &BinaryHDVector) -> (r: (usize, u64, BinaryHDVector))
        requires
            self@.len() > 0,
            query.wf(),
            forall|k: int|
                0 <= k < self@.len() ==> (#[trigger] self@[k]).wf() && self@[k].dim == query.dim,
        ensures
            r.0 < self@.len(),
            r.1 == hamming(*query, self@[r.0 as int]),
            forall|k: int| 0 <= k < self@.len() ==> r.1 <= hamming(*query, #[trigger] self@[k]),
            forall|k: int| 0 <= k < r.0 ==> r.1 < hamming(*query, #[trigger] self@[k]),
            r.2.dim == self@[r.0 as int].dim,
            r.2.words@ == self@[r.0 as int].words@,
    {
        let mut best: usize = 0;
        let mut best_d: u64 = query.hamming_distance(&self.prototypes[0]);
        let mut k: usize = 1;
        while k < self.prototypes.len()
            invariant
                self@ == self.prototypes@,
                self@.len() > 0,
                query.wf(),
                forall|q: int|
                    0 <= q < self@.len() ==> (#[trigger] self@[q]).wf() && self@[q].dim == query.dim,
                1 <= k <= self@.len(),
                best < k,
                best_d == hamming(*query, self@[best as int]),
                forall|q: int| 0 <= q < k ==> best_d <= hamming(*query, #[trigger] self@[q]),
                forall|q: int| 0 <= q < best ==> best_d < hamming(*query, #[trigger] self@[q]),
            decreases self@.len() - k,
        {
            let d = query.hamming_distance(&self.prototypes[k]);
            if d < best_d {
                best = k;
                best_d = d;
            }
            k = k + 1;
        }
        let copy = self.prototypes[best].duplicate();
        (best, best_d, copy)
    }
}

/// The number of differing bits of two packed signatures over the words
/// they share (what `wordwise_diff_bits` computes).
pub open spec fn signature_distance(a: Seq<u64>, b: Seq<u64>) -> nat {
    count_true(differing_bits(a, b, common_words(a, b)))
}

/// The first signature at the smallest word-wise bit distance from `query`:
/// its index and that distance.
pub fn closest_signature(query: &[u64], signatures: &[Vec<u64>]) -> (r: (usize, u64))
    requires
        signatures@.len() > 0,
        forall|k: int|
            0 <= k < signatures@.len() ==> common_words(query@, (#[trigger] signatures@[k])@) * 64
                <= u64::MAX,
    ensures
        r.0 < signatures@.len(),
        r.1 == signature_distance(query@, signatures@[r.0 as int]@),
        forall|k: int|
            0 <= k < signatures@.len() ==> r.1 <= signature_distance(
                query@,
                (#[trigger] signatures@[k])@,
            ),
        forall|k: int|
            0 <= k < r.0 ==> r.1 < signature_distance(query@, (#[trigger] signatures@[k])@),
{
    let mut best: usize = 0;
    let mut best_d: u64 = wordwise_diff_bits(query, signatures[0].as_slice());
    let mut k: usize = 1;
    while k < signatures.len()
        invariant
            signatures@.len() > 0,
            forall|q: int|
                0 <= q < signatures@.len() ==> common_words(query@, (#[trigger] signatures@[q])@)
                    * 64 <= u64::MAX,
            1 <= k <= signatures@.len(),
            best < k,
            best_d == signature_distance(query@, signatures@[best as int]@),
            forall|q: int|
                0 <= q < k ==> best_d <= signature_distance(query@, (#[trigger] signatures@[q])@),
            forall|q: int|
                0 <= q < best ==> best_d < signature_distance(query@, (#[trigger] signatures@[q])@),
        decreases signatures@.len() - k,
    {
        let d = wordwise_diff_bits(query, signatures[k].as_slice());
        if d < best_d {
            best = k;
            best_d = d;
        }
        k = k + 1;
    }
    (best, best_d)
}

/// For two well-formed vectors of one dimension, the word-wise distance of
/// their words is their Hamming distance: the bits stored past the
/// dimension are clear in both and never differ.
pub proof fn lemma_signature_distance_is_hamming(a: BinaryHDVector, b: BinaryHDVector)
    requires
        a.wf(),
        b.wf(),
        a.dim == b.dim,
    ensures
        signature_distance(a.words@, b.words@) == hamming(a, b),
{
    let n = a.words@.len();
    let all = differing_bits(a.words@, b.words@, n);
    let x = xor_bits(a@, b@);
    let rest = Seq::new((n * 64 - a.dim) as nat, |p: int| all[p + a.dim]);
    assert(n * 64 >= a.dim) by (nonlinear_arith)
        requires
            n == (a.dim + 63) / 64,
    ;
    assert forall|p: int| 0 <= p < rest.len() implies !#[trigger] rest[p] by {
        assert(!packed_bit(a.words@, p + a.dim));
        assert(!packed_bit(b.words@, p + a.dim));
    }
    assert(all =~= x + rest);
    lemma_count_true_none(rest);
    lemma_count_true_append(x, rest);
}

} // verus!
