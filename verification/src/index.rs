//! Index vectors: binary hypervectors used as reproducible symbol codes.
use vstd::prelude::*;
use crate::bsc::{
    majority_bits, pair_majority_bits, rotate_bits, same_shape, xor_bits, BinaryHDVector,
    lemma_majority_congruent, lemma_xor_bind_self_inverse,
};
use crate::seed::{deterministic_binary_hd_vector, seeded_bits};
use vstd::string::StringSliceAdditionalSpecFns;

verus! {

/// A binary (BSC) hypervector used as an index code: XOR binding, majority
/// bundling, rotation, and string-keyed reproducible generation.
#[derive(Clone, Debug)]
pub struct IndexVector(pub BinaryHDVector);

impl View for IndexVector {
    type V = Seq<bool>;

    open spec fn view(&self) -> Seq<bool> {
        self.0@
    }
}

/// The inner binary vectors of a sequence of index vectors.
pub open spec fn inners(vs: Seq<IndexVector>) -> Seq<BinaryHDVector> {
    Seq::new(vs.len(), |k: int| vs[k].0)
}

impl IndexVector {
    /// Wraps a binary vector.
    pub fn new(inner: BinaryHDVector) -> (r: Self)
        ensures
            r.0 == inner,
    {
        IndexVector(inner)
    }

    /// Unwraps the binary vector.
    pub fn into_inner(self) -> (r: BinaryHDVector)
        ensures
            r == self.0,
    {
        self.0
    }

    /// Borrows the binary vector.
    pub fn inner(&self) -> (r: &BinaryHDVector)
        ensures
            *r == self.0,
    {
        &self.0
    }

    /// Number of bits.
    pub fn dim(&self) -> (d: usize)
        ensures
            d == self.0.dim,
    {
        self.0.dim
    }

    /// A uniformly random index vector of `dim` bits.
    pub fn random(dim: usize) -> (r: Self)
        ensures
            r.0.wf(),
            r.0.dim == dim,
    {
        IndexVector(BinaryHDVector::random(dim))
    }

    /// The all-zero index vector of `dim` bits.
    pub fn zero(dim: usize) -> (r: Self)
        ensures
            r.0.wf(),
            r.0.dim == dim,
            forall|i: int| 0 <= i < dim ==> !#[trigger] r@[i],
    {
        IndexVector(BinaryHDVector::zeros(dim))
    }

    /// XOR binding.
    pub fn bind(&self, other: &IndexVector) -> (r: IndexVector)
        requires
            self.0.wf(),
            other.0.wf(),
            self.0.dim == other.0.dim,
        ensures
            r.0.wf(),
            r.0.dim == self.0.dim,
            r@ == xor_bits(self@, other@),
    {
        IndexVector(self.0.xor_bind(&other.0))
    }

    /// XOR unbinding, the same operation as binding.
    pub fn unbind(&self, other: &IndexVector) -> (r: IndexVector)
        requires
            self.0.wf(),
            other.0.wf(),
            self.0.dim == other.0.dim,
        ensures
            r.0.wf(),
            r.0.dim == self.0.dim,
            r@ == xor_bits(self@, other@),
    {
        IndexVector(self.0.xor_bind(&other.0))
    }

    /// Pairwise majority bundling.
    pub fn bundle(&self, other: &IndexVector) -> (r: IndexVector)
        requires
            self.0.wf(),
            other.0.wf(),
            self.0.dim == other.0.dim,
        ensures
            r.0.wf(),
            r.0.dim == self.0.dim,
            r@ == pair_majority_bits(self.0, other.0),
    {
        IndexVector(self.0.majority_bundle(&other.0))
    }

    /// Cyclic bit rotation.
    pub fn permute(&self, shift: usize) -> (r: IndexVector)
        requires
            self.0.wf(),
        ensures
            r.0.wf(),
            r.0.dim == self.0.dim,
            self.0.dim == 0 ==> r@ == self@,
            self.0.dim > 0 ==> r@ == rotate_bits(self@, (shift % self.0.dim) as int),
    {
        IndexVector(self.0.rotate(shift))
    }

    /// A reproducible index vector from a base seed and a string key (see
    /// `deterministic_binary_hd_vector`).
    pub fn from_key(base_seed: u64, key: &str, dim: usize) -> (r: Self)
        ensures
            r.0.wf(),
            r.0.dim == dim,
            r@ == seeded_bits(base_seed, key.spec_bytes(), dim as nat),
    {
        IndexVector(deterministic_binary_hd_vector(base_seed, key, dim))
    }

    /// Role-filler encoding: `bind(role, filler)`.
    pub fn encode_role_filler(role: &IndexVector, filler: &IndexVector) -> (r: IndexVector)
        requires
            role.0.wf(),
            filler.0.wf(),
            role.0.dim == filler.0.dim,
        ensures
            r.0.wf(),
            r.0.dim == role.0.dim,
            r@ == xor_bits(role@, filler@),
    {
        role.bind(filler)
    }

    /// Role-filler decoding: `unbind(composite, role)`.
    pub fn decode_role_filler(composite: &IndexVector, role: &IndexVector) -> (r: IndexVector)
        requires
            composite.0.wf(),
            role.0.wf(),
            composite.0.dim == role.0.dim,
        ensures
            r.0.wf(),
            r.0.dim == composite.0.dim,
            r@ == xor_bits(composite@, role@),
    {
        composite.unbind(role)
    }

    /// Majority bundling of many index vectors of one dimension; an empty
    /// slice gives the empty vector.
    pub fn bundle_all(vectors: &[IndexVector]) -> (r: IndexVector)
        requires
            same_shape(inners(vectors@)),
            vectors@.len() <= i32::MAX,
        ensures
            r.0.wf(),
            vectors@.len() == 0 ==> r.0.dim == 0,
            vectors@.len() > 0 ==> r.0.dim == vectors@[0].0.dim && r@ == majority_bits(
                inners(vectors@),
            ),
    {
        if vectors.len() == 0 {
            return IndexVector::zero(0);
        }
        let mut bvs: Vec<BinaryHDVector> = Vec::new();
        let mut k: usize = 0;
        while k < vectors.len()
            invariant
                k <= vectors@.len(),
                bvs@.len() == k,
                forall|j: int|
                    0 <= j < k ==> (#[trigger] bvs@[j]).dim == vectors@[j].0.dim && bvs@[j].words@
                        == vectors@[j].0.words@,
            decreases vectors@.len() - k,
        {
            bvs.push(vectors[k].0.duplicate());
            k = k + 1;
        }
        let ghost ins = inners(vectors@);
        proof {
            assert forall|j: int| 0 <= j < bvs@.len() implies (#[trigger] bvs@[j]).wf() && bvs@[j].dim
                == bvs@[0].dim by {
                assert(ins[j].wf() && ins[j].dim == ins[0].dim);
            }
            assert forall|j: int| 0 <= j < bvs@.len() implies (#[trigger] bvs@[j]).dim == ins[j].dim
                && bvs@[j]@ == ins[j]@ by {
                assert(bvs@[j]@ =~= ins[j]@);
            }
            lemma_majority_congruent(bvs@, ins);
        }
        IndexVector(BinaryHDVector::majority_bundle_all(bvs.as_slice()))
    }
}

/// Decoding a role-filler composite with its role recovers the filler
/// exactly, down to its words.
pub proof fn lemma_role_filler_roundtrip(role: IndexVector, filler: IndexVector, decoded: IndexVector)
    requires
        role.0.wf(),
        filler.0.wf(),
        decoded.0.wf(),
        role.0.dim == filler.0.dim,
        decoded@ == xor_bits(xor_bits(role@, filler@), role@),
    ensures
        decoded.0.words@ == filler.0.words@,
        decoded@ == filler@,
{
    assert(xor_bits(xor_bits(role@, filler@), role@) =~= xor_bits(xor_bits(filler@, role@), role@));
    lemma_xor_bind_self_inverse(filler.0, role.0, decoded.0);
}

/// Two index vectors are equal when their binary vectors have the same
/// dimension and the same words.
impl PartialEq for IndexVector {
    fn eq(&self, other: &Self) -> (r: bool) {
        self.0 == other.0
    }
}

impl vstd::std_specs::cmp::PartialEqSpecImpl for IndexVector {
    open spec fn obeys_eq_spec() -> bool {
        true
    }

    open spec fn eq_spec(&self, other: &IndexVector) -> bool {
        self.0.dim == other.0.dim && self.0.words@ == other.0.words@
    }
}

impl Eq for IndexVector {

}

/// An index vector reads as its binary vector.
impl core::ops::Deref for IndexVector {
    type Target = BinaryHDVector;

    fn deref(&self) -> (r: &BinaryHDVector)
        ensures
            *r == self.0,
    {
        &self.0
    }
}

} // verus!
