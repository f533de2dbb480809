//! Equality of binary hypervectors: same dimension and same words.
use vstd::prelude::*;
use crate::bsc::BinaryHDVector;

verus! {

impl PartialEq for BinaryHDVector {
    fn eq(&self, other: &Self) -> (r: bool) {
        if self.dim != other.dim || self.words.len() != other.words.len() {
            return false;
        }
        let n = self.words.len();
        let mut w: usize = 0;
        while w < n
            invariant
                n == self.words@.len(),
                n == other.words@.len(),
                w <= n,
                forall|k: int| 0 <= k < w ==> self.words@[k] == other.words@[k],
            decreases n - w,
        {
            if self.words[w] != other.words[w] {
                return false;
            }
            w = w + 1;
        }
        proof {
            assert(self.words@ =~= other.words@);
        }
        true
    }
}

impl vstd::std_specs::cmp::PartialEqSpecImpl for BinaryHDVector {
    open spec fn obeys_eq_spec() -> bool {
        true
    }

    open spec fn eq_spec(&self, other: &BinaryHDVector) -> bool {
        self.dim == other.dim && self.words@ == other.words@
    }
}

impl Eq for BinaryHDVector {

}

} // verus!
