//! Random and seeded word sources taken from the `rand` crate.
use vstd::prelude::*;
use rand::rngs::{StdRng, ThreadRng};
use rand::distributions::Standard;
use rand::{Rng, SeedableRng};

verus! {

#[verifier::external_type_specification]
#[verifier::external_body]
pub struct ExThreadRng(ThreadRng);

/// `rand::thread_rng`: a handle to the thread-local generator seeded from
/// the operating system. Nothing is claimed of its state.
#[verifier::external_body]
pub(crate) fn thread_rng() -> ThreadRng {
    rand::thread_rng()
}

/// `Rng::gen::<u64>` on the thread-local generator: a uniformly random word.
/// Any word may come back, so nothing is claimed of it.
#[verifier::external_body]
pub(crate) fn thread_random_word(rng: &mut ThreadRng) -> u64 {
    rng.gen::<u64>()
}

/// The first `n` words the standard generator (`StdRng`) gives when seeded
/// with `seed` by `seed_from_u64`. The generator (ChaCha with a seed
/// expanded by `seed_from_u64`) is deterministic and platform-independent
/// within this version of `rand`, so this is a fixed function of `seed` and
/// `n`.
pub uninterp spec fn seeded_stream(seed: u64, n: nat) -> Seq<u64>;

/// `StdRng::seed_from_u64` followed by `n` draws of `Rng::gen::<u64>`
/// (`sample_iter(Standard)`): the first `n` words of the seeded stream.
/// Each draw of `gen::<f64>` takes exactly one such word.
#[verifier::external_body]
pub(crate) fn seeded_words(seed: u64, n: usize) -> (r: Vec<u64>)
    ensures
        r@ == seeded_stream(seed, n as nat),
        r@.len() == n,
{
    StdRng::seed_from_u64(seed).sample_iter(Standard).take(n).collect()
}

} // verus!
