//! The permutation engine: a fixed pseudo-random shuffle of the positions
//! of a vector and its exact inverse.
use vstd::prelude::*;

verus! {

/// Seed of the engine's linear congruential generator.
pub open spec fn lcg_seed() -> u64 {
    13374269u64
}

/// One step of the engine's linear congruential generator (wrapping).
pub open spec fn lcg_next(s: u64) -> u64 {
    s.wrapping_mul(6364136223846793005u64).wrapping_add(1442695040888963407u64)
}

/// The generator's state after `k` steps; output `k` (from 1) is state `k`.
pub open spec fn lcg_state(k: nat) -> u64
    decreases k,
{
    if k == 0 {
        lcg_seed()
    } else {
        lcg_next(lcg_state((k - 1) as nat))
    }
}

/// Fisher-Yates shuffle of `0..dim` after `t` swaps: swap number `t`
/// (from 1) exchanges position `i = dim - t` with position
/// `j = output_t % (i + 1)`, where `output_t` is generator state `t` read as
/// a `usize`.
pub open spec fn shuffle(dim: nat, t: nat) -> Seq<usize>
    decreases t,
{
    if t == 0 {
        Seq::new(dim, |k: int| k as usize)
    } else {
        let prev = shuffle(dim, (t - 1) as nat);
        let i = dim - t;
        let j = ((lcg_state(t) as usize) % ((i + 1) as usize)) as int;
        prev.update(i, prev[j]).update(j, prev[i])
    }
}

proof fn lemma_shuffle_len(dim: nat, t: nat)
    requires
        t < dim,
        dim <= usize::MAX,
    ensures
        shuffle(dim, t).len() == dim,
    decreases t,
{
    if t > 0 {
        lemma_shuffle_len(dim, (t - 1) as nat);
    }
}

/// The engine's generator: it starts at 13374269 and each output `s` is
/// followed by `(s * 6364136223846793005 + 1442695040888963407) mod 2^64`.
pub proof fn lemma_lcg_outputs(k: nat)
    ensures
        lcg_state(0) == 13374269,
        lcg_state(k + 1) as int == (lcg_state(k) as int * 6364136223846793005int
            + 1442695040888963407int) % 0x1_0000_0000_0000_0000int,
{
    let s = lcg_state(k);
    let m = s.wrapping_mul(6364136223846793005u64);
    assert(m as int == (s as int * 6364136223846793005int) % 0x1_0000_0000_0000_0000int);
    vstd::arithmetic::div_mod::lemma_add_mod_noop(
        s as int * 6364136223846793005int,
        1442695040888963407int,
        0x1_0000_0000_0000_0000int,
    );
    vstd::arithmetic::div_mod::lemma_mod_twice(
        s as int * 6364136223846793005int,
        0x1_0000_0000_0000_0000int,
    );
    vstd::arithmetic::div_mod::lemma_small_mod(
        1442695040888963407nat,
        0x1_0000_0000_0000_0000nat,
    );
    assert(lcg_state(k + 1) as int == (m as int + 1442695040888963407int)
        % 0x1_0000_0000_0000_0000int);
}

/// Swap `t` of the shuffle of `0..dim` (`1 <= t < dim`) exchanges position
/// `i = dim - t` with position `j = output_t mod (i + 1)`, which can be any
/// of `0..=i` (`i` itself included), and leaves every other position as it
/// was; the shuffle stays a sequence of `dim` entries.
pub proof fn lemma_shuffle_swap_step(dim: nat, t: nat)
    requires
        1 <= t < dim,
        dim <= usize::MAX,
    ensures
        ({
            let i = dim - t;
            let j = (lcg_state(t) as usize) as int % (i + 1);
            &&& 0 <= j <= i
            &&& shuffle(dim, t).len() == dim
            &&& shuffle(dim, t)[i] == shuffle(dim, (t - 1) as nat)[j]
            &&& shuffle(dim, t)[j] == shuffle(dim, (t - 1) as nat)[i]
            &&& forall|k: int|
                0 <= k < dim && k != i && k != j ==> #[trigger] shuffle(dim, t)[k] == shuffle(
                    dim,
                    (t - 1) as nat,
                )[k]
        }),
{
    lemma_shuffle_len(dim, t);
    lemma_shuffle_len(dim, (t - 1) as nat);
}

/// The shuffle the engine uses for dimension `dim`: `dim - 1` swaps.
pub open spec fn engine_shuffle(dim: nat) -> Seq<usize> {
    if dim == 0 {
        Seq::<usize>::empty()
    } else {
        shuffle(dim, (dim - 1) as nat)
    }
}

/// `fwd` and `inv` are permutations of `0..dim` and inverse to each other.
pub open spec fn inverse_perms(fwd: Seq<usize>, inv: Seq<usize>, dim: nat) -> bool {
    &&& fwd.len() == dim
    &&& inv.len() == dim
    &&& forall|k: int| 0 <= k < dim ==> #[trigger] fwd[k] < dim && inv[fwd[k] as int] == k
    &&& forall|m: int| 0 <= m < dim ==> #[trigger] inv[m] < dim && fwd[inv[m] as int] == m
}

/// Gathering by an index map: position `m` of the result is `d[g[m]]`.
pub open spec fn gather<T>(d: Seq<T>, g: Seq<usize>) -> Seq<T> {
    Seq::new(d.len(), |m: int| d[g[m] as int])
}

/// `k` successive gathers by the same map.
pub open spec fn gather_steps<T>(d: Seq<T>, g: Seq<usize>, k: nat) -> Seq<T>
    decreases k,
{
    if k == 0 {
        d
    } else {
        gather(gather_steps(d, g, (k - 1) as nat), g)
    }
}

/// A fixed shuffle of positions (`perm_forward`) and its inverse
/// (`perm_inverse`), generated deterministically for each dimension.
#[derive(Debug, Clone)]
pub struct VsaEngine {
    pub perm_forward: Vec<usize>,
    pub perm_inverse: Vec<usize>,
    pub dim: usize,
}

impl VsaEngine {
    /// The engine's tables are inverse permutations of `0..dim`.
    pub open spec fn wf(&self) -> bool {
        inverse_perms(self.perm_forward@, self.perm_inverse@, self.dim as nat)
    }

    /// Whether the tables are inverse permutations of `0..dim` (see `wf`).
    pub fn is_well_formed(&self) -> (b: bool)
        ensures
            b == self.wf(),
    {
        let n = self.dim;
        if self.perm_forward.len() != n || self.perm_inverse.len() != n {
            return false;
        }
        let mut i: usize = 0;
        while i < n
            invariant
                n == self.dim,
                self.perm_forward@.len() == n,
                self.perm_inverse@.len() == n,
                i <= n,
                forall|k: int|
                    0 <= k < i ==> #[trigger] self.perm_forward@[k] < n && self.perm_inverse@[self.perm_forward@[k] as int] == k,
            decreases n - i,
        {
            let f = self.perm_forward[i];
            if f >= n || self.perm_inverse[f] != i {
                return false;
            }
            i = i + 1;
        }
        let mut m: usize = 0;
        while m < n
            invariant
                n == self.dim,
                self.perm_forward@.len() == n,
                self.perm_inverse@.len() == n,
                m <= n,
                forall|k: int|
                    0 <= k < n ==> #[trigger] self.perm_forward@[k] < n && self.perm_inverse@[self.perm_forward@[k] as int] == k,
                forall|q: int|
                    0 <= q < m ==> #[trigger] self.perm_inverse@[q] < n && self.perm_forward@[self.perm_inverse@[q] as int] == q,
            decreases n - m,
        {
            let g = self.perm_inverse[m];
            if g >= n || self.perm_forward[g] != m {
                return false;
            }
            m = m + 1;
        }
        true
    }

    /// Builds the engine for `dim`: a Fisher-Yates shuffle of `0..dim` driven
    /// by the engine's linear congruential generator, and its inverse.
    pub fn new(dim: usize) -> (r: Self)
        ensures
            r.wf(),
            r.dim == dim,
            r.perm_forward@ == engine_shuffle(dim as nat),
    {
        let mut seed: u64 = 13374269u64;
        let mut perm_forward: Vec<usize> = Vec::new();
        let mut k: usize = 0;
        while k < dim
            invariant
                k <= dim,
                perm_forward@ == Seq::new(k as nat, |x: int| x as usize),
            decreases dim - k,
        {
            perm_forward.push(k);
            k = k + 1;
            proof {
                assert(perm_forward@ =~= Seq::new(k as nat, |x: int| x as usize));
            }
        }
        let ghost mut inv: Seq<usize> = Seq::new(dim as nat, |x: int| x as usize);
        if dim > 0 {
            let mut i: usize = dim - 1;
            proof {
                assert(perm_forward@ =~= shuffle(dim as nat, 0));
            }
            while i >= 1
                invariant
                    dim > 0,
                    i < dim,
                    seed == lcg_state((dim - 1 - i) as nat),
                    perm_forward@ == shuffle(dim as nat, (dim - 1 - i) as nat),
                    inverse_perms(perm_forward@, inv, dim as nat),
                decreases i,
            {
                seed = seed.wrapping_mul(6364136223846793005u64).wrapping_add(1442695040888963407u64);
                let j = (seed as usize) % (i + 1);
                let ghost t = (dim - i) as nat;
                let ghost prev = perm_forward@;
                let a = perm_forward[i];
                let b = perm_forward[j];
                perm_forward.set(i, b);
                perm_forward.set(j, a);
                proof {
                    assert(seed == lcg_state(t));
                    assert(perm_forward@ == prev.update(i as int, prev[j as int]).update(
                        j as int,
                        prev[i as int],
                    ));
                    inv = inv.update(a as int, j).update(b as int, i);
                    assert forall|x: int| 0 <= x < dim implies #[trigger] perm_forward@[x] < dim
                        && inv[perm_forward@[x] as int] == x by {}
                    assert forall|m: int| 0 <= m < dim implies #[trigger] inv[m] < dim
                        && perm_forward@[inv[m] as int] == m by {}
                }
                i = i - 1;
            }
        }
        let mut perm_inverse: Vec<usize> = Vec::new();
        let mut k: usize = 0;
        while k < dim
            invariant
                k <= dim,
                perm_inverse@.len() == k,
                forall|x: int| 0 <= x < k ==> #[trigger] perm_inverse@[x] == 0,
            decreases dim - k,
        {
            perm_inverse.push(0);
            k = k + 1;
        }
        let mut i: usize = 0;
        while i < dim
            invariant
                i <= dim,
                inverse_perms(perm_forward@, inv, dim as nat),
                perm_inverse@.len() == dim,
                forall|m: int| 0 <= m < dim && inv[m] < i ==> #[trigger] perm_inverse@[m] == inv[m],
            decreases dim - i,
        {
            let target = perm_forward[i];
            perm_inverse.set(target, i);
            i = i + 1;
        }
        proof {
            assert(perm_inverse@ =~= inv);
            if dim > 0 {
                assert(perm_forward@ == engine_shuffle(dim as nat));
            } else {
                assert(perm_forward@ =~= engine_shuffle(dim as nat));
            }
        }
        VsaEngine { perm_forward, perm_inverse, dim }
    }

    /// One forward shuffle of `data` in place: the value at position `i`
    /// moves to position `perm_forward[i]`.
    fn shuffle_once<T: Copy>(&self, data: &mut [T], forward: bool)
        requires
            self.wf(),
            old(data)@.len() == self.dim,
        ensures
            final(data)@.len() == self.dim,
            forward ==> final(data)@ == gather(old(data)@, self.perm_inverse@),
            !forward ==> final(data)@ == gather(old(data)@, self.perm_forward@),
    {
        let dim = self.dim;
        let ghost d0 = data@;
        let ghost g = if forward {
            self.perm_inverse@
        } else {
            self.perm_forward@
        };
        let ghost s = if forward {
            self.perm_forward@
        } else {
            self.perm_inverse@
        };
        let mut scratch: Vec<T> = Vec::new();
        let mut k: usize = 0;
        while k < dim
            invariant
                k <= dim,
                data@ == d0,
                d0.len() == dim,
                scratch@.len() == k,
            decreases dim - k,
        {
            scratch.push(data[k]);
            k = k + 1;
        }
        let mut i: usize = 0;
        while i < dim
            invariant
                self.wf(),
                dim == self.dim,
                data@ == d0,
                d0.len() == dim,
                scratch@.len() == dim,
                s == if forward {
                    self.perm_forward@
                } else {
                    self.perm_inverse@
                },
                g == if forward {
                    self.perm_inverse@
                } else {
                    self.perm_forward@
                },
                i <= dim,
                forall|m: int| 0 <= m < dim && g[m] < i ==> #[trigger] scratch@[m] == d0[g[m] as int],
            decreases dim - i,
        {
            let target = if forward {
                self.perm_forward[i]
            } else {
                self.perm_inverse[i]
            };
            scratch.set(target, data[i]);
            i = i + 1;
        }
        let mut m: usize = 0;
        while m < dim
            invariant
                m <= dim,
                data@.len() == dim,
                scratch@.len() == dim,
                d0.len() == dim,
                self.wf(),
                dim == self.dim,
                g == if forward {
                    self.perm_inverse@
                } else {
                    self.perm_forward@
                },
                forall|x: int| 0 <= x < dim ==> #[trigger] scratch@[x] == d0[g[x] as int],
                forall|x: int| 0 <= x < m ==> #[trigger] data@[x] == scratch@[x],
            decreases dim - m,
        {
            data[m] = scratch[m];
            m = m + 1;
        }
        proof {
            assert(data@ =~= gather(d0, g));
        }
    }

    /// Shuffles `data` in place `steps` times: each step moves the value at
    /// position `i` to position `perm_forward[i]`.
    pub fn permute_data<T: Copy>(&self, data: &mut [T], steps: usize)
        requires
            self.wf(),
            old(data)@.len() == self.dim,
        ensures
            final(data)@ == gather_steps(old(data)@, self.perm_inverse@, steps as nat),
    {
        let ghost d0 = data@;
        let mut s: usize = 0;
        while s < steps
            invariant
                self.wf(),
                data@.len() == self.dim,
                s <= steps,
                data@ == gather_steps(d0, self.perm_inverse@, s as nat),
            decreases steps - s,
        {
            self.shuffle_once(data, true);
            s = s + 1;
        }
    }

    /// The values shuffled `steps` times (see `permute_data`).
    pub fn permute<T: Copy>(&self, values: &[T], steps: usize) -> (r: Vec<T>)
        requires
            self.wf(),
            values@.len() == self.dim,
        ensures
            r@ == gather_steps(values@, self.perm_inverse@, steps as nat),
    {
        let mut out = copy_values(values);
        self.permute_data(out.as_mut_slice(), steps);
        out
    }

    /// The values unshuffled `steps` times: each step moves the value at
    /// position `i` to position `perm_inverse[i]`, undoing one shuffle.
    pub fn unpermute<T: Copy>(&self, values: &[T], steps: usize) -> (r: Vec<T>)
        requires
            self.wf(),
            values@.len() == self.dim,
        ensures
            r@ == gather_steps(values@, self.perm_forward@, steps as nat),
    {
        let mut out = copy_values(values);
        let ghost d0 = out@;
        let mut s: usize = 0;
        while s < steps
            invariant
                self.wf(),
                out@.len() == self.dim,
                s <= steps,
                out@ == gather_steps(d0, self.perm_forward@, s as nat),
            decreases steps - s,
        {
            self.shuffle_once(out.as_mut_slice(), false);
            s = s + 1;
        }
        out
    }
}

/// A vector holding a copy of the values.
fn copy_values<T: Copy>(values: &[T]) -> (r: Vec<T>)
    ensures
        r@ == values@,
{
    let mut out: Vec<T> = Vec::new();
    let mut k: usize = 0;
    while k < values.len()
        invariant
            k <= values@.len(),
            out@ == values@.take(k as int),
        decreases values@.len() - k,
    {
        out.push(values[k]);
        k = k + 1;
        proof {
            assert(out@ =~= values@.take(k as int));
        }
    }
    proof {
        assert(out@ =~= values@);
    }
    out
}

proof fn lemma_gather_steps_shift<T>(d: Seq<T>, g: Seq<usize>, k: nat)
    requires
        k >= 1,
    ensures
        gather_steps(d, g, k) == gather_steps(gather(d, g), g, (k - 1) as nat),
    decreases k,
{
    if k > 1 {
        lemma_gather_steps_shift(d, g, (k - 1) as nat);
        assert(gather_steps(d, g, k) == gather(gather_steps(d, g, (k - 1) as nat), g));
        assert(gather_steps(gather(d, g), g, (k - 1) as nat) == gather(
            gather_steps(gather(d, g), g, (k - 2) as nat),
            g,
        ));
    } else {
        assert(gather_steps(d, g, 0) == d);
        assert(gather_steps(gather(d, g), g, 0) == gather(d, g));
    }
}

proof fn lemma_gather_steps_len<T>(d: Seq<T>, g: Seq<usize>, k: nat)
    ensures
        gather_steps(d, g, k).len() == d.len(),
    decreases k,
{
    if k > 0 {
        lemma_gather_steps_len(d, g, (k - 1) as nat);
    }
}

/// Shuffling `s` times and then `t` more times is shuffling `s + t` times
/// (the same holds of unshuffling, which gathers by the other table).
pub proof fn lemma_steps_compose<T>(d: Seq<T>, g: Seq<usize>, s: nat, t: nat)
    ensures
        gather_steps(gather_steps(d, g, s), g, t) == gather_steps(d, g, s + t),
    decreases t,
{
    if t > 0 {
        lemma_steps_compose(d, g, s, (t - 1) as nat);
        assert((s + t - 1) as nat + 1 == s + t);
    }
}

/// Unpermuting `k` times undoes permuting `k` times, for every `k`: the
/// shuffle is exactly invertible.
pub proof fn lemma_unpermute_permute<T>(e: VsaEngine, d: Seq<T>, k: nat)
    requires
        e.wf(),
        d.len() == e.dim,
    ensures
        gather_steps(gather_steps(d, e.perm_inverse@, k), e.perm_forward@, k) == d,
    decreases k,
{
    if k > 0 {
        let inner = gather_steps(d, e.perm_inverse@, (k - 1) as nat);
        lemma_gather_steps_len(d, e.perm_inverse@, (k - 1) as nat);
        lemma_gather_steps_shift(gather_steps(d, e.perm_inverse@, k), e.perm_forward@, k);
        assert(gather(gather(inner, e.perm_inverse@), e.perm_forward@) =~= inner);
        lemma_unpermute_permute(e, d, (k - 1) as nat);
    }
}

/// Permuting `k` times undoes unpermuting `k` times.
pub proof fn lemma_permute_unpermute<T>(e: VsaEngine, d: Seq<T>, k: nat)
    requires
        e.wf(),
        d.len() == e.dim,
    ensures
        gather_steps(gather_steps(d, e.perm_forward@, k), e.perm_inverse@, k) == d,
    decreases k,
{
    if k > 0 {
        let inner = gather_steps(d, e.perm_forward@, (k - 1) as nat);
        lemma_gather_steps_len(d, e.perm_forward@, (k - 1) as nat);
        lemma_gather_steps_shift(gather_steps(d, e.perm_forward@, k), e.perm_inverse@, k);
        assert(gather(gather(inner, e.perm_forward@), e.perm_inverse@) =~= inner);
        lemma_permute_unpermute(e, d, (k - 1) as nat);
    }
}

/// Two engines built for the same dimension are identical.
pub proof fn lemma_engine_deterministic(a: VsaEngine, b: VsaEngine)
    requires
        a.wf(),
        b.wf(),
        a.dim == b.dim,
        a.perm_forward@ == engine_shuffle(a.dim as nat),
        b.perm_forward@ == engine_shuffle(b.dim as nat),
    ensures
        a.perm_forward@ == b.perm_forward@,
        a.perm_inverse@ == b.perm_inverse@,
{
    assert forall|m: int| 0 <= m < a.dim implies a.perm_inverse@[m] == b.perm_inverse@[m] by {
        let x = a.perm_inverse@[m] as int;
        assert(b.perm_inverse@[a.perm_forward@[x] as int] == x);
    }
    assert(a.perm_inverse@ =~= b.perm_inverse@);
}

} // verus!
