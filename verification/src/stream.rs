//! Streaming bundling of binary hypervectors: a vote accumulator and ring
//! buffers of recent vectors.
use vstd::prelude::*;
use crate::bsc::{
    majority_bits, majority_from_sums, majority_of_sums, same_shape, vote_sum, BinaryHDVector,
};

verus! {

/// The vote a bit casts: +1 when set, -1 when clear.
pub open spec fn bit_vote(b: bool) -> int {
    if b {
        1
    } else {
        -1
    }
}

/// Streaming accumulator for BSC bundling: one signed vote counter per bit
/// position, and the number of vectors added.
pub struct BinaryBundleAccumulator {
    dim: usize,
    sums: Vec<i64>,
    count: usize,
}

impl View for BinaryBundleAccumulator {
    /// The dimension, the vote counters, and the number of vectors added.
    type V = (nat, Seq<int>, nat);

    closed spec fn view(&self) -> (nat, Seq<int>, nat) {
        (self.dim as nat, Seq::new(self.sums@.len(), |i: int| self.sums@[i] as int), self.count as nat)
    }
}

impl BinaryBundleAccumulator {
    /// Internal consistency, kept by every operation.
    pub closed spec fn wf(&self) -> bool {
        self.sums@.len() == self.dim
    }

    /// A fresh accumulator: every counter 0 and nothing added.
    pub fn new(dim: usize) -> (r: Self)
        ensures
            r.wf(),
            r@.0 == dim,
            r@.1 == Seq::new(dim as nat, |i: int| 0int),
            r@.2 == 0,
    {
        let mut sums: Vec<i64> = Vec::new();
        let mut i: usize = 0;
        while i < dim
            invariant
                i <= dim,
                sums@.len() == i,
                forall|k: int| 0 <= k < i ==> sums@[k] == 0,
            decreases dim - i,
        {
            sums.push(0i64);
            i = i + 1;
        }
        let r = BinaryBundleAccumulator { dim, sums, count: 0 };
        proof {
            assert(r@.1 =~= Seq::new(dim as nat, |i: int| 0int));
        }
        r
    }

    /// Adds a vector: +1 to the counter of every set bit, -1 to that of every
    /// clear bit.
    pub fn add(&mut self, v: &BinaryHDVector)
        requires
            old(self).wf(),
            v.wf(),
            v.dim == old(self)@.0,
            old(self)@.2 < usize::MAX,
            forall|i: int| 0 <= i < old(self)@.1.len() ==> i64::MIN < #[trigger] old(self)@.1[i] < i64::MAX,
        ensures
            final(self).wf(),
            final(self)@.0 == old(self)@.0,
            final(self)@.1 == Seq::new(old(self)@.1.len(), |i: int| old(self)@.1[i] + bit_vote(v@[i])),
            final(self)@.2 == old(self)@.2 + 1,
    {
        self.add_weighted(v, 1);
    }

    /// Adds a vector with an integer weight `w`: `+w` to the counter of every
    /// set bit, `-w` to that of every clear bit.
    pub fn add_weighted(&mut self, v: &BinaryHDVector, w: i64)
        requires
            old(self).wf(),
            v.wf(),
            v.dim == old(self)@.0,
            old(self)@.2 < usize::MAX,
            w > i64::MIN,
            forall|i: int|
                0 <= i < old(self)@.1.len() ==> i64::MIN <= #[trigger] old(self)@.1[i] + bit_vote(v@[i]) * w
                    <= i64::MAX,
        ensures
            final(self).wf(),
            final(self)@.0 == old(self)@.0,
            final(self)@.1 == Seq::new(
                old(self)@.1.len(),
                |i: int| old(self)@.1[i] + bit_vote(v@[i]) * w,
            ),
            final(self)@.2 == old(self)@.2 + 1,
    {
        let ghost before = self.sums@;
        let ghost count0 = self.count;
        let dim = self.dim;
        proof {
            assert forall|k: int| 0 <= k < dim implies #[trigger] before[k] as int == old(self)@.1[k] by {}
        }
        let mut i: usize = 0;
        while i < dim
            invariant
                v.wf(),
                v.dim == dim,
                w > i64::MIN,
                self.dim == dim,
                self.count == count0,
                count0 < usize::MAX,
                self.sums@.len() == dim,
                before.len() == dim,
                i <= dim,
                forall|k: int|
                    0 <= k < dim ==> i64::MIN <= #[trigger] before[k] + bit_vote(v@[k]) * w <= i64::MAX,
                forall|k: int| 0 <= k < i ==> #[trigger] self.sums@[k] == before[k] + bit_vote(v@[k]) * w,
                forall|k: int| i <= k < dim ==> #[trigger] self.sums@[k] == before[k],
            decreases dim - i,
        {
            let b = v.bit_value(i);
            let s = self.sums[i];
            proof {
                assert(i64::MIN <= before[i as int] + bit_vote(v@[i as int]) * w <= i64::MAX);
            }
            let ns = if b == 1 {
                s + w
            } else {
                s - w
            };
            self.sums.set(i, ns);
            i = i + 1;
        }
        self.count = self.count + 1;
        proof {
            assert(self@.1 =~= Seq::new(
                old(self)@.1.len(),
                |i: int| old(self)@.1[i] + bit_vote(v@[i]) * w,
            ));
        }
    }

    /// The majority-rule vector of the votes so far (see `majority_from_sums`).
    pub fn binarize(&self) -> (r: BinaryHDVector)
        requires
            self.wf(),
        ensures
            r.wf(),
            r.dim == self@.0,
            r@ == majority_of_sums(Seq::new(self@.1.len(), |i: int| self@.1[i] as i64), self@.0),
    {
        proof {
            assert(Seq::new(self@.1.len(), |i: int| self@.1[i] as i64) =~= self.sums@);
        }
        majority_from_sums(self.sums.as_slice(), self.dim)
    }

    /// Number of vectors added since creation or the last reset.
    pub fn count(&self) -> (c: usize)
        ensures
            c == self@.2,
    {
        self.count
    }

    /// Zeroes every counter and the count.
    pub fn reset(&mut self)
        requires
            old(self).wf(),
        ensures
            final(self).wf(),
            final(self)@.0 == old(self)@.0,
            final(self)@.1 == Seq::new(old(self)@.0, |i: int| 0int),
            final(self)@.2 == 0,
    {
        let dim = self.dim;
        let mut i: usize = 0;
        while i < dim
            invariant
                self.dim == dim,
                self.sums@.len() == dim,
                i <= dim,
                forall|k: int| 0 <= k < i ==> self.sums@[k] == 0,
            decreases dim - i,
        {
            self.sums.set(i, 0i64);
            i = i + 1;
        }
        self.count = 0;
        proof {
            assert(self@.1 =~= Seq::new(old(self)@.0, |i: int| 0int));
        }
    }
}

/// Majority of the votes of a sequence of vectors, with zero sums broken by
/// `position_tie_bit`.
pub open spec fn majority_of_votes(vs: Seq<BinaryHDVector>, dim: nat) -> Seq<bool> {
    majority_of_sums(Seq::new(dim, |i: int| vote_sum(vs, i) as i64), dim)
}

/// A single vector added to a fresh accumulator binarizes back to itself.
pub proof fn lemma_single_vote_majority(v: BinaryHDVector)
    ensures
        majority_of_sums(
            Seq::new(v.dim as nat, |i: int| (0int + bit_vote(v@[i])) as i64),
            v.dim as nat,
        ) == v@,
{
    let s = Seq::new(v.dim as nat, |i: int| (0int + bit_vote(v@[i])) as i64);
    assert(majority_of_sums(s, v.dim as nat) =~= v@);
}

/// Net weighted vote of bit `i` over a sequence of vectors: `+w` for every
/// vector of weight `w` whose bit is set, `-w` for every one whose bit is
/// clear (`ws[k]` is the weight of `vs[k]`).
pub open spec fn weighted_vote_sum(vs: Seq<BinaryHDVector>, ws: Seq<int>, i: int) -> int
    decreases vs.len(),
{
    if vs.len() == 0 {
        0
    } else {
        weighted_vote_sum(vs.drop_last(), ws, i) + bit_vote(vs.last()@[i]) * ws[vs.len() - 1]
    }
}

proof fn lemma_accumulator_prefix(
    accs: Seq<BinaryBundleAccumulator>,
    vs: Seq<BinaryHDVector>,
    ws: Seq<int>,
    k: int,
)
    requires
        accs.len() == vs.len() + 1,
        ws.len() == vs.len(),
        0 <= k <= vs.len(),
        accs[0]@.1 == Seq::new(accs[0]@.0, |i: int| 0int),
        accs[0]@.2 == 0,
        forall|j: int|
            0 <= j < vs.len() ==> {
                &&& (#[trigger] accs[j + 1])@.0 == accs[j]@.0
                &&& accs[j + 1]@.1 == Seq::new(
                    accs[j]@.1.len(),
                    |i: int| accs[j]@.1[i] + bit_vote(vs[j]@[i]) * ws[j],
                )
                &&& accs[j + 1]@.2 == accs[j]@.2 + 1
            },
    ensures
        accs[k]@.0 == accs[0]@.0,
        accs[k]@.2 == k,
        accs[k]@.1 == Seq::new(accs[0]@.0, |i: int| weighted_vote_sum(vs.take(k), ws, i)),
    decreases k,
{
    if k == 0 {
        assert(accs[0]@.1 =~= Seq::new(accs[0]@.0, |i: int| weighted_vote_sum(vs.take(0), ws, i)));
    } else {
        lemma_accumulator_prefix(accs, vs, ws, k - 1);
        let j = k - 1;
        assert(accs[j + 1]@.0 == accs[j]@.0);
        assert(vs.take(k).drop_last() =~= vs.take(j));
        assert(accs[k]@.1 =~= Seq::new(
            accs[0]@.0,
            |i: int| weighted_vote_sum(vs.take(k), ws, i),
        ));
    }
}

/// The votes an accumulator holds are the sums of what was added to it:
/// starting from a fresh accumulator (every counter 0, count 0), after the
/// vectors `vs` were added in turn with the weights `ws` (`add` is weight
/// 1), the count is the number of vectors added, the dimension is
/// unchanged, and the counter of each bit is that bit's net weighted vote.
pub proof fn lemma_accumulator_totals(
    accs: Seq<BinaryBundleAccumulator>,
    vs: Seq<BinaryHDVector>,
    ws: Seq<int>,
)
    requires
        accs.len() == vs.len() + 1,
        ws.len() == vs.len(),
        accs[0]@.1 == Seq::new(accs[0]@.0, |i: int| 0int),
        accs[0]@.2 == 0,
        forall|j: int|
            0 <= j < vs.len() ==> {
                &&& (#[trigger] accs[j + 1])@.0 == accs[j]@.0
                &&& accs[j + 1]@.1 == Seq::new(
                    accs[j]@.1.len(),
                    |i: int| accs[j]@.1[i] + bit_vote(vs[j]@[i]) * ws[j],
                )
                &&& accs[j + 1]@.2 == accs[j]@.2 + 1
            },
    ensures
        accs.last()@.0 == accs[0]@.0,
        accs.last()@.2 == vs.len(),
        accs.last()@.1 == Seq::new(accs[0]@.0, |i: int| weighted_vote_sum(vs, ws, i)),
{
    lemma_accumulator_prefix(accs, vs, ws, vs.len() as int);
    assert(vs.take(vs.len() as int) =~= vs);
}

/// What a push of `v` leaves of the items `before` of a ring of capacity
/// `cap`: `v` appended, and the oldest item dropped when the ring was full.
pub open spec fn ring_push_step<T>(before: Seq<T>, cap: nat, v: T, after: Seq<T>) -> bool {
    &&& (before.len() < cap ==> after == before.push(v))
    &&& (before.len() == cap ==> after == before.drop_first().push(v))
}

/// The last `cap` of the values, or all of them where there are fewer.
pub open spec fn latest<T>(vals: Seq<T>, cap: nat) -> Seq<T> {
    if vals.len() <= cap {
        vals
    } else {
        vals.subrange(vals.len() - cap, vals.len() as int)
    }
}

proof fn lemma_pushes_keep_latest<T>(items: Seq<Seq<T>>, caps: Seq<nat>, vals: Seq<T>, k: int)
    requires
        items.len() == vals.len() + 1,
        caps.len() == vals.len() + 1,
        caps[0] > 0,
        items[0] == Seq::<T>::empty(),
        0 <= k <= vals.len(),
        forall|j: int|
            0 <= j < vals.len() ==> #[trigger] caps[j + 1] == caps[j] && ring_push_step(
                items[j],
                caps[j],
                vals[j],
                items[j + 1],
            ),
    ensures
        caps[k] == caps[0],
        items[k] == latest(vals.take(k), caps[0]),
    decreases k,
{
    if k == 0 {
        assert(vals.take(0) =~= Seq::<T>::empty());
    } else {
        let j = k - 1;
        lemma_pushes_keep_latest(items, caps, vals, j);
        assert(caps[j + 1] == caps[j]);
        let c = caps[0];
        if j < c {
            assert(items[j] == vals.take(j));
            assert(vals.take(j).push(vals[j]) =~= vals.take(k));
        } else {
            assert(items[j] == vals.take(j).subrange(j - c, j));
            assert(vals.take(j).subrange(j - c, j).drop_first().push(vals[j]) =~= vals.take(
                k,
            ).subrange(k - c, k));
        }
    }
}

/// A ring buffer that keeps the `capacity` most recently pushed items.
pub struct StreamRing<T> {
    capacity: usize,
    buffer: Vec<Option<T>>,
    cursor: usize,
    count: usize,
}

impl<T> StreamRing<T> {
    /// Slot of the oldest item.
    spec fn start(&self) -> int {
        if self.cursor >= self.count {
            self.cursor - self.count
        } else {
            self.cursor + self.capacity - self.count
        }
    }

    /// Slot of the item at logical position `i` (0 = oldest).
    spec fn slot(&self, i: int) -> int {
        if self.start() + i < self.capacity {
            self.start() + i
        } else {
            self.start() + i - self.capacity
        }
    }

    /// Internal consistency, kept by every operation.
    pub closed spec fn wf(&self) -> bool {
        &&& self.buffer@.len() == self.capacity
        &&& self.count <= self.capacity
        &&& (self.capacity == 0 ==> self.cursor == 0)
        &&& (self.capacity > 0 ==> self.cursor < self.capacity)
        &&& forall|i: int| 0 <= i < self.count ==> (#[trigger] self.buffer@[self.slot(i)]) is Some
    }

    /// The items held, oldest first.
    pub closed spec fn items(&self) -> Seq<T> {
        Seq::new(self.count as nat, |i: int| self.buffer@[self.slot(i)]->Some_0)
    }

    /// Maximum number of items held.
    pub closed spec fn spec_capacity(&self) -> nat {
        self.capacity as nat
    }

    /// An empty ring of the given capacity.
    pub fn new(capacity: usize) -> (r: Self)
        ensures
            r.wf(),
            r.items() == Seq::<T>::empty(),
            r.spec_capacity() == capacity,
    {
        let mut buffer: Vec<Option<T>> = Vec::new();
        let mut i: usize = 0;
        while i < capacity
            invariant
                i <= capacity,
                buffer@.len() == i,
            decreases capacity - i,
        {
            buffer.push(None);
            i = i + 1;
        }
        let r = StreamRing { capacity, buffer, cursor: 0, count: 0 };
        proof {
            assert(r.items() =~= Seq::<T>::empty());
        }
        r
    }

    /// Pushes an item, dropping the oldest when the ring is full.
    pub fn push(&mut self, v: T)
        requires
            old(self).wf(),
            old(self).spec_capacity() > 0,
        ensures
            final(self).wf(),
            final(self).spec_capacity() == old(self).spec_capacity(),
            old(self).items().len() < old(self).spec_capacity() ==> final(self).items() == old(
                self,
            ).items().push(v),
            old(self).items().len() == old(self).spec_capacity() ==> final(self).items() == old(
                self,
            ).items().drop_first().push(v),
    {
        let ghost old_items = self.items();
        let ghost old_self = *self;
        let cur = self.cursor;
        self.buffer.set(cur, Some(v));
        self.cursor = if cur + 1 == self.capacity {
            0
        } else {
            cur + 1
        };
        if self.count < self.capacity {
            self.count = self.count + 1;
        }
        proof {
            if old_self.count < old_self.capacity {
                assert(old_self.slot(old_self.count as int) == cur);
                assert forall|i: int| 0 <= i < old_self.count implies #[trigger] self.slot(i)
                    == old_self.slot(i) && old_self.slot(i) != cur by {}
                assert(self.slot(old_self.count as int) == cur);
                assert forall|i: int| 0 <= i < self.count implies (#[trigger] self.buffer@[self.slot(
                    i,
                )]) is Some by {
                    if i < old_self.count {
                        assert(old_self.buffer@[old_self.slot(i)] is Some);
                    }
                }
                assert(self.items() =~= old_items.push(v));
            } else {
                assert forall|i: int| 0 <= i < self.count - 1 implies #[trigger] self.slot(i)
                    == old_self.slot(i + 1) && old_self.slot(i + 1) != cur by {}
                assert(self.slot(self.count - 1) == cur);
                assert forall|i: int| 0 <= i < self.count implies (#[trigger] self.buffer@[self.slot(
                    i,
                )]) is Some by {
                    if i < self.count - 1 {
                        assert(old_self.buffer@[old_self.slot(i + 1)] is Some);
                    }
                }
                assert(self.items() =~= old_items.drop_first().push(v));
            }
        }
    }

    /// The item at logical position `index` (0 = oldest), if there is one.
    pub fn get(&self, index: usize) -> (r: Option<&T>)
        requires
            self.wf(),
        ensures
            index < self.items().len() ==> r == Some(&self.items()[index as int]),
            index >= self.items().len() ==> r is None,
    {
        if index >= self.count {
            return None;
        }
        let start = if self.cursor >= self.count {
            self.cursor - self.count
        } else {
            self.cursor + (self.capacity - self.count)
        };
        let idx = if index >= self.capacity - start {
            index - (self.capacity - start)
        } else {
            start + index
        };
        proof {
            assert(idx == self.slot(index as int));
        }
        match &self.buffer[idx] {
            Some(x) => Some(x),
            None => None,
        }
    }

    /// Number of items held.
    pub fn len(&self) -> (n: usize)
        requires
            self.wf(),
        ensures
            n == self.items().len(),
            n <= self.spec_capacity(),
    {
        self.count
    }

    /// Whether the ring holds nothing.
    pub fn is_empty(&self) -> (b: bool)
        requires
            self.wf(),
        ensures
            b == (self.items().len() == 0),
    {
        self.count == 0
    }

    /// Maximum number of items held.
    pub fn capacity(&self) -> (c: usize)
        ensures
            c == self.spec_capacity(),
    {
        self.capacity
    }

    /// Empties the ring.
    pub fn clear(&mut self)
        requires
            old(self).wf(),
        ensures
            final(self).wf(),
            final(self).items() == Seq::<T>::empty(),
            final(self).spec_capacity() == old(self).spec_capacity(),
    {
        self.count = 0;
        self.cursor = 0;
        let cap = self.capacity;
        let mut i: usize = 0;
        while i < cap
            invariant
                self.buffer@.len() == cap,
                self.capacity == cap,
                self.count == 0,
                self.cursor == 0,
                i <= cap,
            decreases cap - i,
        {
            self.buffer.set(i, None);
            i = i + 1;
        }
        proof {
            assert(self.items() =~= Seq::<T>::empty());
        }
    }
}

/// A ring keeps the latest values pushed into it: starting from an empty
/// ring of capacity `c > 0`, after the values `vals` were pushed in turn,
/// it holds the last `min(vals.len(), c)` of them, oldest first.
pub proof fn lemma_ring_keeps_latest<T>(rings: Seq<StreamRing<T>>, vals: Seq<T>)
    requires
        rings.len() == vals.len() + 1,
        rings[0].items() == Seq::<T>::empty(),
        rings[0].spec_capacity() > 0,
        forall|j: int|
            0 <= j < vals.len() ==> (#[trigger] rings[j + 1]).spec_capacity()
                == rings[j].spec_capacity() && ring_push_step(
                rings[j].items(),
                rings[j].spec_capacity(),
                vals[j],
                rings[j + 1].items(),
            ),
    ensures
        rings.last().items() == latest(vals, rings[0].spec_capacity()),
{
    let items = Seq::new(rings.len(), |k: int| rings[k].items());
    let caps = Seq::new(rings.len(), |k: int| rings[k].spec_capacity());
    assert forall|j: int| 0 <= j < vals.len() implies #[trigger] caps[j + 1] == caps[j]
        && ring_push_step(items[j], caps[j], vals[j], items[j + 1]) by {
        assert(rings[j + 1].spec_capacity() == rings[j].spec_capacity());
    }
    lemma_pushes_keep_latest(items, caps, vals, vals.len() as int);
    assert(vals.take(vals.len() as int) =~= vals);
}

/// Ring buffer of binary vectors of one dimension for streaming BSC
/// bundling.
pub struct BinaryHDStreamBuffer {
    dim: usize,
    ring: StreamRing<BinaryHDVector>,
}

impl BinaryHDStreamBuffer {
    /// Internal consistency, kept by every operation.
    pub closed spec fn wf(&self) -> bool {
        &&& self.ring.wf()
        &&& self.ring.spec_capacity() < i64::MAX
        &&& forall|i: int|
            0 <= i < self.ring.items().len() ==> (#[trigger] self.ring.items()[i]).wf()
                && self.ring.items()[i].dim == self.dim
    }

    /// The vectors held, oldest first.
    pub closed spec fn items(&self) -> Seq<BinaryHDVector> {
        self.ring.items()
    }

    /// The dimension of the vectors held.
    pub closed spec fn spec_dim(&self) -> nat {
        self.dim as nat
    }

    /// Maximum number of vectors held.
    pub closed spec fn spec_capacity(&self) -> nat {
        self.ring.spec_capacity()
    }

    /// An empty buffer for vectors of `dim` bits.
    pub fn new(dim: usize, capacity: usize) -> (r: Self)
        requires
            capacity < i64::MAX,
        ensures
            r.wf(),
            r.items() == Seq::<BinaryHDVector>::empty(),
            r.spec_dim() == dim,
            r.spec_capacity() == capacity,
    {
        BinaryHDStreamBuffer { dim, ring: StreamRing::new(capacity) }
    }

    /// Pushes a vector, dropping the oldest when the buffer is full.
    pub fn push(&mut self, v: BinaryHDVector)
        requires
            old(self).wf(),
            v.wf(),
            v.dim == old(self).spec_dim(),
            old(self).spec_capacity() > 0,
        ensures
            final(self).wf(),
            final(self).spec_dim() == old(self).spec_dim(),
            final(self).spec_capacity() == old(self).spec_capacity(),
            old(self).items().len() < old(self).spec_capacity() ==> final(self).items() == old(
                self,
            ).items().push(v),
            old(self).items().len() == old(self).spec_capacity() ==> final(self).items() == old(
                self,
            ).items().drop_first().push(v),
    {
        let ghost old_items = self.ring.items();
        let ghost dim = self.dim;
        let mut ring = StreamRing::new(0);
        std::mem::swap(&mut ring, &mut self.ring);
        ring.push(v);
        proof {
            assert forall|i: int| 0 <= i < ring.items().len() implies (#[trigger] ring.items()[i]).wf()
                && ring.items()[i].dim == dim by {
                if old_items.len() < ring.spec_capacity() {
                    if i < old_items.len() {
                        assert(ring.items()[i] == old_items[i]);
                    }
                } else {
                    if i < old_items.len() - 1 {
                        assert(ring.items()[i] == old_items[i + 1]);
                    }
                }
            }
        }
        self.ring = ring;
    }

    /// Majority-rule bundle of every vector held, through a vote
    /// accumulator (zero sums broken by `position_tie_bit`).
    pub fn majority_bundle(&self) -> (r: BinaryHDVector)
        requires
            self.wf(),
        ensures
            r.wf(),
            r.dim == self.spec_dim(),
            r@ == majority_of_votes(self.items(), self.spec_dim()),
    {
        let ghost items = self.ring.items();
        let mut acc = BinaryBundleAccumulator::new(self.dim);
        let n = self.ring.len();
        let mut k: usize = 0;
        while k < n
            invariant
                self.wf(),
                self.ring.wf(),
                items == self.ring.items(),
                n == items.len(),
                n < i64::MAX,
                forall|i: int| 0 <= i < items.len() ==> (#[trigger] items[i]).wf() && items[i].dim == self.dim,
                k <= n,
                acc@.0 == self.dim,
                acc@.1 == Seq::new(self.dim as nat, |i: int| vote_sum(items.take(k as int), i)),
                acc@.2 == k,
            decreases n - k,
        {
            let v = self.ring.get(k).unwrap();
            proof {
                assert(*v == items[k as int]);
                assert forall|i: int| 0 <= i < acc@.1.len() implies i64::MIN < #[trigger] acc@.1[i] < i64::MAX by {
                    crate::bsc::lemma_vote_bound(items.take(k as int), i);
                }
            }
            acc.add(v);
            proof {
                assert forall|i: int| 0 <= i < self.dim implies #[trigger] acc@.1[i] == vote_sum(items.take(k + 1), i) by {
                    crate::bsc::lemma_vote_step(items, k as int, i);
                }
                assert(acc@.1 =~= Seq::new(self.dim as nat, |i: int| vote_sum(items.take(k + 1), i)));
            }
            k = k + 1;
        }
        let r = acc.binarize();
        proof {
            assert(items.take(n as int) =~= items);
            assert(Seq::new(acc@.1.len(), |i: int| acc@.1[i] as i64) =~= Seq::new(self.dim as nat, |i: int| vote_sum(items, i) as i64));
        }
        r
    }

    /// The vector at logical position `index` (0 = oldest), if there is one.
    pub fn get(&self, index: usize) -> (r: Option<&BinaryHDVector>)
        requires
            self.wf(),
        ensures
            index < self.items().len() ==> r == Some(&self.items()[index as int]),
            index >= self.items().len() ==> r is None,
    {
        self.ring.get(index)
    }

    /// Number of vectors held.
    pub fn len(&self) -> (n: usize)
        requires
            self.wf(),
        ensures
            n == self.items().len(),
    {
        self.ring.len()
    }

    /// Whether the buffer holds nothing.
    pub fn is_empty(&self) -> (b: bool)
        requires
            self.wf(),
        ensures
            b == (self.items().len() == 0),
    {
        self.ring.is_empty()
    }

    /// Maximum number of vectors held.
    pub fn capacity(&self) -> (c: usize)
        ensures
            c == self.spec_capacity(),
    {
        self.ring.capacity()
    }

    /// The dimension of the vectors held.
    pub fn dim(&self) -> (d: usize)
        ensures
            d == self.spec_dim(),
    {
        self.dim
    }

    /// Empties the buffer.
    pub fn clear(&mut self)
        requires
            old(self).wf(),
        ensures
            final(self).wf(),
            final(self).items() == Seq::<BinaryHDVector>::empty(),
            final(self).spec_dim() == old(self).spec_dim(),
            final(self).spec_capacity() == old(self).spec_capacity(),
    {
        let mut ring = StreamRing::new(0);
        std::mem::swap(&mut ring, &mut self.ring);
        ring.clear();
        self.ring = ring;
    }
}

/// BSC bundling of many vectors: the majority vote of `majority_bundle_all`.
pub fn bsc_bundle(vectors: &[BinaryHDVector]) -> (r: BinaryHDVector)
    requires
        same_shape(vectors@),
        vectors@.len() <= i32::MAX,
    ensures
        r.wf(),
        vectors@.len() == 0 ==> r.dim == 0,
        vectors@.len() > 0 ==> r.dim == vectors@[0].dim && r@ == majority_bits(vectors@),
{
    BinaryHDVector::majority_bundle_all(vectors)
}


/// A stream buffer keeps the latest vectors pushed into it: starting from
/// an empty buffer of capacity `c > 0`, after the vectors `vals` were pushed
/// in turn, it holds the last `min(vals.len(), c)` of them, oldest first.
pub proof fn lemma_stream_buffer_keeps_latest(
    bufs: Seq<BinaryHDStreamBuffer>,
    vals: Seq<BinaryHDVector>,
)
    requires
        bufs.len() == vals.len() + 1,
        bufs[0].items() == Seq::<BinaryHDVector>::empty(),
        bufs[0].spec_capacity() > 0,
        forall|j: int|
            0 <= j < vals.len() ==> (#[trigger] bufs[j + 1]).spec_capacity()
                == bufs[j].spec_capacity() && ring_push_step(
                bufs[j].items(),
                bufs[j].spec_capacity(),
                vals[j],
                bufs[j + 1].items(),
            ),
    ensures
        bufs.last().items() == latest(vals, bufs[0].spec_capacity()),
{
    let items = Seq::new(bufs.len(), |k: int| bufs[k].items());
    let caps = Seq::new(bufs.len(), |k: int| bufs[k].spec_capacity());
    assert forall|j: int| 0 <= j < vals.len() implies #[trigger] caps[j + 1] == caps[j]
        && ring_push_step(items[j], caps[j], vals[j], items[j + 1]) by {
        assert(bufs[j + 1].spec_capacity() == bufs[j].spec_capacity());
    }
    lemma_pushes_keep_latest(items, caps, vals, vals.len() as int);
    assert(vals.take(vals.len() as int) =~= vals);
}


} // verus!
