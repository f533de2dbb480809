//! Ranking candidates: the closest first, ties kept in candidate order.
use vstd::prelude::*;
use crate::bsc::BinaryHDVector;
use crate::memory::hamming;

verus! {

/// Candidate `a` ranks before candidate `b`: a smaller distance, or the
/// same distance and an earlier position.
pub open spec fn ranks_before(d: Seq<u64>, a: int, b: int) -> bool {
    d[a] < d[b] || (d[a] == d[b] && a < b)
}

/// The number of candidates a ranking of `n` candidates keeps.
pub open spec fn kept(top_k: nat, n: nat) -> nat {
    if top_k < n {
        top_k
    } else {
        n
    }
}

/// `r` is the ranking of candidates `0 .. d.len()` by distance, cut to
/// `top_k` entries: valid positions, in ranking order, and nothing left out
/// that ranks before a kept candidate.
pub open spec fn is_top_ranking(d: Seq<u64>, r: Seq<usize>, top_k: nat) -> bool {
    &&& r.len() == kept(top_k, d.len())
    &&& forall|i: int| 0 <= i < r.len() ==> (#[trigger] r[i]) < d.len()
    &&& forall|i: int, j: int|
        0 <= i < j < r.len() ==> ranks_before(d, #[trigger] r[i] as int, #[trigger] r[j] as int)
    &&& forall|q: int, i: int|
        0 <= q < d.len() && 0 <= i < r.len() && #[trigger] ranks_before(d, q, r[i] as int)
            ==> r.contains(q as usize)
}

proof fn lemma_ranking_prefix(d: Seq<u64>, r1: Seq<usize>, r2: Seq<usize>, top_k: nat, i: int)
    requires
        is_top_ranking(d, r1, top_k),
        is_top_ranking(d, r2, top_k),
        0 <= i <= r1.len(),
    ensures
        forall|j: int| 0 <= j < i ==> r1[j] == r2[j],
    decreases i,
{
    if i > 0 {
        lemma_ranking_prefix(d, r1, r2, top_k, i - 1);
        let m = i - 1;
        let a = r1[m];
        let b = r2[m];
        if a != b {
            if ranks_before(d, a as int, b as int) {
                assert(r2.contains(a));
                let j = choose|j: int| 0 <= j < r2.len() && r2[j] == a;
                if j < m {
                    assert(r1[j] == a);
                    assert(ranks_before(d, r1[j] as int, r1[m] as int));
                } else {
                    assert(ranks_before(d, r2[m] as int, r2[j] as int));
                }
            } else {
                assert(ranks_before(d, b as int, a as int));
                assert(r1.contains(b));
                let j = choose|j: int| 0 <= j < r1.len() && r1[j] == b;
                if j < m {
                    assert(r2[j] == b);
                    assert(ranks_before(d, r2[j] as int, r2[m] as int));
                } else {
                    assert(ranks_before(d, r1[m] as int, r1[j] as int));
                }
            }
        }
    }
}

/// There is one ranking of given distances for each cut: two sequences
/// that both meet `is_top_ranking` are equal.
pub proof fn lemma_ranking_unique(d: Seq<u64>, r1: Seq<usize>, r2: Seq<usize>, top_k: nat)
    requires
        is_top_ranking(d, r1, top_k),
        is_top_ranking(d, r2, top_k),
    ensures
        r1 == r2,
{
    lemma_ranking_prefix(d, r1, r2, top_k, r1.len() as int);
    assert(r1 =~= r2);
}

/// The positions of the candidates ordered by ascending distance, equal
/// distances in candidate order, keeping the first `top_k`.
pub fn rank_by_distance(distances: &[u64], top_k: usize) -> (r: Vec<usize>)
    ensures
        is_top_ranking(distances@, r@, top_k as nat),
{
    let ghost d = distances@;
    let n = distances.len();
    let mut s: Vec<usize> = Vec::new();
    let mut q: usize = 0;
    while q < n
        invariant
            d == distances@,
            n == d.len(),
            q <= n,
            s@.len() == q,
            forall|i: int| 0 <= i < s@.len() ==> (#[trigger] s@[i]) < q,
            forall|x: usize| x < q ==> #[trigger] s@.contains(x),
            forall|i: int, j: int|
                0 <= i < j < s@.len() ==> ranks_before(d, #[trigger] s@[i] as int, #[trigger] s@[j] as int),
        decreases n - q,
    {
        let dq = distances[q];
        let mut p: usize = 0;
        while p < s.len() && distances[s[p]] <= dq
            invariant
                d == distances@,
                n == d.len(),
                q < n,
                dq == d[q as int],
                p <= s@.len(),
                forall|i: int| 0 <= i < s@.len() ==> (#[trigger] s@[i]) < q,
                forall|i: int| 0 <= i < p ==> d[#[trigger] s@[i] as int] <= d[q as int],
            decreases s@.len() - p,
        {
            p = p + 1;
        }
        let ghost before = s@;
        proof {
            assert forall|i: int| p <= i < before.len() implies d[q as int] < d[#[trigger] before[i] as int] by {
                if i > p {
                    assert(ranks_before(d, before[p as int] as int, before[i] as int));
                }
            }
        }
        s.insert(p, q);
        proof {
            assert(s@ == before.insert(p as int, q));
            assert forall|i: int, j: int|
                0 <= i < j < s@.len() implies ranks_before(d, #[trigger] s@[i] as int, #[trigger] s@[j] as int) by {
                if j < p {
                    assert(s@[i] == before[i] && s@[j] == before[j]);
                } else if j == p {
                    assert(s@[i] == before[i]);
                } else if i < p {
                    assert(s@[i] == before[i] && s@[j] == before[j - 1]);
                    assert(ranks_before(d, before[i] as int, before[j - 1] as int));
                } else if i == p {
                    assert(s@[j] == before[j - 1]);
                } else {
                    assert(s@[i] == before[i - 1] && s@[j] == before[j - 1]);
                }
            }
            assert forall|x: usize| x < q + 1 implies #[trigger] s@.contains(x) by {
                if x == q {
                    assert(s@[p as int] == q);
                } else {
                    assert(before.contains(x));
                    let k = choose|k: int| 0 <= k < before.len() && before[k] == x;
                    if k < p {
                        assert(s@[k] == x);
                    } else {
                        assert(s@[k + 1] == x);
                    }
                }
            }
        }
        q = q + 1;
    }
    let limit: usize = if top_k < n {
        top_k
    } else {
        n
    };
    let ghost full = s@;
    s.truncate(limit);
    proof {
        let r = s@;
        assert(r =~= full.take(limit as int));
        assert forall|x: int, i: int|
            0 <= x < d.len() && 0 <= i < r.len() && #[trigger] ranks_before(d, x, r[i] as int)
                implies r.contains(x as usize) by {
            assert(full.contains(x as usize));
            let k = choose|k: int| 0 <= k < full.len() && full[k] == x as usize;
            if k > i {
                assert(ranks_before(d, full[i] as int, full[k] as int));
            }
            assert(k < i);
            assert(r[k] == x as usize);
        }
    }
    s
}

/// The Hamming distance from the query to each candidate.
pub open spec fn hamming_distances(query: BinaryHDVector, candidates: Seq<BinaryHDVector>) -> Seq<u64> {
    Seq::new(candidates.len(), |k: int| hamming(query, candidates[k]) as u64)
}

/// The ranking of binary candidates by Hamming distance to the query: the
/// positions of the closest `top_k` and their distances, closest first,
/// equal distances in candidate order.
pub fn search_bsc_ranked(query: &BinaryHDVector, candidates: &[BinaryHDVector], top_k: usize) -> (r:
    Vec<(usize, u64)>)
    requires
        query.wf(),
        forall|k: int|
            0 <= k < candidates@.len() ==> (#[trigger] candidates@[k]).wf() && candidates@[k].dim
                == query.dim,
    ensures
        is_top_ranking(
            hamming_distances(*query, candidates@),
            Seq::new(r@.len(), |i: int| r@[i].0),
            top_k as nat,
        ),
        forall|i: int|
            0 <= i < r@.len() ==> #[trigger] r@[i].1 == hamming(*query, candidates@[r@[i].0 as int]),
{
    let mut ds: Vec<u64> = Vec::new();
    let mut k: usize = 0;
    while k < candidates.len()
        invariant
            query.wf(),
            forall|q: int|
                0 <= q < candidates@.len() ==> (#[trigger] candidates@[q]).wf() && candidates@[q].dim
                    == query.dim,
            k <= candidates@.len(),
            ds@.len() == k,
            forall|q: int| 0 <= q < k ==> #[trigger] ds@[q] == hamming(*query, candidates@[q]),
        decreases candidates@.len() - k,
    {
        ds.push(query.hamming_distance(&candidates[k]));
        k = k + 1;
    }
    let order = rank_by_distance(ds.as_slice(), top_k);
    let mut out: Vec<(usize, u64)> = Vec::new();
    let mut i: usize = 0;
    while i < order.len()
        invariant
            is_top_ranking(ds@, order@, top_k as nat),
            i <= order@.len(),
            out@.len() == i,
            forall|m: int| 0 <= m < i ==> (#[trigger] out@[m]).0 == order@[m] && out@[m].1 == ds@[order@[m] as int],
        decreases order@.len() - i,
    {
        let idx = order[i];
        out.push((idx, ds[idx]));
        i = i + 1;
    }
    proof {
        assert(Seq::new(out@.len(), |m: int| out@[m].0) =~= order@);
        assert(ds@ =~= hamming_distances(*query, candidates@));
    }
    out
}

/// A searcher over the three representations; binary candidates rank
/// through `search_bsc_ranked`.
#[derive(Debug, Clone, Default)]
pub struct SuperSearch;

} // verus!
