//! Which signal values negative-space encoding takes in.
use vstd::prelude::*;
use crate::bits::count_true;

verus! {

/// The operating mode of negative-space encoding.
#[derive(Debug, Clone, Copy, PartialEq, Eq, Structural)]
pub enum DnvsMode {
    /// Encode only negative space (values below the threshold).
    Negative,
    /// Encode only positive space (values at or above the threshold).
    Positive,
    /// Encode all values.
    All,
}

/// Whether a mode's filter takes in a value, given whether the value lies
/// below the threshold.
pub open spec fn mode_includes(mode: DnvsMode, below: bool) -> bool {
    match mode {
        DnvsMode::Negative => below,
        DnvsMode::Positive => !below,
        DnvsMode::All => true,
    }
}

impl DnvsMode {
    /// The mode's filter: `Negative` takes values below the threshold,
    /// `Positive` the others, `All` every value.
    pub fn includes(self, below: bool) -> (r: bool)
        ensures
            r == mode_includes(self, below),
    {
        match self {
            DnvsMode::Negative => below,
            DnvsMode::Positive => !below,
            DnvsMode::All => true,
        }
    }

    /// Whether the full encoder skips a value: only a value that the filter
    /// leaves out and that lies below the threshold, and then only with
    /// `skip_empty` set or in `All` mode. A value the filter leaves out is
    /// otherwise still encoded.
    pub fn skips(self, below: bool, skip_empty: bool) -> (r: bool)
        ensures
            r == (!mode_includes(self, below) && below && (skip_empty || self == DnvsMode::All)),
    {
        if !self.includes(below) {
            if skip_empty && below {
                return true;
            }
            if self == DnvsMode::All && below {
                return true;
            }
        }
        false
    }
}

/// Among the first `k` (prediction, label) pairs, the number where the
/// prediction is the label.
pub open spec fn correct_upto(preds: Seq<usize>, labels: Seq<usize>, k: nat) -> nat
    decreases k,
{
    if k == 0 {
        0
    } else {
        correct_upto(preds, labels, (k - 1) as nat) + if preds[k - 1] == labels[k - 1] {
            1nat
        } else {
            0nat
        }
    }
}

/// Among the first `k` pairs, the number labelled `c` (with `hit`, only
/// those also predicted `c`).
pub open spec fn class_upto(preds: Seq<usize>, labels: Seq<usize>, k: nat, c: int, hit: bool) -> nat
    decreases k,
{
    if k == 0 {
        0
    } else {
        class_upto(preds, labels, (k - 1) as nat, c, hit) + if labels[k - 1] == c && (!hit
            || preds[k - 1] == c) {
            1nat
        } else {
            0nat
        }
    }
}

/// The number of pairs two sequences make side by side: the shorter length.
pub open spec fn paired(preds: Seq<usize>, labels: Seq<usize>) -> nat {
    if preds.len() <= labels.len() {
        preds.len()
    } else {
        labels.len()
    }
}

/// The tallies are plain counts over the first `k` pairs: `correct_upto`
/// counts the pairs whose prediction is the label, and `class_upto` the
/// pairs labelled `c` (with `hit`, those also predicted `c`).
pub proof fn lemma_tallies_count(preds: Seq<usize>, labels: Seq<usize>, k: nat, c: int, hit: bool)
    ensures
        correct_upto(preds, labels, k) == count_true(Seq::new(k, |q: int| preds[q] == labels[q])),
        class_upto(preds, labels, k, c, hit) == count_true(
            Seq::new(k, |q: int| labels[q] == c && (!hit || preds[q] == c)),
        ),
    decreases k,
{
    if k > 0 {
        lemma_tallies_count(preds, labels, (k - 1) as nat, c, hit);
        assert(Seq::new(k, |q: int| preds[q] == labels[q]).drop_last() =~= Seq::new(
            (k - 1) as nat,
            |q: int| preds[q] == labels[q],
        ));
        assert(Seq::new(k, |q: int| labels[q] == c && (!hit || preds[q] == c)).drop_last()
            =~= Seq::new((k - 1) as nat, |q: int| labels[q] == c && (!hit || preds[q] == c)));
    }
}

proof fn lemma_tally_bounds(preds: Seq<usize>, labels: Seq<usize>, k: nat, c: int)
    ensures
        correct_upto(preds, labels, k) <= k,
        class_upto(preds, labels, k, c, true) <= class_upto(preds, labels, k, c, false),
        class_upto(preds, labels, k, c, false) <= k,
    decreases k,
{
    if k > 0 {
        lemma_tally_bounds(preds, labels, (k - 1) as nat, c);
    }
}

/// Tallies predictions against labels, pair by pair over the shorter of the
/// two: the number of correct predictions, and for each class the number of
/// correct predictions and of pairs labelled with it.
pub fn tally_predictions(preds: &[usize], labels: &[usize], n_classes: usize) -> (r: (
    usize,
    Vec<usize>,
    Vec<usize>,
))
    requires
        forall|k: int| 0 <= k < paired(preds@, labels@) ==> #[trigger] labels@[k] < n_classes,
    ensures
        r.0 == correct_upto(preds@, labels@, paired(preds@, labels@)),
        r.1@.len() == n_classes,
        r.2@.len() == n_classes,
        forall|c: int|
            0 <= c < n_classes ==> #[trigger] r.1@[c] == class_upto(
                preds@,
                labels@,
                paired(preds@, labels@),
                c,
                true,
            ),
        forall|c: int|
            0 <= c < n_classes ==> #[trigger] r.2@[c] == class_upto(
                preds@,
                labels@,
                paired(preds@, labels@),
                c,
                false,
            ),
{
    let n: usize = if preds.len() <= labels.len() {
        preds.len()
    } else {
        labels.len()
    };
    let mut hits: Vec<usize> = Vec::new();
    let mut totals: Vec<usize> = Vec::new();
    let mut c: usize = 0;
    while c < n_classes
        invariant
            c <= n_classes,
            hits@.len() == c,
            totals@.len() == c,
            forall|q: int| 0 <= q < c ==> hits@[q] == 0 && totals@[q] == 0,
        decreases n_classes - c,
    {
        hits.push(0);
        totals.push(0);
        c = c + 1;
    }
    let mut correct: usize = 0;
    let mut k: usize = 0;
    while k < n
        invariant
            n == paired(preds@, labels@),
            forall|q: int| 0 <= q < n ==> #[trigger] labels@[q] < n_classes,
            k <= n,
            correct == correct_upto(preds@, labels@, k as nat),
            hits@.len() == n_classes,
            totals@.len() == n_classes,
            forall|q: int|
                0 <= q < n_classes ==> #[trigger] hits@[q] == class_upto(preds@, labels@, k as nat, q, true),
            forall|q: int|
                0 <= q < n_classes ==> #[trigger] totals@[q] == class_upto(preds@, labels@, k as nat, q, false),
        decreases n - k,
    {
        let label = labels[k];
        proof {
            lemma_tally_bounds(preds@, labels@, k as nat, label as int);
            assert(totals@[label as int] == class_upto(preds@, labels@, k as nat, label as int, false));
        }
        let t = totals[label];
        totals.set(label, t + 1);
        if preds[k] == label {
            let h = hits[label];
            hits.set(label, h + 1);
            correct = correct + 1;
        }
        k = k + 1;
    }
    (correct, hits, totals)
}

} // verus!
