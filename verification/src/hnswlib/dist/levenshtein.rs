//! Edit distance between symbol sequences.

use vstd::prelude::*;
use crate::hnswlib::dist::Distance;
use crate::hnswlib::dist::integer::{Integer, values};

verus! {

/// The smallest of three integers.
pub open spec fn min3(x: int, y: int, z: int) -> int {
    if x <= y && x <= z {
        x
    } else if y <= z {
        y
    } else {
        z
    }
}

/// Edit distance between the first `i` symbols of `a` and the first `j` symbols of `b`:
/// the least number of single-symbol insertions, deletions and substitutions that
/// turns the one prefix into the other.
pub open spec fn prefix_edit_distance<T>(a: Seq<T>, b: Seq<T>, i: nat, j: nat) -> nat
    decreases i + j,
{
    if i == 0 {
        j
    } else if j == 0 {
        i
    } else {
        let deletion = prefix_edit_distance(a, b, (i - 1) as nat, j) + 1;
        let insertion = prefix_edit_distance(a, b, i, (j - 1) as nat) + 1;
        let substitution = prefix_edit_distance(a, b, (i - 1) as nat, (j - 1) as nat) + (if a[i - 1]
            == b[j - 1] {
            0nat
        } else {
            1nat
        });
        min3(deletion as int, insertion as int, substitution as int) as nat
    }
}

/// Levenshtein distance between two symbol sequences.
pub open spec fn levenshtein<T>(a: Seq<T>, b: Seq<T>) -> nat {
    prefix_edit_distance(a, b, a.len(), b.len())
}

/// The edit distance does not depend on the order of its two arguments.
pub proof fn lemma_prefix_edit_distance_symmetric<T>(a: Seq<T>, b: Seq<T>, i: nat, j: nat)
    ensures
        prefix_edit_distance(a, b, i, j) == prefix_edit_distance(b, a, j, i),
    decreases i + j,
{
    if i > 0 && j > 0 {
        lemma_prefix_edit_distance_symmetric(a, b, (i - 1) as nat, j);
        lemma_prefix_edit_distance_symmetric(a, b, i, (j - 1) as nat);
        lemma_prefix_edit_distance_symmetric(a, b, (i - 1) as nat, (j - 1) as nat);
    }
}

/// Two prefixes are never further apart than the longer of them is long, and never
/// closer than their lengths differ.
pub proof fn lemma_prefix_edit_distance_bounds<T>(a: Seq<T>, b: Seq<T>, i: nat, j: nat)
    ensures
        prefix_edit_distance(a, b, i, j) <= (if i <= j { j } else { i }),
        prefix_edit_distance(a, b, i, j) >= (if i <= j { j - i } else { i - j }),
    decreases i + j,
{
    if i > 0 && j > 0 {
        lemma_prefix_edit_distance_bounds(a, b, (i - 1) as nat, j);
        lemma_prefix_edit_distance_bounds(a, b, i, (j - 1) as nat);
        lemma_prefix_edit_distance_bounds(a, b, (i - 1) as nat, (j - 1) as nat);
    }
}

/// A prefix is at distance zero from itself.
pub proof fn lemma_prefix_edit_distance_reflexive<T>(a: Seq<T>, i: nat)
    requires
        i <= a.len(),
    ensures
        prefix_edit_distance(a, a, i, i) == 0,
    decreases i,
{
    if i > 0 {
        lemma_prefix_edit_distance_reflexive(a, (i - 1) as nat);
    }
}

/// `levenshtein(s, s) == 0` for every sequence `s`.
pub proof fn lemma_levenshtein_identity<T>(s: Seq<T>)
    ensures
        levenshtein(s, s) == 0,
{
    lemma_prefix_edit_distance_reflexive(s, s.len());
}

/// `levenshtein(a, b) == levenshtein(b, a)` for all sequences `a` and `b`.
pub proof fn lemma_levenshtein_symmetric<T>(a: Seq<T>, b: Seq<T>)
    ensures
        levenshtein(a, b) == levenshtein(b, a),
{
    lemma_prefix_edit_distance_symmetric(a, b, a.len(), b.len());
}

/// `x + 1`, or `usize::MAX` where that does not fit.
fn succ_saturating(x: usize) -> (r: usize)
    ensures
        r == (if x < usize::MAX { x + 1 } else { usize::MAX as int }),
{
    if x < usize::MAX {
        x + 1
    } else {
        x
    }
}

/// Levenshtein distance between sequences of integer symbols.
#[derive(Default)]
pub struct DistLevenshtein;

impl DistLevenshtein {
    /// Edit distance between `a` and `b`, which may differ in length, in
    /// O(len_a * len_b) time and with one rolling row as long as the shorter sequence.
    pub fn edit_distance<T: Integer>(&self, a: &[T], b: &[T]) -> (d: usize)
        ensures
            d == levenshtein(values(a@), values(b@)),
        decreases (if a.len() < b.len() { 1nat } else { 0nat }),
    {
        let len_a = a.len();
        let len_b = b.len();
        let ghost sa = values(a@);
        let ghost sb = values(b@);
        if len_a < len_b {
            proof {
                lemma_levenshtein_symmetric(sa, sb);
            }
            return self.edit_distance(b, a);
        }
        if len_b == 0 {
            return len_a;
        }
        // cur[k] holds column k + 1 of the current row; column 0 is kept in a scalar.
        let mut cur: Vec<usize> = Vec::new();
        let mut k: usize = 0;
        while k < len_b
            invariant
                k <= len_b,
                cur.len() == k,
                forall|c: int| 0 <= c < k ==> cur[c] == c + 1,
            decreases len_b - k,
        {
            cur.push(k + 1);
            k += 1;
        }
        let mut i: usize = 0;
        while i < len_a
            invariant
                i <= len_a,
                len_a == a.len(),
                len_b == b.len(),
                0 < len_b <= len_a,
                sa == values(a@),
                sb == values(b@),
                cur.len() == len_b,
                forall|c: int|
                    0 <= c < len_b ==> cur[c] == prefix_edit_distance(
                        sa,
                        sb,
                        i as nat,
                        (c + 1) as nat,
                    ),
            decreases len_a - i,
        {
            let mut pre: usize = i;
            let mut left: usize = i + 1;
            let mut j: usize = 0;
            while j < len_b
                invariant
                    j <= len_b,
                    i < len_a,
                    len_a == a.len(),
                    len_b == b.len(),
                    0 < len_b <= len_a,
                    sa == values(a@),
                    sb == values(b@),
                    cur.len() == len_b,
                    pre == prefix_edit_distance(sa, sb, i as nat, j as nat),
                    left == prefix_edit_distance(sa, sb, (i + 1) as nat, j as nat),
                    forall|c: int|
                        0 <= c < j ==> cur[c] == prefix_edit_distance(
                            sa,
                            sb,
                            (i + 1) as nat,
                            (c + 1) as nat,
                        ),
                    forall|c: int|
                        j <= c < len_b ==> cur[c] == prefix_edit_distance(
                            sa,
                            sb,
                            i as nat,
                            (c + 1) as nat,
                        ),
                decreases len_b - j,
            {
                let tmp = cur[j];
                proof {
                    lemma_prefix_edit_distance_bounds(sa, sb, i as nat, j as nat);
                }
                let deletion = succ_saturating(tmp);
                let insertion = succ_saturating(left);
                let substitution = if a[i].widen() == b[j].widen() {
                    pre
                } else {
                    pre + 1
                };
                let mut best = substitution;
                if insertion < best {
                    best = insertion;
                }
                if deletion < best {
                    best = deletion;
                }
                cur.set(j, best);
                pre = tmp;
                left = best;
                j += 1;
            }
            i += 1;
        }
        cur[len_b - 1]
    }
}

impl<T: Integer> Distance<T> for DistLevenshtein {
    open spec fn reports(&self, va: Seq<T>, vb: Seq<T>, key: u64) -> bool {
        key == levenshtein(values(va), values(vb))
    }

    /// Two sequences need not have one length.
    open spec fn any_lengths(&self) -> bool {
        true
    }

    fn eval(&self, va: &[T], vb: &[T]) -> (key: u64) {
        self.edit_distance(va, vb) as u64
    }
}

/// What the metric reports for two sequences, of whatever lengths, it reports for them
/// in the other order too; and for a sequence and itself it reports 0.
pub proof fn lemma_levenshtein_reports<T: Integer>(a: Seq<T>, b: Seq<T>, key: u64)
    ensures
        DistLevenshtein.reports(a, b, key) == DistLevenshtein.reports(b, a, key),
        DistLevenshtein.reports(a, a, key) == (key == 0),
{
    lemma_levenshtein_symmetric(values(a), values(b));
    lemma_levenshtein_identity(values(a));
}

} // verus!
