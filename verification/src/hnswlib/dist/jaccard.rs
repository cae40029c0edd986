//! Jaccard distance between vectors of non-negative integers.

use vstd::prelude::*;
use crate::hnswlib::dist::MetricError;
use crate::hnswlib::dist::integer::{Integer, Natural, Short, values};

verus! {

/// Sum over the first `n` positions of the smaller of the two values there.
pub open spec fn sum_of_min(a: Seq<int>, b: Seq<int>, n: nat) -> int
    decreases n,
{
    if n == 0 {
        0
    } else {
        sum_of_min(a, b, (n - 1) as nat) + (if a[n - 1] <= b[n - 1] {
            a[n - 1]
        } else {
            b[n - 1]
        })
    }
}

/// Sum over the first `n` positions of the larger of the two values there.
pub open spec fn sum_of_max(a: Seq<int>, b: Seq<int>, n: nat) -> int
    decreases n,
{
    if n == 0 {
        0
    } else {
        sum_of_max(a, b, (n - 1) as nat) + (if a[n - 1] <= b[n - 1] {
            b[n - 1]
        } else {
            a[n - 1]
        })
    }
}

/// An exact fraction `num / den`.
#[derive(Clone, Copy, Debug, PartialEq, Eq, Structural)]
pub struct Ratio {
    pub num: u128,
    pub den: u128,
}

/// Jaccard distance between two vectors of non-negative integers, as an exact fraction:
/// `1 - sum(min) / sum(max)`, that is `(sum(max) - sum(min)) / sum(max)`, and `0 / 1`
/// where `sum(max)` is zero.
pub open spec fn jaccard(a: Seq<int>, b: Seq<int>) -> Ratio {
    let most = sum_of_max(a, b, a.len());
    let least = sum_of_min(a, b, a.len());
    if most == 0 {
        Ratio { num: 0, den: 1 }
    } else {
        Ratio { num: (most - least) as u128, den: most as u128 }
    }
}

/// Over non-negative values below `bound`, the sum of the minima is at most the sum of
/// the maxima, which is at most `n * (bound - 1)`.
pub proof fn lemma_jaccard_sums_bounds(a: Seq<int>, b: Seq<int>, n: nat, bound: int)
    requires
        n <= a.len(),
        n <= b.len(),
        forall|i: int| 0 <= i < n ==> 0 <= #[trigger] a[i] < bound,
        forall|i: int| 0 <= i < n ==> 0 <= #[trigger] b[i] < bound,
    ensures
        0 <= sum_of_min(a, b, n) <= sum_of_max(a, b, n) <= n * (bound - 1),
    decreases n,
{
    if n > 0 {
        lemma_jaccard_sums_bounds(a, b, (n - 1) as nat, bound);
        assert(n * (bound - 1) == (n - 1) * (bound - 1) + (bound - 1)) by (nonlinear_arith);
    }
}

/// A vector is at Jaccard distance zero from itself.
pub proof fn lemma_jaccard_identity(a: Seq<int>)
    ensures
        jaccard(a, a).num == 0,
{
    lemma_sums_identity(a, a.len());
}

proof fn lemma_sums_identity(a: Seq<int>, n: nat)
    ensures
        sum_of_min(a, a, n) == sum_of_max(a, a, n),
    decreases n,
{
    if n > 0 {
        lemma_sums_identity(a, (n - 1) as nat);
    }
}

/// Jaccard distance between vectors of unsigned integers of 32 bits at most.
#[derive(Default)]
pub struct DistJaccard;

impl DistJaccard {
    /// Jaccard distance between two vectors; vectors of different lengths are rejected
    /// before anything is computed.
    pub fn ratio<T: Natural>(&self, va: &[T], vb: &[T]) -> (r: Result<Ratio, MetricError>)
        ensures
            va@.len() == vb@.len() ==> r == Ok::<Ratio, MetricError>(
                jaccard(values(va@), values(vb@)),
            ),
            va@.len() != vb@.len() ==> r == Err::<Ratio, MetricError>(
                MetricError::DimensionMismatch,
            ),
    {
        if va.len() != vb.len() {
            return Err(MetricError::DimensionMismatch);
        }
        let n = va.len();
        let ghost a = values(va@);
        let ghost b = values(vb@);
        proof {
            assert forall|i: int| 0 <= i < n implies 0 <= #[trigger] a[i] < 0x1_0000_0000 by {
                va@[i].lemma_natural();
                va@[i].lemma_short();
                va@[i].lemma_range();
            }
            assert forall|i: int| 0 <= i < n implies 0 <= #[trigger] b[i] < 0x1_0000_0000 by {
                vb@[i].lemma_natural();
                vb@[i].lemma_short();
                vb@[i].lemma_range();
            }
        }
        let mut most: u128 = 0;
        let mut least: u128 = 0;
        let mut i: usize = 0;
        while i < n
            invariant
                i <= n,
                n == va@.len(),
                n == vb@.len(),
                a == values(va@),
                b == values(vb@),
                forall|i: int| 0 <= i < n ==> 0 <= #[trigger] a[i] < 0x1_0000_0000,
                forall|i: int| 0 <= i < n ==> 0 <= #[trigger] b[i] < 0x1_0000_0000,
                most == sum_of_max(a, b, i as nat),
                least == sum_of_min(a, b, i as nat),
            decreases n - i,
        {
            proof {
                lemma_jaccard_sums_bounds(a, b, (i + 1) as nat, 0x1_0000_0000);
            }
            let x = va[i].widen();
            let y = vb[i].widen();
            if x <= y {
                most = most + y as u128;
                least = least + x as u128;
            } else {
                most = most + x as u128;
                least = least + y as u128;
            }
            i += 1;
        }
        proof {
            lemma_jaccard_sums_bounds(a, b, n as nat, 0x1_0000_0000);
        }
        if most == 0 {
            Ok(Ratio { num: 0, den: 1 })
        } else {
            Ok(Ratio { num: most - least, den: most })
        }
    }
}

} // verus!
