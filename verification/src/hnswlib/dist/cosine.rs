//! The exact terms of the cosine distance between vectors of integers.

use vstd::prelude::*;
use crate::hnswlib::dist::MetricError;
use crate::hnswlib::dist::integer::{Integer, Narrow, values};

verus! {

/// Sum over the first `n` positions of the product of the two values there.
pub open spec fn dot_sum(a: Seq<int>, b: Seq<int>, n: nat) -> int
    decreases n,
{
    if n == 0 {
        0
    } else {
        dot_sum(a, b, (n - 1) as nat) + a[n - 1] * b[n - 1]
    }
}

/// Where every value lies between `-bound` and `bound`, the sum of the products over
/// `n` positions lies between `-n * bound * bound` and `n * bound * bound`.
pub proof fn lemma_dot_sum_bounds(a: Seq<int>, b: Seq<int>, n: nat, bound: int)
    requires
        n <= a.len(),
        n <= b.len(),
        bound >= 0,
        forall|i: int| 0 <= i < n ==> -bound <= #[trigger] a[i] <= bound,
        forall|i: int| 0 <= i < n ==> -bound <= #[trigger] b[i] <= bound,
    ensures
        -(n * (bound * bound)) <= dot_sum(a, b, n) <= n * (bound * bound),
    decreases n,
{
    if n > 0 {
        lemma_dot_sum_bounds(a, b, (n - 1) as nat, bound);
        let x = a[n - 1];
        let y = b[n - 1];
        assert(-(bound * bound) <= x * y <= bound * bound) by (nonlinear_arith)
            requires
                -bound <= x <= bound,
                -bound <= y <= bound,
        ;
        assert(n * (bound * bound) == (n - 1) * (bound * bound) + bound * bound)
            by (nonlinear_arith);
    }
}

/// The sum of the squares of a vector's values is not negative, and it is zero only
/// if every value is zero.
pub proof fn lemma_norm_sum(a: Seq<int>, n: nat)
    requires
        n <= a.len(),
    ensures
        dot_sum(a, a, n) >= 0,
        dot_sum(a, a, n) == 0 <==> (forall|i: int| 0 <= i < n ==> a[i] == 0),
    decreases n,
{
    if n > 0 {
        lemma_norm_sum(a, (n - 1) as nat);
        let x = a[n - 1];
        assert(x * x >= 0 && (x * x == 0 <==> x == 0)) by (nonlinear_arith);
    }
}

/// The sum of the products with a vector of zeros is zero.
pub proof fn lemma_dot_sum_zero(a: Seq<int>, b: Seq<int>, n: nat)
    requires
        n <= a.len(),
        n <= b.len(),
        forall|i: int| 0 <= i < n ==> a[i] == 0,
    ensures
        dot_sum(a, b, n) == 0,
        dot_sum(b, a, n) == 0,
    decreases n,
{
    if n > 0 {
        lemma_dot_sum_zero(a, b, (n - 1) as nat);
        let y = b[n - 1];
    }
}

/// What the cosine distance of two integer vectors is made of: their dot product and
/// the sums of the squares of their values. The distance is
/// `1 - dot / sqrt(norm_a * norm_b)`, and 0 where a sum of squares is 0.
#[derive(Clone, Copy, Debug, PartialEq, Eq, Structural)]
pub struct CosineTerms {
    pub dot: i128,
    pub norm_a: u128,
    pub norm_b: u128,
}

/// `terms` holds the terms of the cosine distance between two equally long integer
/// vectors.
pub open spec fn are_cosine_terms(a: Seq<int>, b: Seq<int>, terms: CosineTerms) -> bool {
    &&& terms.dot == dot_sum(a, b, a.len())
    &&& terms.norm_a == dot_sum(a, a, a.len())
    &&& terms.norm_b == dot_sum(b, b, a.len())
}

/// A vector has with itself the dot product that is the sum of its squares: its
/// cosine distance from itself is 0.
pub proof fn lemma_cosine_identity(a: Seq<int>, terms: CosineTerms)
    requires
        are_cosine_terms(a, a, terms),
    ensures
        terms.dot == terms.norm_a,
        terms.norm_a == terms.norm_b,
{
}

/// With a vector of zeros the dot product is 0 and a sum of squares is 0: the cosine
/// distance is 0 by the rule for that case, whichever of the two vectors is the one
/// of zeros.
pub proof fn lemma_cosine_degenerate(z: Seq<int>, v: Seq<int>, first: CosineTerms, second: CosineTerms)
    requires
        z.len() == v.len(),
        forall|i: int| 0 <= i < z.len() ==> z[i] == 0,
        are_cosine_terms(z, v, first),
        are_cosine_terms(v, z, second),
    ensures
        first.dot == 0,
        first.norm_a == 0,
        second.dot == 0,
        second.norm_b == 0,
{
    lemma_norm_sum(z, z.len());
    lemma_dot_sum_zero(z, v, z.len());
}

/// The cosine distance that a set of terms stands for.
#[derive(Clone, Copy, Debug, PartialEq, Eq, Structural)]
pub enum CosineDistance {
    /// The distance is 0: one of the vectors has no length, or the two are the same.
    Zero,
    /// The distance is `1 - dot / sqrt(norm_a * norm_b)`, with both sums of squares
    /// above 0.
    OneMinus(CosineTerms),
}

/// The cosine distance that the terms stand for. Where a sum of squares is 0 the
/// distance is 0, not 1. Where the dot product and both sums of squares are one
/// number, the two vectors are the same and the distance is 0.
pub open spec fn cosine_distance(terms: CosineTerms) -> CosineDistance {
    if terms.norm_a == 0 || terms.norm_b == 0 {
        CosineDistance::Zero
    } else if terms.dot == terms.norm_a && terms.norm_a == terms.norm_b {
        CosineDistance::Zero
    } else {
        CosineDistance::OneMinus(terms)
    }
}

/// The cosine distance of a vector from itself is 0.
pub proof fn lemma_cosine_of_itself(v: Seq<int>, terms: CosineTerms)
    requires
        are_cosine_terms(v, v, terms),
    ensures
        cosine_distance(terms) == CosineDistance::Zero,
{
}

/// The cosine distance between a vector of zeros and any vector is 0, whichever of
/// the two comes first.
pub proof fn lemma_cosine_of_zero(z: Seq<int>, v: Seq<int>, first: CosineTerms, second: CosineTerms)
    requires
        z.len() == v.len(),
        forall|i: int| 0 <= i < z.len() ==> z[i] == 0,
        are_cosine_terms(z, v, first),
        are_cosine_terms(v, z, second),
    ensures
        cosine_distance(first) == CosineDistance::Zero,
        cosine_distance(second) == CosineDistance::Zero,
{
    lemma_cosine_degenerate(z, v, first, second);
}

impl CosineTerms {
    /// The cosine distance that the terms stand for.
    pub fn distance(&self) -> (d: CosineDistance)
        ensures
            d == cosine_distance(*self),
    {
        if self.norm_a == 0 || self.norm_b == 0 {
            CosineDistance::Zero
        } else if self.dot >= 0 && self.dot as u128 == self.norm_a && self.norm_a == self.norm_b {
            CosineDistance::Zero
        } else {
            CosineDistance::OneMinus(*self)
        }
    }
}

/// Cosine distance between vectors of integers whose squares fit 62 bits, as exact
/// terms.
#[derive(Default)]
pub struct DistCosine;

impl DistCosine {
    /// The terms of the cosine distance between two vectors; vectors of different
    /// lengths are rejected before anything is computed.
    pub fn terms<T: Narrow>(&self, va: &[T], vb: &[T]) -> (r: Result<CosineTerms, MetricError>)
        ensures
            va@.len() == vb@.len() ==> r is Ok && are_cosine_terms(
                values(va@),
                values(vb@),
                r->Ok_0,
            ),
            va@.len() != vb@.len() ==> r == Err::<CosineTerms, MetricError>(
                MetricError::DimensionMismatch,
            ),
    {
        if va.len() != vb.len() {
            return Err(MetricError::DimensionMismatch);
        }
        let n = va.len();
        let ghost a = values(va@);
        let ghost b = values(vb@);
        proof {
            assert forall|i: int| 0 <= i < n implies -0x8000_0000 <= #[trigger] a[i]
                <= 0x8000_0000 by {
                va@[i].lemma_narrow();
            }
            assert forall|i: int| 0 <= i < n implies -0x8000_0000 <= #[trigger] b[i]
                <= 0x8000_0000 by {
                vb@[i].lemma_narrow();
            }
        }
        let mut dot: i128 = 0;
        let mut norm_a: u128 = 0;
        let mut norm_b: u128 = 0;
        let mut i: usize = 0;
        while i < n
            invariant
                i <= n,
                n == va@.len(),
                n == vb@.len(),
                a == values(va@),
                b == values(vb@),
                forall|i: int| 0 <= i < n ==> -0x8000_0000 <= #[trigger] a[i] <= 0x8000_0000,
                forall|i: int| 0 <= i < n ==> -0x8000_0000 <= #[trigger] b[i] <= 0x8000_0000,
                dot == dot_sum(a, b, i as nat),
                norm_a == dot_sum(a, a, i as nat),
                norm_b == dot_sum(b, b, i as nat),
            decreases n - i,
        {
            let x = va[i].widen();
            let y = vb[i].widen();
            proof {
                lemma_dot_sum_bounds(a, b, (i + 1) as nat, 0x8000_0000);
                lemma_dot_sum_bounds(a, a, (i + 1) as nat, 0x8000_0000);
                lemma_dot_sum_bounds(b, b, (i + 1) as nat, 0x8000_0000);
                assert(-(0x8000_0000 * 0x8000_0000) <= x * y <= 0x8000_0000 * 0x8000_0000)
                    by (nonlinear_arith)
                    requires
                        -0x8000_0000 <= x <= 0x8000_0000,
                        -0x8000_0000 <= y <= 0x8000_0000,
                ;
                assert(0 <= x * x <= 0x8000_0000 * 0x8000_0000) by (nonlinear_arith)
                    requires
                        -0x8000_0000 <= x <= 0x8000_0000,
                ;
                assert(0 <= y * y <= 0x8000_0000 * 0x8000_0000) by (nonlinear_arith)
                    requires
                        -0x8000_0000 <= y <= 0x8000_0000,
                ;
            }
            dot = dot + x * y;
            norm_a = norm_a + (x * x) as u128;
            norm_b = norm_b + (y * y) as u128;
            i += 1;
        }
        Ok(CosineTerms { dot, norm_a, norm_b })
    }
}

} // verus!
