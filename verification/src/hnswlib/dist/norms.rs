//! L1 and Euclidean distance between vectors of integers.

use vstd::prelude::*;
use crate::hnswlib::dist::Distance;
use crate::hnswlib::dist::integer::{Integer, Short, values};

verus! {

/// The distance between two integers.
pub open spec fn gap(x: int, y: int) -> int {
    if x <= y {
        y - x
    } else {
        x - y
    }
}

/// Sum over the first `n` positions of the distance between the two values there.
pub open spec fn l1_sum(a: Seq<int>, b: Seq<int>, n: nat) -> int
    decreases n,
{
    if n == 0 {
        0
    } else {
        l1_sum(a, b, (n - 1) as nat) + gap(a[n - 1], b[n - 1])
    }
}

/// Sum over the first `n` positions of the square of the difference of the two
/// values there.
pub open spec fn squared_l2_sum(a: Seq<int>, b: Seq<int>, n: nat) -> int
    decreases n,
{
    if n == 0 {
        0
    } else {
        squared_l2_sum(a, b, (n - 1) as nat) + (a[n - 1] - b[n - 1]) * (a[n - 1] - b[n - 1])
    }
}

/// L1 distance between two equally long integer vectors: the sum of the absolute
/// differences.
pub open spec fn l1(a: Seq<int>, b: Seq<int>) -> int {
    l1_sum(a, b, a.len())
}

/// The square of the Euclidean distance between two equally long integer vectors.
pub open spec fn squared_l2(a: Seq<int>, b: Seq<int>) -> int {
    squared_l2_sum(a, b, a.len())
}

/// A sum as a key: itself, or the largest key where it is larger than that.
pub open spec fn saturated(sum: int) -> u64 {
    if sum > u64::MAX {
        u64::MAX
    } else {
        sum as u64
    }
}

/// Where no two values at one position are further apart than `width`, the sum of
/// the absolute differences over `n` positions is at most `n * width`.
pub proof fn lemma_l1_sum_bounds(a: Seq<int>, b: Seq<int>, n: nat, width: int)
    requires
        n <= a.len(),
        n <= b.len(),
        forall|i: int| 0 <= i < n ==> gap(#[trigger] a[i], b[i]) <= width,
    ensures
        0 <= l1_sum(a, b, n) <= n * width,
    decreases n,
{
    if n > 0 {
        lemma_l1_sum_bounds(a, b, (n - 1) as nat, width);
        assert(n * width == (n - 1) * width + width) by (nonlinear_arith);
    } else {
        assert(n * width == 0) by (nonlinear_arith)
            requires
                n == 0,
        ;
    }
}

/// Where no two values at one position are further apart than `width`, the sum of
/// the squared differences over `n` positions is at most `n * width * width`.
pub proof fn lemma_squared_l2_sum_bounds(a: Seq<int>, b: Seq<int>, n: nat, width: int)
    requires
        n <= a.len(),
        n <= b.len(),
        width >= 0,
        forall|i: int| 0 <= i < n ==> gap(#[trigger] a[i], b[i]) <= width,
    ensures
        0 <= squared_l2_sum(a, b, n) <= n * (width * width),
    decreases n,
{
    if n > 0 {
        lemma_squared_l2_sum_bounds(a, b, (n - 1) as nat, width);
        let d = a[n - 1] - b[n - 1];
        assert(0 <= d * d <= width * width) by (nonlinear_arith)
            requires
                -width <= d <= width,
        ;
        assert(n * (width * width) == (n - 1) * (width * width) + width * width)
            by (nonlinear_arith);
    }
}

/// A vector is at L1 distance zero and at Euclidean distance zero from itself.
pub proof fn lemma_l1_l2_identity(a: Seq<int>)
    ensures
        l1(a, a) == 0,
        squared_l2(a, a) == 0,
{
    lemma_sums_vanish(a, a.len());
}

proof fn lemma_sums_vanish(a: Seq<int>, n: nat)
    ensures
        l1_sum(a, a, n) == 0,
        squared_l2_sum(a, a, n) == 0,
    decreases n,
{
    if n > 0 {
        lemma_sums_vanish(a, (n - 1) as nat);
    }
}

/// L1 distance between vectors of integers. The key is the distance itself, or the
/// largest key where the distance is larger than that.
#[derive(Default)]
pub struct DistL1;

/// Euclidean distance between vectors of integers of 32 bits at most. The key is the
/// square of the distance, which orders pairs as the distance does, or the largest
/// key where the square is larger than that.
#[derive(Default)]
pub struct DistL2;

/// The distance between two integers.
fn apart(x: i128, y: i128) -> (d: u128)
    requires
        -0x8000_0000_0000_0000 <= x <= 0xFFFF_FFFF_FFFF_FFFF,
        -0x8000_0000_0000_0000 <= y <= 0xFFFF_FFFF_FFFF_FFFF,
    ensures
        d == gap(x as int, y as int),
{
    if x <= y {
        (y - x) as u128
    } else {
        (x - y) as u128
    }
}

/// A sum as a key.
fn saturate(sum: u128) -> (key: u64)
    ensures
        key == saturated(sum as int),
{
    if sum > u64::MAX as u128 {
        u64::MAX
    } else {
        sum as u64
    }
}

impl<T: Integer> Distance<T> for DistL1 {
    open spec fn reports(&self, va: Seq<T>, vb: Seq<T>, key: u64) -> bool {
        key == saturated(l1(values(va), values(vb)))
    }

    fn eval(&self, va: &[T], vb: &[T]) -> (key: u64) {
        let n = va.len();
        let ghost a = values(va@);
        let ghost b = values(vb@);
        proof {
            assert forall|i: int| 0 <= i < n implies gap(#[trigger] a[i], b[i])
                <= 0xFFFF_FFFF_FFFF_FFFF by {
                va@[i].lemma_range();
                vb@[i].lemma_range();
            }
        }
        let mut sum: u128 = 0;
        let mut i: usize = 0;
        while i < n
            invariant
                i <= n,
                n == va@.len(),
                n == vb@.len(),
                a == values(va@),
                b == values(vb@),
                forall|i: int| 0 <= i < n ==> gap(#[trigger] a[i], b[i]) <= 0xFFFF_FFFF_FFFF_FFFF,
                sum == l1_sum(a, b, i as nat),
            decreases n - i,
        {
            proof {
                lemma_l1_sum_bounds(a, b, (i + 1) as nat, 0xFFFF_FFFF_FFFF_FFFF);
                va@[i as int].lemma_range();
                vb@[i as int].lemma_range();
            }
            let x = va[i].widen();
            let y = vb[i].widen();
            sum = sum + apart(x, y);
            i += 1;
        }
        saturate(sum)
    }
}

impl<T: Short> Distance<T> for DistL2 {
    open spec fn reports(&self, va: Seq<T>, vb: Seq<T>, key: u64) -> bool {
        key == saturated(squared_l2(values(va), values(vb)))
    }

    fn eval(&self, va: &[T], vb: &[T]) -> (key: u64) {
        let n = va.len();
        let ghost a = values(va@);
        let ghost b = values(vb@);
        proof {
            assert forall|i: int| 0 <= i < n implies gap(#[trigger] a[i], b[i]) <= 0xFFFF_FFFF by {
                va@[i].lemma_range();
                vb@[i].lemma_range();
                va@[i].lemma_short();
                vb@[i].lemma_short();
            }
        }
        let mut sum: u128 = 0;
        let mut i: usize = 0;
        while i < n
            invariant
                i <= n,
                n == va@.len(),
                n == vb@.len(),
                a == values(va@),
                b == values(vb@),
                forall|i: int| 0 <= i < n ==> gap(#[trigger] a[i], b[i]) <= 0xFFFF_FFFF,
                sum == squared_l2_sum(a, b, i as nat),
            decreases n - i,
        {
            proof {
                va@[i as int].lemma_range();
                vb@[i as int].lemma_range();
            }
            let x = va[i].widen();
            let y = vb[i].widen();
            let d = apart(x, y);
            proof {
                lemma_squared_l2_sum_bounds(a, b, (i + 1) as nat, 0xFFFF_FFFF);
                assert(d * d == (a[i as int] - b[i as int]) * (a[i as int] - b[i as int]))
                    by (nonlinear_arith)
                    requires
                        d == a[i as int] - b[i as int] || d == b[i as int] - a[i as int],
                ;
            }
            sum = sum + d * d;
            i += 1;
        }
        saturate(sum)
    }
}

} // verus!
