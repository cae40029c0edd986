//! Counting the positions at which two vectors differ.

use vstd::prelude::*;
use crate::hnswlib::dist::Distance;
use crate::hnswlib::dist::integer::{Integer, values};

verus! {

/// How many of the first `n` positions hold different values in `a` and in `b`.
pub open spec fn differing_positions<T>(a: Seq<T>, b: Seq<T>, n: nat) -> nat
    decreases n,
{
    if n == 0 {
        0
    } else {
        differing_positions(a, b, (n - 1) as nat) + (if a[n - 1] != b[n - 1] {
            1nat
        } else {
            0nat
        })
    }
}

/// Hamming distance between two equally long vectors: the count of differing positions.
pub open spec fn hamming<T>(a: Seq<T>, b: Seq<T>) -> nat {
    differing_positions(a, b, a.len())
}

/// A vector is at Hamming distance zero from itself.
pub proof fn lemma_hamming_identity<T>(a: Seq<T>)
    ensures
        hamming(a, a) == 0,
{
    lemma_differs_nowhere(a, a.len());
}

proof fn lemma_differs_nowhere<T>(a: Seq<T>, n: nat)
    ensures
        differing_positions(a, a, n) == 0,
    decreases n,
{
    if n > 0 {
        lemma_differs_nowhere(a, (n - 1) as nat);
    }
}

/// Hamming distance between vectors of integers.
#[derive(Default)]
pub struct DistHamming;

impl<T: Integer> Distance<T> for DistHamming {
    open spec fn reports(&self, va: Seq<T>, vb: Seq<T>, key: u64) -> bool {
        key == hamming(values(va), values(vb))
    }

    fn eval(&self, va: &[T], vb: &[T]) -> (key: u64) {
        let n = va.len();
        let ghost a = values(va@);
        let ghost b = values(vb@);
        let mut count: u64 = 0;
        let mut i: usize = 0;
        while i < n
            invariant
                i <= n,
                n == va@.len(),
                n == vb@.len(),
                a == values(va@),
                b == values(vb@),
                count == differing_positions(a, b, i as nat),
                count <= i,
            decreases n - i,
        {
            if va[i].widen() != vb[i].widen() {
                count += 1;
            }
            i += 1;
        }
        count
    }
}

} // verus!
