//! Distance metrics: the contract that every metric meets, and the metrics over
//! integer and symbolic element types.

pub mod cosine;
pub mod hamming;
pub mod integer;
pub mod jaccard;
pub mod levenshtein;
pub mod norms;

pub use cosine::{
    are_cosine_terms, cosine_distance, dot_sum, lemma_cosine_degenerate, lemma_cosine_identity,
    lemma_cosine_of_itself, lemma_cosine_of_zero, lemma_dot_sum_bounds, lemma_dot_sum_zero,
    lemma_norm_sum, CosineDistance, CosineTerms, DistCosine,
};
pub use hamming::{differing_positions, hamming, lemma_hamming_identity, DistHamming};
pub use integer::{values, Integer, Narrow, Natural, Short};
pub use jaccard::{
    jaccard, lemma_jaccard_identity, lemma_jaccard_sums_bounds, sum_of_max, sum_of_min, DistJaccard,
    Ratio,
};
pub use levenshtein::{
    lemma_levenshtein_identity, lemma_levenshtein_reports, lemma_levenshtein_symmetric,
    lemma_prefix_edit_distance_bounds,
    lemma_prefix_edit_distance_reflexive, lemma_prefix_edit_distance_symmetric, levenshtein, min3,
    prefix_edit_distance, DistLevenshtein,
};
pub use norms::{
    gap, l1, l1_sum, lemma_l1_l2_identity, lemma_l1_sum_bounds, lemma_squared_l2_sum_bounds,
    saturated, squared_l2, squared_l2_sum, DistL1, DistL2,
};

use vstd::prelude::*;

verus! {

/// A dissimilarity between two vectors of `T`, reported as a key: the smaller the
/// key, the closer the pair. An index can be built over anything that implements it.
///
/// `reports` says what `eval` may return. The metrics of this module state their
/// formula there. A metric that leaves `reports` as it is promises nothing of its
/// keys, and an index over it promises only what holds of any keys.
pub trait Distance<T> {
    /// Whether `key` is a key that `eval` may report for these two vectors.
    open spec fn reports(&self, va: Seq<T>, vb: Seq<T>, key: u64) -> bool {
        true
    }

    /// Whether the metric takes two vectors of different lengths. Most metrics compare
    /// vectors place by place and do not; a metric between sequences does.
    open spec fn any_lengths(&self) -> bool {
        false
    }

    /// Evaluates the metric on two vectors: of one length, or of any lengths where the
    /// metric takes such.
    fn eval(&self, va: &[T], vb: &[T]) -> (key: u64)
        requires
            va@.len() == vb@.len() || self.any_lengths(),
        ensures
            self.reports(va@, vb@, key),
    ;
}

/// What a metric may report: `relation(a, b, key)` says that `key` may be reported
/// for the vectors `a` and `b`.
pub type Relation<T> = spec_fn(Seq<T>, Seq<T>, u64) -> bool;

/// What `metric` may report.
pub open spec fn relation_of<T, D: Distance<T>>(metric: &D) -> Relation<T> {
    |va: Seq<T>, vb: Seq<T>, key: u64| metric.reports(va, vb, key)
}

/// One key at most may be reported for each pair of vectors: what is reported is a
/// function of the pair.
pub open spec fn is_functional<T>(relation: Relation<T>) -> bool {
    forall|va: Seq<T>, vb: Seq<T>, k1: u64, k2: u64|
        #![trigger relation(va, vb, k1), relation(va, vb, k2)]
        relation(va, vb, k1) && relation(va, vb, k2) ==> k1 == k2
}

/// The metric reports one key for each pair of vectors: it is a function.
pub open spec fn is_function<T, D: Distance<T>>(metric: &D) -> bool {
    is_functional(relation_of(metric))
}

/// The key that a metric reports for a pair of vectors, where it is a function.
pub open spec fn key_of<T, D: Distance<T>>(metric: &D, va: Seq<T>, vb: Seq<T>) -> u64 {
    choose|key: u64| metric.reports(va, vb, key)
}

/// What a metric that is a function reports for a pair of vectors is its key.
pub proof fn lemma_key_of<T, D: Distance<T>>(metric: &D, va: Seq<T>, vb: Seq<T>, key: u64)
    requires
        is_function(metric),
        metric.reports(va, vb, key),
    ensures
        key == key_of(metric, va, vb),
{
    let relation = relation_of(metric);
    assert(relation(va, vb, key) && relation(va, vb, key_of(metric, va, vb)));
}

/// Why a metric could not be evaluated.
#[derive(Clone, Copy, Debug, PartialEq, Eq, Structural)]
pub enum MetricError {
    /// The two vectors differ in length.
    DimensionMismatch,
}

/// Evaluates `metric` on `va` and `vb` as vectors, rejecting vectors of different
/// lengths before anything is computed.
pub fn checked_eval<T, D: Distance<T>>(metric: &D, va: &[T], vb: &[T]) -> (r: Result<
    u64,
    MetricError,
>)
    ensures
        va@.len() == vb@.len() ==> r is Ok && metric.reports(va@, vb@, r->Ok_0),
        va@.len() != vb@.len() ==> r == Err::<u64, MetricError>(MetricError::DimensionMismatch),
{
    if va.len() != vb.len() {
        return Err(MetricError::DimensionMismatch);
    }
    Ok(metric.eval(va, vb))
}

} // verus!
