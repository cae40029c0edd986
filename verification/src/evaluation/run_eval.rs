//! Counting correct top results.

use vstd::prelude::*;
use crate::database::db::{Doc, DocView, doc_views};

verus! {

/// A query was answered correctly: its top result is the expected text.
pub open spec fn is_correct<T>(result: Seq<DocView<T>>, reference: Seq<char>) -> bool {
    result.len() > 0 && result[0].text == reference
}

/// How many of the first `n` queries were answered correctly.
pub open spec fn correct_among<T>(results: Seq<Vec<Doc<T>>>, references: Seq<String>, n: nat) -> nat
    decreases n,
{
    if n == 0 {
        0
    } else {
        correct_among(results, references, (n - 1) as nat) + (if is_correct(
            doc_views(results[n - 1]@),
            references[n - 1]@,
        ) {
            1nat
        } else {
            0nat
        })
    }
}

/// Whether the top result of a query is the expected text. An empty answer is not
/// correct.
pub fn top_is<T>(result: &Vec<Doc<T>>, reference: &String) -> (correct: bool)
    ensures
        correct == is_correct(doc_views(result@), reference@),
{
    if result.len() == 0 {
        return false;
    }
    result[0].text == *reference
}

/// Counts the queries whose top result is the expected text. `results[i]` is the
/// answer to query `i` and `references[i]` the text expected for it; where one list is
/// longer than the other, what has no counterpart is not counted.
pub fn count_correct<T>(results: &Vec<Vec<Doc<T>>>, references: &Vec<String>) -> (correct: usize)
    ensures
        correct == correct_among(
            results@,
            references@,
            (if results@.len() <= references@.len() {
                results@.len()
            } else {
                references@.len()
            }),
        ),
        correct <= results@.len(),
        correct <= references@.len(),
{
    let n = if results.len() <= references.len() {
        results.len()
    } else {
        references.len()
    };
    let mut correct: usize = 0;
    let mut i: usize = 0;
    while i < n
        invariant
            i <= n,
            n <= results@.len(),
            n <= references@.len(),
            correct <= i,
            correct == correct_among(results@, references@, i as nat),
        decreases n - i,
    {
        if top_is(&results[i], &references[i]) {
            correct += 1;
        }
        i += 1;
    }
    correct
}

} // verus!
