//! What an answer to a query is.

use vstd::prelude::*;
use crate::hnswlib::dist::{Relation, is_functional};
use crate::hnswlib::ranking::{is_ranking, lemma_is_the_ranking, precedes, ranking};
use crate::database::db::{Doc, DocView, QueryError, doc_views};

verus! {

/// `keys` holds, for each document, a key that the metric reports for the document
/// and the query.
pub open spec fn are_scores<T>(
    relation: Relation<T>,
    docs: Seq<DocView<T>>,
    query: Seq<T>,
    keys: Seq<u64>,
) -> bool {
    &&& keys.len() == docs.len()
    &&& forall|i: int| 0 <= i < docs.len() ==> relation(docs[i].embedding, query, #[trigger] keys[i])
}

/// Document `id` of `docs` as a query result: with its key as score.
pub open spec fn scored<T>(docs: Seq<DocView<T>>, keys: Seq<u64>, id: int) -> DocView<T> {
    DocView { text: docs[id].text, embedding: docs[id].embedding, score: keys[id] }
}

/// The documents that `ids` names, each with its key as score.
pub open spec fn scored_docs<T>(docs: Seq<DocView<T>>, keys: Seq<u64>, ids: Seq<usize>) -> Seq<
    DocView<T>,
> {
    Seq::new(ids.len(), |k: int| scored(docs, keys, ids[k] as int))
}

/// The `n` documents with the smallest keys, smallest first, each with its key as
/// score; all documents where there are fewer than `n`. Documents with one key come
/// in the order in which they were loaded.
pub open spec fn nearest<T>(docs: Seq<DocView<T>>, keys: Seq<u64>, n: nat) -> Seq<DocView<T>> {
    let m = if n <= docs.len() {
        n
    } else {
        docs.len()
    };
    scored_docs(docs, keys, ranking(keys, m))
}

/// `found` holds the documents that `ids` names, none twice, each with a key that the
/// metric reports for it and the query as score, in ascending order of score, and
/// among equal scores in the order in which they were loaded.
pub open spec fn is_selection<T>(
    relation: Relation<T>,
    docs: Seq<DocView<T>>,
    query: Seq<T>,
    ids: Seq<usize>,
    found: Seq<DocView<T>>,
) -> bool {
    &&& ids.len() == found.len()
    &&& forall|k: int|
        0 <= k < ids.len() ==> {
            &&& (#[trigger] ids[k]) < docs.len()
            &&& found[k].text == docs[ids[k] as int].text
            &&& found[k].embedding == docs[ids[k] as int].embedding
            &&& relation(docs[ids[k] as int].embedding, query, found[k].score)
        }
    &&& forall|k: int, l: int|
        0 <= k < l < ids.len() ==> (#[trigger] found[k]).score < (#[trigger] found[l]).score || (
        found[k].score == found[l].score && ids[k] < ids[l])
}

/// `found` holds the `n` documents with the smallest keys, smallest first, each with
/// its key as score; all documents where there are fewer than `n`. Documents with one
/// key come in the order in which they were loaded.
pub open spec fn is_nearest<T>(
    docs: Seq<DocView<T>>,
    keys: Seq<u64>,
    n: nat,
    order: Seq<usize>,
    found: Seq<DocView<T>>,
) -> bool {
    &&& order.len() == (if n <= docs.len() {
        n
    } else {
        docs.len()
    })
    &&& is_ranking(keys, order)
    &&& found == scored_docs(docs, keys, order)
}

/// `found` is the exact answer to a query for `n` documents: every document was
/// scored, and `found` holds the `n` nearest by those scores.
pub open spec fn is_exact_answer<T>(
    relation: Relation<T>,
    docs: Seq<DocView<T>>,
    query: Seq<T>,
    n: nat,
    found: Seq<DocView<T>>,
) -> bool {
    exists|keys: Seq<u64>, order: Seq<usize>|
        are_scores(relation, docs, query, keys) && #[trigger] is_nearest(docs, keys, n, order, found)
}

/// `found` is an answer to a query for `n` documents: at most `n` stored documents,
/// none twice, nearest first, each with its distance to the query as score; and the
/// exact answer where `n` is no less than the number of stored documents.
pub open spec fn is_answer<T>(
    relation: Relation<T>,
    docs: Seq<DocView<T>>,
    query: Seq<T>,
    n: nat,
    found: Seq<DocView<T>>,
) -> bool {
    &&& found.len() <= n
    &&& exists|ids: Seq<usize>| #[trigger] is_selection(relation, docs, query, ids, found)
    &&& n >= docs.len() ==> is_exact_answer(relation, docs, query, n, found)
}

/// The key of each document against the query, where the metric is a function.
pub open spec fn keys_of<T>(relation: Relation<T>, docs: Seq<DocView<T>>, query: Seq<T>) -> Seq<u64> {
    Seq::new(
        docs.len(),
        |i: int| choose|key: u64| #[trigger] relation(docs[i].embedding, query, key),
    )
}

/// The exact answer to a query for `n` documents, where the metric is a function.
pub open spec fn exact_answer<T>(
    relation: Relation<T>,
    docs: Seq<DocView<T>>,
    query: Seq<T>,
    n: nat,
) -> Seq<DocView<T>> {
    nearest(docs, keys_of(relation, docs, query), n)
}

/// The nearest documents by a list of scores are a selection of the documents.
pub proof fn lemma_nearest_is_selection<T>(
    relation: Relation<T>,
    docs: Seq<DocView<T>>,
    query: Seq<T>,
    keys: Seq<u64>,
    ids: Seq<usize>,
)
    requires
        are_scores(relation, docs, query, keys),
        is_ranking(keys, ids),
    ensures
        is_selection(relation, docs, query, ids, scored_docs(docs, keys, ids)),
{
    let found = scored_docs(docs, keys, ids);
}

/// Under a metric that is a function, the scores of the documents are their keys.
pub proof fn lemma_scores_are_keys<T>(
    relation: Relation<T>,
    docs: Seq<DocView<T>>,
    query: Seq<T>,
    keys: Seq<u64>,
)
    requires
        is_functional(relation),
        are_scores(relation, docs, query, keys),
    ensures
        keys == keys_of(relation, docs, query),
{
    let chosen = keys_of(relation, docs, query);
}

/// Under a metric that is a function, a query has one exact answer.
pub proof fn lemma_exact_answer_unique<T>(
    relation: Relation<T>,
    docs: Seq<DocView<T>>,
    query: Seq<T>,
    n: nat,
    found: Seq<DocView<T>>,
)
    requires
        is_functional(relation),
        is_exact_answer(relation, docs, query, n, found),
    ensures
        found == exact_answer(relation, docs, query, n),
{
    let (keys, order) = choose|keys: Seq<u64>, order: Seq<usize>|
        are_scores(relation, docs, query, keys) && #[trigger] is_nearest(docs, keys, n, order, found);
    lemma_scores_are_keys(relation, docs, query, keys);
    lemma_is_the_ranking(keys, order);
}

/// Where the document at position `own` has the key 0, the exact answer to a query
/// for one document or more starts with a document of score 0; and it starts with the
/// document at `own` if no document before it has the key 0. So a query with a stored
/// vector finds that vector's own document first, if the metric puts every vector at
/// distance 0 from itself and no equal vector was loaded before it.
pub proof fn lemma_exact_answer_finds_own<T>(
    docs: Seq<DocView<T>>,
    keys: Seq<u64>,
    n: nat,
    order: Seq<usize>,
    found: Seq<DocView<T>>,
    own: usize,
)
    requires
        keys.len() == docs.len(),
        is_nearest(docs, keys, n, order, found),
        n >= 1,
        own < docs.len(),
        keys[own as int] == 0,
    ensures
        found.len() >= 1,
        found[0].score == 0,
        (forall|j: int| 0 <= j < own ==> keys[j] != 0) ==> found[0] == scored(docs, keys, own as int),
{
    // the first document of the answer is the one at `own` or comes before it
    let first = order[0];
    if order.contains(own) {
        let at = choose|at: int| 0 <= at < order.len() && order[at] == own;
        assert(first == own || precedes(keys, first as int, own as int));
    } else {
        assert(precedes(keys, first as int, own as int));
    }
}

/// Whether a query of this length and result count is refused, and why.
pub open spec fn query_refusal<T>(docs: Seq<DocView<T>>, query: Seq<T>, n: u32) -> Option<
    QueryError,
> {
    if n == 0 {
        Some(QueryError::InvalidParameter)
    } else if docs.len() > 0 && docs[0].embedding.len() != query.len() {
        Some(QueryError::DimensionMismatch)
    } else {
        None
    }
}

/// The documents that the first `n` matches name, in the order of the matches, all of
/// them where there are fewer than `n`; each with the score 0.
pub open spec fn matched<T>(docs: Seq<DocView<T>>, matching: Seq<u32>, n: u32) -> Seq<DocView<T>> {
    Seq::new(
        if n <= matching.len() {
            n as nat
        } else {
            matching.len()
        },
        |k: int|
            DocView {
                text: docs[matching[k] as int].text,
                embedding: docs[matching[k] as int].embedding,
                score: 0,
            },
    )
}

/// Every match names one of `count` stored documents.
pub open spec fn names_stored(matching: Seq<u32>, count: nat) -> bool {
    forall|k: int| 0 <= k < matching.len() ==> (#[trigger] matching[k]) < count
}

/// The first `k` matches without those that name none of `count` stored documents.
pub open spec fn stored_only(matching: Seq<u32>, count: nat, k: nat) -> Seq<u32>
    decreases k,
{
    if k == 0 {
        Seq::empty()
    } else if matching[k - 1] < count {
        stored_only(matching, count, (k - 1) as nat).push(matching[k - 1])
    } else {
        stored_only(matching, count, (k - 1) as nat)
    }
}

/// What a table of buckets may name for a query: `names(query, matching)` says that
/// the table may name the documents at the positions `matching`.
pub type Naming<T> = spec_fn(Seq<T>, Seq<u32>) -> bool;

/// `found` is an answer of a backend that is led by a table of buckets: the table
/// named documents for the query, and `found` holds the stored ones among them, `n`
/// at most, in the order in which the table named them, each with the score 0. Which
/// documents the table names, and how many, is the table's own affair. Where nothing
/// is stored the table is not asked, and nothing is found.
pub open spec fn is_bucket_answer<T>(
    names: Naming<T>,
    docs: Seq<DocView<T>>,
    query: Seq<T>,
    n: u32,
    found: Seq<DocView<T>>,
) -> bool {
    if docs.len() == 0 {
        found.len() == 0
    } else {
        exists|matching: Seq<u32>| #[trigger]
            names(query, matching) && found == matched(
                docs,
                stored_only(matching, docs.len(), matching.len()),
                n,
            )
    }
}

/// What `query` owes. A query for no document, and one of another length than the
/// stored embeddings, is refused. Any other query is answered. A backend that ranks
/// by distance gives an answer in the sense of [`is_answer`], and where its metric is
/// a function the answer is the one that the backend names. A backend that is led by
/// a table of buckets gives an answer in the sense of [`is_bucket_answer`].
pub open spec fn query_outcome<T>(
    ranks: bool,
    names: Naming<T>,
    relation: Relation<T>,
    docs: Seq<DocView<T>>,
    answer: Seq<DocView<T>>,
    query: Seq<T>,
    n: u32,
    r: Result<Vec<Doc<T>>, QueryError>,
) -> bool {
    match query_refusal(docs, query, n) {
        Some(e) => r == Err::<Vec<Doc<T>>, QueryError>(e),
        None => {
            &&& r is Ok
            &&& ranks ==> is_answer(relation, docs, query, n as nat, doc_views(r->Ok_0@))
            &&& ranks && is_functional(relation) ==> doc_views(r->Ok_0@) == answer
            &&& !ranks ==> is_bucket_answer(names, docs, query, n, doc_views(r->Ok_0@))
        },
    }
}

} // verus!
