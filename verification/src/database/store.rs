//! Keeping documents, and answering a query by scoring every one of them.

use vstd::prelude::*;
use crate::hnswlib::dist::{Distance, is_functional, relation_of};
use crate::hnswlib::hnsw::copy_vec;
use crate::hnswlib::ranking::{is_ranking, rank, ranking};
use crate::database::answer::{
    are_scores,
    exact_answer,
    is_answer,
    is_exact_answer,
    is_nearest,
    lemma_exact_answer_unique,
    lemma_nearest_is_selection,
    nearest,
    query_refusal,
    scored,
};
use crate::database::db::{Doc, DocView, LoadError, QueryError, doc_views};

verus! {

/// All embeddings of the list have one length.
pub open spec fn same_dimension<T>(docs: Seq<DocView<T>>) -> bool {
    forall|i: int, j: int|
        0 <= i < docs.len() && 0 <= j < docs.len() ==> (#[trigger] docs[i]).embedding.len() == (
        #[trigger] docs[j]).embedding.len()
}

/// The documents that a batch of texts and embeddings stands for, before any query.
pub open spec fn fresh_docs<T>(texts: Seq<String>, embeddings: Seq<Vec<T>>) -> Seq<DocView<T>> {
    Seq::new(
        texts.len(),
        |i: int| DocView { text: texts[i]@, embedding: embeddings[i]@, score: 0 },
    )
}

/// What `load` owes: it appends the batch, in order, when there is one embedding for
/// each text and the index keeps one dimension; else it reports why not and leaves
/// the documents as they were.
pub open spec fn load_outcome<T>(
    before: Seq<DocView<T>>,
    texts: Seq<String>,
    embeddings: Seq<Vec<T>>,
    r: Result<(), LoadError>,
    after: Seq<DocView<T>>,
) -> bool {
    if texts.len() != embeddings.len() {
        r == Err::<(), LoadError>(LoadError::InvalidParameter) && after == before
    } else if !same_dimension(before + fresh_docs(texts, embeddings)) {
        r == Err::<(), LoadError>(LoadError::DimensionMismatch) && after == before
    } else {
        r == Ok::<(), LoadError>(()) && after == before + fresh_docs(texts, embeddings)
    }
}

/// Appends a batch of texts with their embeddings to `docs`, or refuses it and leaves
/// `docs` unchanged.
#[verifier::loop_isolation(false)]
pub fn append_docs<T>(docs: &mut Vec<Doc<T>>, texts: Vec<String>, embeddings: Vec<Vec<T>>) -> (r:
    Result<(), LoadError>)
    requires
        same_dimension(doc_views(old(docs)@)),
    ensures
        same_dimension(doc_views(final(docs)@)),
        load_outcome(doc_views(old(docs)@), texts@, embeddings@, r, doc_views(final(docs)@)),
        r is Err ==> *final(docs) == *old(docs),
{
    let ghost before = doc_views(docs@);
    let ghost batch = fresh_docs(texts@, embeddings@);
    if texts.len() != embeddings.len() {
        return Err(LoadError::InvalidParameter);
    }
    let count = texts.len();
    if count == 0 {
        return Ok(());
    }
    let dim = if docs.len() > 0 {
        docs[0].embedding.len()
    } else {
        embeddings[0].len()
    };
    let mut i: usize = 0;
    while i < count
        invariant
            i <= count,
            count == texts@.len(),
            count == embeddings@.len(),
            forall|c: int| 0 <= c < i ==> (#[trigger] embeddings@[c])@.len() == dim,
        decreases count - i,
    {
        if embeddings[i].len() != dim {
            proof {
                let all = before + batch;
                let first = if before.len() > 0 {
                    0int
                } else {
                    before.len() as int
                };
                assert(all[first].embedding.len() == dim);
                assert(all[before.len() + i].embedding.len() != dim);
            }
            return Err(LoadError::DimensionMismatch);
        }
        i += 1;
    }
    proof {
        let all = before + batch;
        assert forall|c: int| 0 <= c < all.len() implies (#[trigger] all[c]).embedding.len()
            == dim by {
            if c < before.len() {
                assert(before[c].embedding.len() == before[0].embedding.len());
            }
        }
    }
    // Move the batch over without copying: twice back to front.
    let mut texts = texts;
    let mut embeddings = embeddings;
    let mut turned: Vec<Doc<T>> = Vec::new();
    while texts.len() > 0
        invariant
            texts@.len() == embeddings@.len(),
            texts@.len() + turned@.len() == count,
            forall|c: int|
                0 <= c < texts@.len() ==> (#[trigger] texts@[c])@ == batch[c].text && embeddings@[c]@
                    == batch[c].embedding,
            forall|c: int|
                0 <= c < turned@.len() ==> (#[trigger] turned@[c])@ == batch[count - 1 - c],
        decreases texts@.len(),
    {
        let text = texts.pop().unwrap();
        let embedding = embeddings.pop().unwrap();
        let doc = Doc { text, embedding, score: 0 };
        turned.push(doc);
    }
    while turned.len() > 0
        invariant
            turned@.len() <= count,
            doc_views(docs@) == before + batch.subrange(0, count - turned@.len()),
            forall|c: int|
                0 <= c < turned@.len() ==> (#[trigger] turned@[c])@ == batch[count - 1 - c],
        decreases turned@.len(),
    {
        let ghost sofar = docs@;
        let doc = turned.pop().unwrap();
        docs.push(doc);
        assert(doc_views(docs@) =~= doc_views(sofar).push(doc@));
    }
    assert(batch.subrange(0, count as int) == batch);
    Ok(())
}

/// Scores every document against the query.
pub fn score_all<T, D: Distance<T>>(docs: &Vec<Doc<T>>, metric: &D, query: &[T]) -> (keys: Vec<u64>)
    requires
        forall|i: int| 0 <= i < docs@.len() ==> (#[trigger] docs@[i]).embedding@.len() == query@.len(),
    ensures
        are_scores(relation_of(metric), doc_views(docs@), query@, keys@),
{
    let count = docs.len();
    let mut keys: Vec<u64> = Vec::new();
    let mut i: usize = 0;
    while i < count
        invariant
            i <= count,
            count == docs@.len(),
            forall|i: int|
                0 <= i < docs@.len() ==> (#[trigger] docs@[i]).embedding@.len() == query@.len(),
            keys@.len() == i,
            forall|c: int|
                0 <= c < i ==> metric.reports(docs@[c].embedding@, query@, #[trigger] keys@[c]),
        decreases count - i,
    {
        let key = metric.eval(docs[i].embedding.as_slice(), query);
        keys.push(key);
        i += 1;
    }
    keys
}

/// The `n` documents with the smallest keys, smallest first, each with its key as
/// score; all documents where there are fewer than `n`. `keys[i]` is the key of
/// `docs[i]`.
pub fn nearest_docs<T: Copy>(docs: &Vec<Doc<T>>, keys: &Vec<u64>, n: usize) -> (found: Vec<Doc<T>>)
    requires
        keys@.len() == docs@.len(),
    ensures
        doc_views(found@) == nearest(doc_views(docs@), keys@, n as nat),
        found@.len() == (if n <= docs@.len() { n as nat } else { docs@.len() }),
        is_ranking(keys@, ranking(keys@, found@.len())),
{
    let ghost stored = doc_views(docs@);
    let order = rank(keys, n);
    let m = order.len();
    let mut found: Vec<Doc<T>> = Vec::new();
    let mut k: usize = 0;
    while k < m
        invariant
            k <= m,
            m == order@.len(),
            keys@.len() == docs@.len(),
            stored == doc_views(docs@),
            is_ranking(keys@, order@),
            found@.len() == k,
            forall|c: int|
                0 <= c < k ==> (#[trigger] found@[c])@ == scored(stored, keys@, order@[c] as int),
        decreases m - k,
    {
        let at = order[k];
        let doc = &docs[at];
        found.push(Doc { text: doc.text.clone(), embedding: copy_vec(&doc.embedding), score: keys[at] });
        k += 1;
    }
    found
}

/// Scores every document against the query and returns the `n` nearest, nearest
/// first, or all of them where there are fewer.
pub fn exhaustive_query<T: Copy, D: Distance<T>>(
    docs: &Vec<Doc<T>>,
    metric: &D,
    query: &[T],
    n: u32,
) -> (r: Result<Vec<Doc<T>>, QueryError>)
    requires
        same_dimension(doc_views(docs@)),
    ensures
        match query_refusal(doc_views(docs@), query@, n) {
            Some(e) => r == Err::<Vec<Doc<T>>, QueryError>(e),
            None => r is Ok && is_exact_answer(
                relation_of(metric),
                doc_views(docs@),
                query@,
                n as nat,
                doc_views(r->Ok_0@),
            ) && is_answer(
                relation_of(metric),
                doc_views(docs@),
                query@,
                n as nat,
                doc_views(r->Ok_0@),
            ) && (is_functional(relation_of(metric)) ==> doc_views(r->Ok_0@) == exact_answer(
                relation_of(metric),
                doc_views(docs@),
                query@,
                n as nat,
            )),
        },
{
    let ghost stored = doc_views(docs@);
    if n == 0 {
        return Err(QueryError::InvalidParameter);
    }
    if docs.len() > 0 && docs[0].embedding.len() != query.len() {
        return Err(QueryError::DimensionMismatch);
    }
    assert forall|i: int| 0 <= i < docs@.len() implies (#[trigger] docs@[i]).embedding@.len()
        == query@.len() by {
        assert(stored[i].embedding.len() == stored[0].embedding.len());
    }
    let keys = score_all(docs, metric, query);
    let found = nearest_docs(docs, &keys, n as usize);
    proof {
        let ids = ranking(keys@, found@.len() as nat);
        lemma_nearest_is_selection(relation_of(metric), stored, query@, keys@, ids);
        assert(is_nearest(stored, keys@, n as nat, ids, doc_views(found@)));
        if is_functional(relation_of(metric)) {
            lemma_exact_answer_unique(relation_of(metric), stored, query@, n as nat, doc_views(found@));
        }
    }
    Ok(found)
}

} // verus!
