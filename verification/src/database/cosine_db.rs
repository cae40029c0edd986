//! Exhaustive search under cosine distance.

use vstd::prelude::*;
use crate::hnswlib::dist::{Distance, Relation, relation_of};
use crate::database::answer::{Naming, exact_answer, is_exact_answer, query_refusal};
use crate::database::db::{Doc, DocView, LoadError, Operations, QueryError, doc_views};
use crate::database::store::{append_docs, exhaustive_query, same_dimension};

verus! {

/// A document store that answers a query by scoring every stored document against
/// it. It is meant to be built with a cosine metric; the score of a result is its
/// distance to the query, so results come nearest first.
pub struct CosineDB<T, D> {
    docs: Vec<Doc<T>>,
    metric: D,
}

impl<T: Copy, D: Distance<T>> CosineDB<T, D> {
    /// The stored documents, in the order in which they were loaded.
    pub closed spec fn stored(&self) -> Seq<DocView<T>> {
        doc_views(self.docs@)
    }

    /// The metric that scores the documents.
    pub closed spec fn metric(&self) -> D {
        self.metric
    }

    /// An empty store that will score with `metric`.
    pub fn new(metric: D) -> (db: Self)
        ensures
            db.wf(),
            db.stored() == Seq::<DocView<T>>::empty(),
            db.documents() == Seq::<DocView<T>>::empty(),
            db.metric() == metric,
    {
        let db = CosineDB { docs: Vec::new(), metric };
        db
    }

    /// The stored documents.
    pub fn docs(&self) -> (docs: &Vec<Doc<T>>)
        ensures
            doc_views(docs@) == self.stored(),
    {
        &self.docs
    }
}

impl<T: Copy, D: Distance<T>> Operations<T> for CosineDB<T, D> {
    /// All stored embeddings have one length.
    closed spec fn wf(&self) -> bool {
        same_dimension(doc_views(self.docs@))
    }

    closed spec fn documents(&self) -> Seq<DocView<T>> {
        doc_views(self.docs@)
    }

    open spec fn ranks(&self) -> bool {
        true
    }

    /// There is no table.
    open spec fn names(&self) -> Naming<T> {
        |query: Seq<T>, matching: Seq<u32>| false
    }

    closed spec fn relation(&self) -> Relation<T> {
        relation_of(&self.metric)
    }

    /// The exact answer: every stored document is scored.
    closed spec fn answer(&self, query: Seq<T>, n: nat) -> Seq<DocView<T>> {
        exact_answer(relation_of(&self.metric), doc_views(self.docs@), query, n)
    }

    fn load(&mut self, texts: Vec<String>, embeddings: Vec<Vec<T>>) -> (r: Result<(), LoadError>)
        ensures
            final(self).metric() == old(self).metric(),
            final(self).stored() == final(self).documents(),
    {
        let r = append_docs(&mut self.docs, texts, embeddings);
        r
    }

    /// The `n` nearest documents exactly: every stored document is scored.
    fn query(&self, query: &[T], n: u32) -> (r: Result<Vec<Doc<T>>, QueryError>)
        ensures
            self.stored() == self.documents(),
            self.relation() == relation_of(&self.metric()),
            self.answer(query@, n as nat) == exact_answer(
                self.relation(),
                self.stored(),
                query@,
                n as nat,
            ),
            query_refusal(self.stored(), query@, n) is None ==> r is Ok && is_exact_answer(
                relation_of(&self.metric()),
                self.stored(),
                query@,
                n as nat,
                doc_views(r->Ok_0@),
            ),
    {
        exhaustive_query(&self.docs, &self.metric, query, n)
    }
}

} // verus!
