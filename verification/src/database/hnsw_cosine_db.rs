//! Approximate search over a layered proximity graph, under cosine distance.

use vstd::prelude::*;
use crate::hnswlib::dist::{Distance, Relation, relation_of};
use crate::hnswlib::hnsw::Hnsw;
use crate::database::answer::Naming;
use crate::database::db::{Doc, DocView, LoadError, Operations, QueryError, doc_views};
use crate::database::hnsw_db::{
    EF_CONSTRUCTION, MAX_NB_CONNECTION, embeddings_of, graph_answer, graph_load, graph_matches,
    graph_matches_store, graph_query,
};

verus! {

/// A document store that answers a query by a walk through a layered proximity
/// graph over the stored embeddings. It is meant to be built with a cosine metric.
/// Every `load` builds the graph anew over all stored documents.
pub struct HnswCosineDB<T, D> {
    docs: Vec<Doc<T>>,
    hnsw: Hnsw<T, D>,
}

impl<T: Copy, D: Distance<T>> HnswCosineDB<T, D> {
    /// The stored documents, in the order in which they were loaded.
    pub closed spec fn stored(&self) -> Seq<DocView<T>> {
        doc_views(self.docs@)
    }

    /// The metric that the graph is built and searched with.
    pub closed spec fn metric(&self) -> D {
        self.hnsw.metric()
    }

    /// The graph over the stored embeddings.
    pub closed spec fn graph(&self) -> Hnsw<T, D> {
        self.hnsw
    }

    /// An empty store whose graph will be built with `metric`.
    pub fn new(metric: D) -> (db: Self)
        ensures
            db.wf(),
            db.stored() == Seq::<DocView<T>>::empty(),
            db.documents() == Seq::<DocView<T>>::empty(),
            db.metric() == metric,
    {
        let hnsw = Hnsw::new(MAX_NB_CONNECTION, 1, 0, EF_CONSTRUCTION, metric).unwrap();
        let db = HnswCosineDB { docs: Vec::new(), hnsw };
        assert(db.hnsw.points() =~= embeddings_of(doc_views(db.docs@)));
        db
    }

    /// What holds of the graph of every such store: it is well formed (see
    /// `Hnsw::lemma_invariants` for what that gives), it keeps `MAX_NB_CONNECTION`
    /// neighbours a layer and was built with candidate lists of width
    /// `EF_CONSTRUCTION`, its points are the stored embeddings, and over a store that is
    /// not empty its top layer and the levels of its points are those that the number
    /// of stored documents gives.
    pub proof fn lemma_graph(&self)
        requires
            self.wf(),
        ensures
            graph_matches_store(self.stored(), &self.graph()),
    {
    }

    /// The stored documents.
    pub fn docs(&self) -> (docs: &Vec<Doc<T>>)
        ensures
            doc_views(docs@) == self.stored(),
    {
        &self.docs
    }

    /// The graph over the stored embeddings.
    pub fn hnsw(&self) -> (hnsw: &Hnsw<T, D>)
        ensures
            *hnsw == self.graph(),
    {
        &self.hnsw
    }
}

impl<T: Copy, D: Distance<T>> Operations<T> for HnswCosineDB<T, D> {
    /// The graph is well formed, and its points are the stored embeddings.
    closed spec fn wf(&self) -> bool {
        graph_matches(self.docs@, &self.hnsw)
    }

    closed spec fn documents(&self) -> Seq<DocView<T>> {
        doc_views(self.docs@)
    }

    open spec fn ranks(&self) -> bool {
        true
    }

    /// There is no table.
    open spec fn names(&self) -> Naming<T> {
        |query: Seq<T>, matching: Seq<u32>| false
    }

    closed spec fn relation(&self) -> Relation<T> {
        relation_of(&self.hnsw.metric())
    }

    /// What the walk through the graph finds.
    closed spec fn answer(&self, query: Seq<T>, n: nat) -> Seq<DocView<T>> {
        graph_answer(doc_views(self.docs@), &self.hnsw, query, n)
    }

    fn load(&mut self, texts: Vec<String>, embeddings: Vec<Vec<T>>) -> (r: Result<(), LoadError>)
        ensures
            final(self).metric() == old(self).metric(),
            final(self).stored() == final(self).documents(),
            final(self).graph().points() == embeddings_of(final(self).stored()),
            graph_matches_store(final(self).stored(), &final(self).graph()),
    {
        graph_load(&mut self.docs, &mut self.hnsw, texts, embeddings)
    }

    fn query(&self, query: &[T], n: u32) -> (r: Result<Vec<Doc<T>>, QueryError>)
        ensures
            self.stored() == self.documents(),
            self.relation() == relation_of(&self.metric()),
            self.answer(query@, n as nat) == graph_answer(
                self.stored(),
                &self.graph(),
                query@,
                n as nat,
            ),
    {
        graph_query(&self.docs, &self.hnsw, query, n)
    }
}

} // verus!
