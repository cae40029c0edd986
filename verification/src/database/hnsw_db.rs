//! Approximate search over a layered proximity graph, under Euclidean distance.

use vstd::prelude::*;
use crate::hnswlib::dist::{Distance, Relation, is_functional, relation_of};
use crate::hnswlib::hnsw::{Hnsw, copy_vec, heads, hit_before, hit_ids};
use crate::database::answer::{Naming, is_answer, is_nearest, is_selection, query_refusal, scored_docs};
use crate::database::db::{Doc, DocView, LoadError, Operations, QueryError, doc_views};
use crate::database::store::{append_docs, load_outcome, same_dimension};

verus! {

/// The most neighbours of a point on a layer of a backend's graph.
pub const MAX_NB_CONNECTION: usize = 15;

/// The width of the candidate list while a backend builds its graph.
pub const EF_CONSTRUCTION: usize = 200;

/// The width of the candidate list while a backend searches its graph.
pub const EF_SEARCH: usize = 30;

/// `e` raised to the powers 1 to 16, each rounded up: `limits[k] <= n` says that
/// `k + 1 <= ln(n)`.
pub open spec fn exp_limits() -> Seq<nat> {
    seq![
        3, 8, 21, 55, 149, 404, 1097, 2981, 8104, 22027, 59875, 162755, 442414, 1202605,
        3269018, 8886111,
    ]
}

/// How many of the first `k` limits are at most `n`.
pub open spec fn limits_reached(n: nat, k: nat) -> nat
    decreases k,
{
    if k == 0 {
        0
    } else {
        limits_reached(n, (k - 1) as nat) + (if exp_limits()[k - 1] <= n {
            1nat
        } else {
            0nat
        })
    }
}

/// The highest layer of a graph over `n` points: `floor(ln(n))`, 16 at most, and 0
/// for an empty graph.
pub open spec fn top_layer_for(n: nat) -> nat {
    limits_reached(n, 16)
}

/// The highest layer of a graph over `nb_elem` points.
pub fn max_layer_for(nb_elem: usize) -> (layer: usize)
    ensures
        layer == top_layer_for(nb_elem as nat),
        layer <= 16,
{
    let limits: [u32; 16] = [
        3, 8, 21, 55, 149, 404, 1097, 2981, 8104, 22027, 59875, 162755, 442414, 1202605,
        3269018, 8886111,
    ];
    let mut layer: usize = 0;
    let mut k: usize = 0;
    while k < 16
        invariant
            k <= 16,
            layer <= k,
            layer == limits_reached(nb_elem as nat, k as nat),
            forall|c: int| 0 <= c < 16 ==> limits@[c] == exp_limits()[c],
        decreases 16 - k,
    {
        if limits[k] as u64 <= nb_elem as u64 {
            layer += 1;
        }
        k += 1;
    }
    layer
}

/// One round of mixing: the high bits are folded onto the low ones, and the product
/// with an odd factor spreads them upwards again.
pub open spec fn folded(z: u64, shift: u64, factor: u64) -> u64 {
    (z ^ (z >> shift)).wrapping_mul(factor)
}

/// The word that decides the level of point `id`: the bits of `id` mixed until each
/// bit of the word depends on all of them. The backends draw no random numbers, so
/// that one list of documents always gives one graph.
pub open spec fn level_word(id: usize) -> u64 {
    let z = (id as u64).wrapping_add(0x9E37_79B9_7F4A_7C15);
    let z = folded(z, 30, 0xBF58_476D_1CE4_E5B9);
    let z = folded(z, 27, 0x94D0_49BB_1331_11EB);
    z ^ (z >> 31)
}

/// The word that decides the level of point `id`.
pub fn level_draw(id: usize) -> (draw: u64)
    ensures
        draw == level_word(id),
{
    let mut z: u64 = (id as u64).wrapping_add(0x9E37_79B9_7F4A_7C15);
    z = (z ^ (z >> 30)).wrapping_mul(0xBF58_476D_1CE4_E5B9);
    z = (z ^ (z >> 27)).wrapping_mul(0x94D0_49BB_1331_11EB);
    z ^ (z >> 31)
}

/// The levels of the points of a backend's graph over `n` documents.
pub open spec fn graph_levels(n: nat) -> Seq<usize> {
    Seq::new(n, |id: int| heads(level_word(id as usize) as nat, top_layer_for(n)) as usize)
}

/// The embeddings of a list of documents.
pub open spec fn embeddings_of<T>(docs: Seq<DocView<T>>) -> Seq<Seq<T>> {
    Seq::new(docs.len(), |i: int| docs[i].embedding)
}

/// The documents and the graph of a backend belong together: the points of the graph
/// are the embeddings of the documents, in their order.
pub open spec fn graph_matches<T: Copy, D: Distance<T>>(docs: Seq<Doc<T>>, hnsw: &Hnsw<T, D>) -> bool {
    &&& same_dimension(doc_views(docs))
    &&& hnsw.wf()
    &&& hnsw.max_connections() == MAX_NB_CONNECTION
    &&& hnsw.construction_width() == EF_CONSTRUCTION
    &&& hnsw.points() == embeddings_of(doc_views(docs))
    &&& docs.len() > 0 ==> hnsw.top_layer() == top_layer_for(docs.len()) && hnsw.levels()
        == graph_levels(docs.len())
}

/// The graph of a backend over these stored documents: it is well formed, it has the
/// backends' parameters, its points are the stored embeddings in their order, and
/// where documents are stored its top layer is `floor(ln(N))`, 16 at most, and the
/// levels of its points are those of [`graph_levels`].
pub open spec fn graph_matches_store<T: Copy, D: Distance<T>>(stored: Seq<DocView<T>>, hnsw: &Hnsw<
    T,
    D,
>) -> bool {
    &&& same_dimension(stored)
    &&& hnsw.wf()
    &&& hnsw.max_connections() == MAX_NB_CONNECTION
    &&& hnsw.construction_width() == EF_CONSTRUCTION
    &&& hnsw.points() == embeddings_of(stored)
    &&& stored.len() > 0 ==> hnsw.top_layer() == top_layer_for(stored.len()) && hnsw.levels()
        == graph_levels(stored.len())
}

/// Appends the batch to `docs` and builds the graph anew over all documents, or
/// refuses the batch and leaves both unchanged.
pub fn graph_load<T: Copy, D: Distance<T>>(
    docs: &mut Vec<Doc<T>>,
    hnsw: &mut Hnsw<T, D>,
    texts: Vec<String>,
    embeddings: Vec<Vec<T>>,
) -> (r: Result<(), LoadError>)
    requires
        graph_matches(old(docs)@, old(hnsw)),
    ensures
        graph_matches(final(docs)@, final(hnsw)),
        final(hnsw).metric() == old(hnsw).metric(),
        load_outcome(doc_views(old(docs)@), texts@, embeddings@, r, doc_views(final(docs)@)),
        r is Err ==> *final(docs) == *old(docs) && *final(hnsw) == *old(hnsw),
{
    let r = append_docs(docs, texts, embeddings);
    if r.is_err() {
        return r;
    }
    let nb_elem = docs.len();
    let nb_layer = max_layer_for(nb_elem);
    hnsw.reset(nb_elem, nb_layer);
    let ghost stored = doc_views(docs@);
    if nb_elem == 0 {
        assert(hnsw.points() =~= embeddings_of(stored));
        return r;
    }
    let mut i: usize = 0;
    while i < nb_elem
        invariant
            i <= nb_elem,
            nb_elem == docs@.len(),
            stored == doc_views(docs@),
            same_dimension(stored),
            hnsw.wf(),
            hnsw.max_connections() == MAX_NB_CONNECTION,
            hnsw.construction_width() == EF_CONSTRUCTION,
            hnsw.metric() == old(hnsw).metric(),
            hnsw.points() == embeddings_of(stored).subrange(0, i as int),
            hnsw.top_layer() == top_layer_for(nb_elem as nat),
            hnsw.levels() == graph_levels(nb_elem as nat).subrange(0, i as int),
        decreases nb_elem - i,
    {
        let point = copy_vec(&docs[i].embedding);
        assert(hnsw.fits(point@.len())) by {
            if i > 0 {
                assert(stored[0].embedding.len() == stored[i as int].embedding.len());
            }
        }
        let added = hnsw.insert(point, level_draw(i));
        i += 1;
    }
    assert(embeddings_of(stored).subrange(0, nb_elem as int) =~= embeddings_of(stored));
    assert(graph_levels(nb_elem as nat).subrange(0, nb_elem as int) =~= graph_levels(
        nb_elem as nat,
    ));
    r
}

/// What a walk through the graph answers to a query for `n` documents, where the
/// metric is a function: the documents of the points that the search finds (see
/// `Hnsw::search_result`), each with its distance to the query as score.
pub open spec fn graph_answer<T: Copy, D: Distance<T>>(
    docs: Seq<DocView<T>>,
    hnsw: &Hnsw<T, D>,
    query: Seq<T>,
    n: nat,
) -> Seq<DocView<T>> {
    let hits = hnsw.search_result(query, n, EF_SEARCH as nat);
    Seq::new(
        hits.len(),
        |k: int|
            DocView {
                text: docs[hits[k].d_id as int].text,
                embedding: docs[hits[k].d_id as int].embedding,
                score: hits[k].distance,
            },
    )
}

/// The `n` documents nearest to the query that a walk through the graph finds,
/// nearest first; all documents where `n` is no less than their number.
pub fn graph_query<T: Copy, D: Distance<T>>(
    docs: &Vec<Doc<T>>,
    hnsw: &Hnsw<T, D>,
    query: &[T],
    n: u32,
) -> (r: Result<Vec<Doc<T>>, QueryError>)
    requires
        graph_matches(docs@, hnsw),
    ensures
        match query_refusal(doc_views(docs@), query@, n) {
            Some(e) => r == Err::<Vec<Doc<T>>, QueryError>(e),
            None => r is Ok && is_answer(
                relation_of(&hnsw.metric()),
                doc_views(docs@),
                query@,
                n as nat,
                doc_views(r->Ok_0@),
            ) && (is_functional(relation_of(&hnsw.metric())) ==> doc_views(r->Ok_0@)
                == graph_answer(doc_views(docs@), hnsw, query@, n as nat)),
        },
{
    let ghost stored = doc_views(docs@);
    let ghost relation = relation_of(&hnsw.metric());
    if n == 0 {
        return Err(QueryError::InvalidParameter);
    }
    if docs.len() > 0 && docs[0].embedding.len() != query.len() {
        return Err(QueryError::DimensionMismatch);
    }
    let neighbours = hnsw.search(query, n as usize, EF_SEARCH).unwrap();
    let ghost hits = neighbours@;
    let ghost ids = hit_ids(hits);
    let mut res: Vec<Doc<T>> = Vec::new();
    let mut k: usize = 0;
    while k < neighbours.len()
        invariant
            k <= neighbours@.len(),
            hits == neighbours@,
            stored == doc_views(docs@),
            forall|c: int| 0 <= c < hits.len() ==> (#[trigger] hits[c]).d_id < stored.len(),
            res@.len() == k,
            forall|c: int|
                0 <= c < k ==> (#[trigger] res@[c])@ == (DocView {
                    text: stored[hits[c].d_id as int].text,
                    embedding: stored[hits[c].d_id as int].embedding,
                    score: hits[c].distance,
                }),
        decreases neighbours@.len() - k,
    {
        let neighbour = neighbours[k];
        let doc = &docs[neighbour.d_id];
        res.push(
            Doc {
                text: doc.text.clone(),
                embedding: copy_vec(&doc.embedding),
                score: neighbour.distance,
            },
        );
        k += 1;
    }
    proof {
        let found = doc_views(res@);
        assert(is_selection(relation, stored, query@, ids, found)) by {
            assert forall|a: int, b: int| 0 <= a < b < ids.len() implies (#[trigger] found[a]).score
                < (#[trigger] found[b]).score || (found[a].score == found[b].score && ids[a]
                < ids[b]) by {
                assert(hit_before(hits[a], hits[b]));
            }
        }
        if n >= stored.len() {
            // every document was scored: the answer is the exact one
            let keys = choose|keys: Seq<u64>|
                {
                    &&& hnsw.are_keys(query@, keys)
                    &&& #[trigger] crate::hnswlib::ranking::is_ranking(keys, hit_ids(hits))
                    &&& forall|k: int|
                        0 <= k < hits.len() ==> (#[trigger] hits[k]).distance
                            == keys[hits[k].d_id as int]
                };
            assert(found =~= scored_docs(stored, keys, ids));
            assert(is_nearest(stored, keys, n as nat, ids, found));
        }
    }
    Ok(res)
}

/// A document store that answers a query by a walk through a layered proximity
/// graph over the stored embeddings. It is meant to be built with a Euclidean metric.
/// Every `load` builds the graph anew over all stored documents.
pub struct HnswDB<T, D> {
    docs: Vec<Doc<T>>,
    hnsw: Hnsw<T, D>,
}

impl<T: Copy, D: Distance<T>> HnswDB<T, D> {
    /// The stored documents, in the order in which they were loaded.
    pub closed spec fn stored(&self) -> Seq<DocView<T>> {
        doc_views(self.docs@)
    }

    /// The metric that the graph is built and searched with.
    pub closed spec fn metric(&self) -> D {
        self.hnsw.metric()
    }

    /// The graph over the stored embeddings.
    pub closed spec fn graph(&self) -> Hnsw<T, D> {
        self.hnsw
    }

    /// An empty store whose graph will be built with `metric`.
    pub fn new(metric: D) -> (db: Self)
        ensures
            db.wf(),
            db.stored() == Seq::<DocView<T>>::empty(),
            db.documents() == Seq::<DocView<T>>::empty(),
            db.metric() == metric,
    {
        let hnsw = Hnsw::new(MAX_NB_CONNECTION, 1, 0, EF_CONSTRUCTION, metric).unwrap();
        let db = HnswDB { docs: Vec::new(), hnsw };
        assert(db.hnsw.points() =~= embeddings_of(doc_views(db.docs@)));
        db
    }

    /// What holds of the graph of every such store: it is well formed (see
    /// `Hnsw::lemma_invariants` for what that gives), it keeps `MAX_NB_CONNECTION`
    /// neighbours a layer and was built with candidate lists of width
    /// `EF_CONSTRUCTION`, its points are the stored embeddings, and over a store that is
    /// not empty its top layer and the levels of its points are those that the number
    /// of stored documents gives.
    pub proof fn lemma_graph(&self)
        requires
            self.wf(),
        ensures
            graph_matches_store(self.stored(), &self.graph()),
    {
    }

    /// The stored documents.
    pub fn docs(&self) -> (docs: &Vec<Doc<T>>)
        ensures
            doc_views(docs@) == self.stored(),
    {
        &self.docs
    }

    /// The graph over the stored embeddings.
    pub fn hnsw(&self) -> (hnsw: &Hnsw<T, D>)
        ensures
            *hnsw == self.graph(),
    {
        &self.hnsw
    }
}

impl<T: Copy, D: Distance<T>> Operations<T> for HnswDB<T, D> {
    /// The graph is well formed, and its points are the stored embeddings.
    closed spec fn wf(&self) -> bool {
        graph_matches(self.docs@, &self.hnsw)
    }

    closed spec fn documents(&self) -> Seq<DocView<T>> {
        doc_views(self.docs@)
    }

    open spec fn ranks(&self) -> bool {
        true
    }

    /// There is no table.
    open spec fn names(&self) -> Naming<T> {
        |query: Seq<T>, matching: Seq<u32>| false
    }

    closed spec fn relation(&self) -> Relation<T> {
        relation_of(&self.hnsw.metric())
    }

    /// What the walk through the graph finds.
    closed spec fn answer(&self, query: Seq<T>, n: nat) -> Seq<DocView<T>> {
        graph_answer(doc_views(self.docs@), &self.hnsw, query, n)
    }

    fn load(&mut self, texts: Vec<String>, embeddings: Vec<Vec<T>>) -> (r: Result<(), LoadError>)
        ensures
            final(self).metric() == old(self).metric(),
            final(self).stored() == final(self).documents(),
            final(self).graph().points() == embeddings_of(final(self).stored()),
            graph_matches_store(final(self).stored(), &final(self).graph()),
    {
        graph_load(&mut self.docs, &mut self.hnsw, texts, embeddings)
    }

    fn query(&self, query: &[T], n: u32) -> (r: Result<Vec<Doc<T>>, QueryError>)
        ensures
            self.stored() == self.documents(),
            self.relation() == relation_of(&self.metric()),
            self.answer(query@, n as nat) == graph_answer(
                self.stored(),
                &self.graph(),
                query@,
                n as nat,
            ),
    {
        graph_query(&self.docs, &self.hnsw, query, n)
    }
}

} // verus!
