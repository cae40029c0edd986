//! Documents behind a table of hash buckets.
//!
//! The table is not part of this library. It hashes the stored embeddings into
//! buckets and names, for a query, the documents that share a bucket with it. The
//! store keeps the documents, files each of them into the table under its position,
//! and turns what the table names into an answer.

use vstd::prelude::*;
use crate::hnswlib::dist::Relation;
use crate::hnswlib::hnsw::copy_vec;
use crate::database::answer::{Naming, matched, names_stored, stored_only};
use crate::database::db::{Doc, DocView, LoadError, Operations, QueryError, doc_views};
use crate::database::store::{append_docs, fresh_docs, same_dimension};

verus! {

/// The number of random projections that make up one hash.
pub const N_PROJECTIONS: usize = 9;

/// The number of hash tables.
pub const N_HASH_TABLES: usize = 30;

/// A table of hash buckets over embeddings.
///
/// `names` says what `bucket_ids` may return. A table that leaves `names` as it is
/// promises nothing of what it names, and the store promises only what holds of any
/// names: it returns the stored documents among them.
pub trait Buckets<T> {
    /// Whether the table may name the documents at the positions `ids` for the query.
    open spec fn names(&self, query: Seq<T>, ids: Seq<u32>) -> bool {
        true
    }

    /// Files the embedding of the stored document at position `id`.
    fn store(&mut self, embedding: &[T], id: usize);

    /// The positions of the stored documents that share a bucket with the query.
    fn bucket_ids(&self, query: &[T]) -> (ids: Vec<u32>)
        ensures
            self.names(query@, ids@),
    ;
}

/// A backend that finds candidates by hashing. It measures no distance: the score of
/// every result is 0.
pub struct LshDB<T, B> {
    docs: Vec<Doc<T>>,
    table: B,
}

/// Whether a list of bucket matches is refused for a query for `n` documents, and
/// why: no document is asked for, or one of the matches that would be returned names
/// no stored document.
pub open spec fn match_refusal(count: nat, matching: Seq<u32>, n: u32) -> bool {
    n == 0 || exists|k: int| 0 <= k < matching.len() && k < n && #[trigger] matching[k] >= count
}

/// The matches that name one of `count` stored documents, in their order.
pub fn keep_stored(matching: &Vec<u32>, count: usize) -> (kept: Vec<u32>)
    ensures
        kept@ == stored_only(matching@, count as nat, matching@.len()),
        names_stored(kept@, count as nat),
{
    let mut kept: Vec<u32> = Vec::new();
    let mut k: usize = 0;
    while k < matching.len()
        invariant
            k <= matching@.len(),
            kept@ == stored_only(matching@, count as nat, k as nat),
            names_stored(kept@, count as nat),
        decreases matching@.len() - k,
    {
        if (matching[k] as usize) < count {
            kept.push(matching[k]);
        }
        k += 1;
    }
    kept
}

impl<T: Copy, B: Buckets<T>> LshDB<T, B> {
    /// The stored documents, in the order in which they were loaded.
    pub closed spec fn stored(&self) -> Seq<DocView<T>> {
        doc_views(self.docs@)
    }

    /// An empty store that files its documents into `table`.
    pub fn new(table: B) -> (db: Self)
        ensures
            db.wf(),
            db.stored() == Seq::<DocView<T>>::empty(),
            db.documents() == Seq::<DocView<T>>::empty(),
            !db.ranks(),
    {
        let db = LshDB { docs: Vec::new(), table };
        assert(doc_views(db.docs@) =~= Seq::<DocView<T>>::empty());
        db
    }

    /// The stored documents.
    pub fn docs(&self) -> (docs: &Vec<Doc<T>>)
        ensures
            doc_views(docs@) == self.stored(),
    {
        &self.docs
    }

    /// The table of buckets.
    pub closed spec fn buckets(&self) -> B {
        self.table
    }

    /// The table of buckets.
    pub fn table(&self) -> (table: &B)
        ensures
            *table == self.buckets(),
    {
        &self.table
    }

    /// The documents that the first `n` of the matches name, in the order of the
    /// matches; all of them where there are fewer than `n` matches, and none where there
    /// is no match. A query for no document is refused, and so is a match among those
    /// to return that names no stored document.
    pub fn query_matches(&self, matching: &Vec<u32>, n: u32) -> (r: Result<Vec<Doc<T>>, QueryError>)
        ensures
            match_refusal(self.stored().len(), matching@, n) ==> r is Err && r->Err_0
                == QueryError::InvalidParameter,
            !match_refusal(self.stored().len(), matching@, n) ==> r is Ok && doc_views(r->Ok_0@)
                == matched(self.stored(), matching@, n),
    {
        if n == 0 {
            return Err(QueryError::InvalidParameter);
        }
        let count = if n as usize <= matching.len() {
            n as usize
        } else {
            matching.len()
        };
        let mut output: Vec<Doc<T>> = Vec::new();
        let mut k: usize = 0;
        while k < count
            invariant
                k <= count,
                count <= matching@.len(),
                count <= n,
                output@.len() == k,
                forall|c: int| 0 <= c < k ==> (#[trigger] matching@[c]) < self.docs@.len(),
                forall|c: int|
                    0 <= c < k ==> (#[trigger] output@[c])@ == (DocView {
                        text: self.docs@[matching@[c] as int].text@,
                        embedding: self.docs@[matching@[c] as int].embedding@,
                        score: 0,
                    }),
            decreases count - k,
        {
            let at = matching[k] as usize;
            if at >= self.docs.len() {
                return Err(QueryError::InvalidParameter);
            }
            let doc = &self.docs[at];
            output.push(Doc { text: doc.text.clone(), embedding: copy_vec(&doc.embedding), score: 0 });
            k += 1;
        }
        assert(doc_views(output@) =~= matched(self.stored(), matching@, n));
        Ok(output)
    }
}

impl<T: Copy, B: Buckets<T>> Operations<T> for LshDB<T, B> {
    /// All stored embeddings have one length.
    closed spec fn wf(&self) -> bool {
        same_dimension(doc_views(self.docs@))
    }

    closed spec fn documents(&self) -> Seq<DocView<T>> {
        doc_views(self.docs@)
    }

    /// The answers come in the table's order.
    open spec fn ranks(&self) -> bool {
        false
    }

    /// What the table may name.
    closed spec fn names(&self) -> Naming<T> {
        |query: Seq<T>, matching: Seq<u32>| self.table.names(query, matching)
    }

    /// The score of every result is 0.
    open spec fn relation(&self) -> Relation<T> {
        |va: Seq<T>, vb: Seq<T>, key: u64| key == 0
    }

    /// No answer is named beforehand: it is the table that leads.
    open spec fn answer(&self, query: Seq<T>, n: nat) -> Seq<DocView<T>> {
        Seq::empty()
    }

    /// Appends the batch and files each of its embeddings into the table, under the
    /// position that its document takes in the store; or refuses the batch, and leaves
    /// the documents and the table as they were.
    fn load(&mut self, texts: Vec<String>, embeddings: Vec<Vec<T>>) -> (r: Result<(), LoadError>)
        ensures
            final(self).stored() == final(self).documents(),
    {
        let first = self.docs.len();
        let r = append_docs(&mut self.docs, texts, embeddings);
        if r.is_err() {
            return r;
        }
        let mut id: usize = first;
        while id < self.docs.len()
            invariant
                doc_views(self.docs@) == old(self).documents() + fresh_docs(
                    texts@,
                    embeddings@,
                ),
                same_dimension(doc_views(self.docs@)),
            decreases self.docs@.len() - id,
        {
            self.table.store(self.docs[id].embedding.as_slice(), id);
            id += 1;
        }
        r
    }

    /// The stored documents among the first matches that the table names for the
    /// query, `n` at most, in the table's order. Matches that name no stored document
    /// are passed over. The table is not asked where the query is refused or nothing
    /// is stored.
    fn query(&self, query: &[T], n: u32) -> (r: Result<Vec<Doc<T>>, QueryError>)
        ensures
            self.stored() == self.documents(),
            self.names() == (|query: Seq<T>, matching: Seq<u32>| self.buckets().names(query, matching)),
    {
        if n == 0 {
            return Err(QueryError::InvalidParameter);
        }
        if self.docs.len() == 0 {
            return Ok(Vec::new());
        }
        if self.docs[0].embedding.len() != query.len() {
            return Err(QueryError::DimensionMismatch);
        }
        let named = self.table.bucket_ids(query);
        let matching = keep_stored(&named, self.docs.len());
        let found = self.query_matches(&matching, n);
        assert(!match_refusal(self.stored().len(), matching@, n));
        assert((self.names())(query@, named@));
        found
    }
}

} // verus!
