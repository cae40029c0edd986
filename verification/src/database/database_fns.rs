//! A plain document store that answers with every document within a distance of the
//! query.

use vstd::prelude::*;
use crate::hnswlib::dist::{Distance, Relation, relation_of};
use crate::hnswlib::hnsw::{copy_vec, same_length};
use crate::database::db::{LoadError, QueryError};

verus! {

/// A stored text with its embedding.
pub struct Doc<T> {
    text: String,
    embedding: Vec<T>,
}

impl<T> Doc<T> {
    /// The characters of the document's text.
    pub closed spec fn text(&self) -> Seq<char> {
        self.text@
    }

    /// The values of the document's embedding.
    pub closed spec fn embedding(&self) -> Seq<T> {
        self.embedding@
    }

    /// The text of the document.
    pub fn get_text(&self) -> (text: String)
        ensures
            text@ == self.text(),
    {
        self.text.clone()
    }
}

/// The positions among the first `n` whose key is below `threshold`, in ascending
/// order.
pub open spec fn within(keys: Seq<u64>, threshold: u64, n: nat) -> Seq<int>
    decreases n,
{
    if n == 0 {
        Seq::empty()
    } else if keys[n - 1] < threshold {
        within(keys, threshold, (n - 1) as nat).push(n - 1)
    } else {
        within(keys, threshold, (n - 1) as nat)
    }
}

/// A store of documents that all have embeddings of one length.
pub struct DB<T, D> {
    docs: Vec<Doc<T>>,
    metric: D,
}

impl<T: Copy, D: Distance<T>> DB<T, D> {
    /// All stored embeddings have one length.
    pub closed spec fn wf(&self) -> bool {
        forall|i: int, j: int|
            0 <= i < self.docs@.len() && 0 <= j < self.docs@.len() ==> (
            #[trigger] self.docs@[i]).embedding@.len() == (#[trigger] self.docs@[j]).embedding@.len()
    }

    /// The texts of the stored documents, in the order in which they were loaded.
    pub closed spec fn texts(&self) -> Seq<Seq<char>> {
        Seq::new(self.docs@.len(), |i: int| self.docs@[i].text@)
    }

    /// The embeddings of the stored documents, in the order in which they were loaded.
    pub closed spec fn embeddings(&self) -> Seq<Seq<T>> {
        Seq::new(self.docs@.len(), |i: int| self.docs@[i].embedding@)
    }

    /// What the store's metric may report.
    pub closed spec fn relation(&self) -> Relation<T> {
        relation_of(&self.metric)
    }

    /// `keys` holds, for each stored document, a key that the metric reports for the
    /// document and the query.
    pub open spec fn are_keys(&self, query: Seq<T>, keys: Seq<u64>) -> bool {
        &&& keys.len() == self.embeddings().len()
        &&& forall|i: int|
            0 <= i < keys.len() ==> (self.relation())(self.embeddings()[i], query, #[trigger] keys[i])
    }

    /// `found` holds the documents at the positions `at`.
    pub open spec fn holds(&self, at: Seq<int>, found: Seq<Doc<T>>) -> bool {
        &&& found.len() == at.len()
        &&& forall|k: int|
            0 <= k < at.len() ==> (#[trigger] found[k]).text() == self.texts()[at[k]] && found[k].embedding()
                == self.embeddings()[at[k]]
    }

    /// A store of the texts with their embeddings, scored with `metric`. It is refused
    /// with `InvalidParameter` where the texts and the embeddings differ in number, and
    /// with `DimensionMismatch` where they agree in number and the embeddings differ in
    /// length.
    pub fn load(texts: Vec<String>, embeddings: Vec<Vec<T>>, metric: D) -> (r: Result<Self, LoadError>)
        ensures
            texts@.len() != embeddings@.len() ==> r is Err && r->Err_0 == LoadError::InvalidParameter,
            texts@.len() == embeddings@.len() && !same_length(embeddings@)
                ==> r is Err && r->Err_0 == LoadError::DimensionMismatch,
            texts@.len() == embeddings@.len() && same_length(embeddings@)
                ==> r is Ok && {
                let db = r->Ok_0;
                &&& db.wf()
                &&& db.texts() == Seq::new(texts@.len(), |i: int| texts@[i]@)
                &&& db.embeddings() == Seq::new(embeddings@.len(), |i: int| embeddings@[i]@)
                &&& db.relation() == relation_of(&metric)
            },
    {
        if texts.len() != embeddings.len() {
            return Err(LoadError::InvalidParameter);
        }
        let count = texts.len();
        let mut docs: Vec<Doc<T>> = Vec::new();
        let mut i: usize = 0;
        while i < count
            invariant
                i <= count,
                count == texts@.len(),
                count == embeddings@.len(),
                docs@.len() == i,
                forall|c: int| 0 <= c < i ==> (#[trigger] embeddings@[c])@.len() == embeddings@[0]@.len(),
                forall|c: int|
                    0 <= c < i ==> (#[trigger] docs@[c]).text@ == texts@[c]@ && docs@[c].embedding@
                        == embeddings@[c]@,
            decreases count - i,
        {
            if embeddings[i].len() != embeddings[0].len() {
                return Err(LoadError::DimensionMismatch);
            }
            docs.push(Doc { text: texts[i].clone(), embedding: copy_vec(&embeddings[i]) });
            i += 1;
        }
        let db = DB { docs, metric };
        Ok(db)
    }

    /// Every stored document whose distance to the query is below `threshold`, in the
    /// order in which the documents were loaded. A query of another length than the
    /// stored embeddings is refused.
    pub fn query(self, query: &[T], threshold: u64) -> (r: Result<Vec<Doc<T>>, QueryError>)
        requires
            self.wf(),
        ensures
            self.embeddings().len() > 0 && self.embeddings()[0].len() != query@.len() ==> r is Err
                && r->Err_0 == QueryError::DimensionMismatch,
            self.embeddings().len() == 0 || self.embeddings()[0].len() == query@.len() ==> r is Ok
                && exists|keys: Seq<u64>| #[trigger]
                self.are_keys(query@, keys) && self.holds(
                    within(keys, threshold, keys.len()),
                    r->Ok_0@,
                ),
    {
        let count = self.docs.len();
        if count > 0 && self.docs[0].embedding.len() != query.len() {
            return Err(QueryError::DimensionMismatch);
        }
        let mut result: Vec<Doc<T>> = Vec::new();
        let ghost mut keys: Seq<u64> = Seq::empty();
        let mut i: usize = 0;
        while i < count
            invariant
                self.wf(),
                i <= count,
                count == self.docs@.len(),
                count > 0 ==> self.docs@[0].embedding@.len() == query@.len(),
                keys.len() == i,
                forall|c: int|
                    0 <= c < i ==> self.metric.reports(
                        self.docs@[c].embedding@,
                        query@,
                        #[trigger] keys[c],
                    ),
                self.holds(within(keys, threshold, i as nat), result@),
                forall|k: int|
                    0 <= k < within(keys, threshold, i as nat).len() ==> 0 <= (#[trigger] within(
                        keys,
                        threshold,
                        i as nat,
                    )[k]) < i,
            decreases count - i,
        {
            let doc = &self.docs[i];
            let key = self.metric.eval(doc.embedding.as_slice(), query);
            let ghost sofar = keys;
            proof {
                keys = keys.push(key);
                lemma_within_prefix(sofar, keys, threshold, i as nat);
            }
            if key < threshold {
                result.push(Doc { text: doc.text.clone(), embedding: copy_vec(&doc.embedding) });
            }
            i += 1;
        }
        assert(self.are_keys(query@, keys));
        Ok(result)
    }
}

/// Keys that agree on the first `n` positions have the same positions within a
/// threshold among them.
proof fn lemma_within_prefix(a: Seq<u64>, b: Seq<u64>, threshold: u64, n: nat)
    requires
        n <= a.len(),
        n <= b.len(),
        forall|i: int| 0 <= i < n ==> a[i] == b[i],
    ensures
        within(a, threshold, n) == within(b, threshold, n),
    decreases n,
{
    if n > 0 {
        lemma_within_prefix(a, b, threshold, (n - 1) as nat);
    }
}

/// A fresh random identifier (see [`crate::database::db::database_module_uuid`]).
pub fn database_module_uuid() -> (id: String)
    ensures
        crate::database::db::is_random_id(id@),
{
    crate::database::db::database_module_uuid()
}

} // verus!
