//! Documents, errors, the operations that every backend offers, and the choice of a
//! backend by name.

use vstd::prelude::*;
use vstd::string::StringExecFns;
use crate::hnswlib::dist::{Distance, Relation, is_functional};
use crate::database::answer::{Naming, are_scores, is_exact_answer, is_nearest, query_outcome};
use crate::database::cosine_db::CosineDB;
use crate::database::euclidean_db::EuclideanDB;
use crate::database::hnsw_cosine_db::HnswCosineDB;
use crate::database::hnsw_db::HnswDB;
use crate::database::lsh_db::{Buckets, LshDB};
use crate::database::store::load_outcome;

verus! {

/// A stored text with its embedding. `score` is set on query results only, to the
/// distance between the document and the query: smaller is closer. On a stored
/// document it means nothing.
#[derive(Debug)]
pub struct Doc<T> {
    pub text: String,
    pub embedding: Vec<T>,
    pub score: u64,
}

/// What a document holds.
pub ghost struct DocView<T> {
    pub text: Seq<char>,
    pub embedding: Seq<T>,
    pub score: u64,
}

impl<T> View for Doc<T> {
    type V = DocView<T>;

    open spec fn view(&self) -> DocView<T> {
        DocView { text: self.text@, embedding: self.embedding@, score: self.score }
    }
}

/// What each document of a list holds.
pub open spec fn doc_views<T>(docs: Seq<Doc<T>>) -> Seq<DocView<T>> {
    Seq::new(docs.len(), |i: int| docs[i]@)
}

/// Why a `load` was refused. A refused `load` changes nothing.
#[derive(Clone, Copy, Debug, PartialEq, Eq, Structural)]
pub enum LoadError {
    /// The texts and the embeddings differ in number.
    InvalidParameter,
    /// An embedding differs in length from the others of the index.
    DimensionMismatch,
}

/// Why a `query` was refused.
#[derive(Clone, Copy, Debug, PartialEq, Eq, Structural)]
pub enum QueryError {
    /// No result was asked for.
    InvalidParameter,
    /// The query differs in length from the embeddings of the index.
    DimensionMismatch,
}

/// What every backend offers: `load` stores a batch of texts with their embeddings,
/// `query` returns the stored documents nearest to a query embedding.
pub trait Operations<T>: Sized {
    /// The backend's invariant: what its constructor establishes and `load` keeps.
    spec fn wf(&self) -> bool;

    /// The stored documents, in the order in which they were loaded.
    spec fn documents(&self) -> Seq<DocView<T>>;

    /// Whether the backend ranks its answers by distance. A backend that does not is
    /// led by a table of buckets, and its answers come in the table's order.
    spec fn ranks(&self) -> bool;

    /// What the backend's table of buckets may name for a query; nothing, where the
    /// backend ranks by distance.
    spec fn names(&self) -> Naming<T>;

    /// What the backend's metric may report for a stored embedding and a query.
    spec fn relation(&self) -> Relation<T>;

    /// What `query` returns for a query that it accepts, where the backend's metric is
    /// a function.
    spec fn answer(&self, query: Seq<T>, n: nat) -> Seq<DocView<T>>;

    /// Appends the batch when there is one embedding for each text and the index
    /// keeps one dimension; else reports why not and changes nothing.
    fn load(&mut self, texts: Vec<String>, embeddings: Vec<Vec<T>>) -> (r: Result<(), LoadError>)
        requires
            old(self).wf(),
        ensures
            final(self).wf(),
            load_outcome(
                old(self).documents(),
                texts@,
                embeddings@,
                r,
                final(self).documents(),
            ),
            r is Err ==> *final(self) == *old(self),
            final(self).relation() == old(self).relation(),
            final(self).ranks() == old(self).ranks(),
    ;

    /// Returns at most `n` stored documents. A backend that ranks by distance returns
    /// them nearest first, each with its distance to the query as score, and all of them
    /// where `n` exceeds the number of stored documents. A backend that is led by a table
    /// of buckets returns the documents that its table names, in the table's order, each
    /// with the score 0. Before any `load` the answer is empty.
    fn query(&self, query: &[T], n: u32) -> (r: Result<Vec<Doc<T>>, QueryError>)
        requires
            self.wf(),
        ensures
            query_outcome(
                self.ranks(),
                self.names(),
                self.relation(),
                self.documents(),
                self.answer(query@, n as nat),
                query@,
                n,
                r,
            ),
    ;
}

/// Two answers of one backend to one query are the same, where its metric is a
/// function: both are refused for the same reason, or both hold the same documents
/// with the same scores in the same order.
pub proof fn lemma_query_repeatable<T, B: Operations<T>>(
    backend: &B,
    query: Seq<T>,
    n: u32,
    first: Result<Vec<Doc<T>>, QueryError>,
    second: Result<Vec<Doc<T>>, QueryError>,
)
    requires
        backend.ranks(),
        is_functional(backend.relation()),
        query_outcome(
            backend.ranks(),
            backend.names(),
            backend.relation(),
            backend.documents(),
            backend.answer(query, n as nat),
            query,
            n,
            first,
        ),
        query_outcome(
            backend.ranks(),
            backend.names(),
            backend.relation(),
            backend.documents(),
            backend.answer(query, n as nat),
            query,
            n,
            second,
        ),
    ensures
        first is Err ==> second == first,
        first is Ok ==> second is Ok && doc_views(second->Ok_0@) == doc_views(first->Ok_0@),
{
}

/// A query for more documents than are stored is answered with all of them, nearest
/// first: the answer is the exact one and as long as the store.
pub proof fn lemma_query_beyond_the_store<T, B: Operations<T>>(
    backend: &B,
    query: Seq<T>,
    n: u32,
    r: Result<Vec<Doc<T>>, QueryError>,
)
    requires
        backend.ranks(),
        n > backend.documents().len(),
        backend.documents().len() > 0 ==> backend.documents()[0].embedding.len() == query.len(),
        query_outcome(
            backend.ranks(),
            backend.names(),
            backend.relation(),
            backend.documents(),
            backend.answer(query, n as nat),
            query,
            n,
            r,
        ),
    ensures
        r is Ok,
        r->Ok_0@.len() == backend.documents().len(),
        is_exact_answer(
            backend.relation(),
            backend.documents(),
            query,
            n as nat,
            doc_views(r->Ok_0@),
        ),
{
    let found = doc_views(r->Ok_0@);
    let (keys, order) = choose|keys: Seq<u64>, order: Seq<usize>|
        are_scores(backend.relation(), backend.documents(), query, keys) && #[trigger] is_nearest(
            backend.documents(),
            keys,
            n as nat,
            order,
            found,
        );
}

/// Whether a character is a hexadecimal digit in lower case.
pub open spec fn is_lower_hex(c: char) -> bool {
    ('0' <= c && c <= '9') || ('a' <= c && c <= 'f')
}

/// The form of a random identifier: 32 hexadecimal digits in lower case in groups of
/// 8, 4, 4, 4 and 12, with a hyphen between groups; the first digit of the third group
/// is the version, `4`, and the first digit of the fourth group the variant, one of
/// `8`, `9`, `a` and `b`.
pub open spec fn is_random_id(id: Seq<char>) -> bool {
    &&& id.len() == 36
    &&& forall|i: int|
        0 <= i < 36 ==> if i == 8 || i == 13 || i == 18 || i == 23 {
            #[trigger] id[i] == '-'
        } else {
            is_lower_hex(id[i])
        }
    &&& id[14] == '4'
    &&& id[19] == '8' || id[19] == '9' || id[19] == 'a' || id[19] == 'b'
}

/// A fresh random identifier in its usual text form.
///
/// Calls `uuid::Uuid::new_v4` and formats the result with `to_string`. Believed, not
/// proved: the text has the form that [`is_random_id`] states. Nothing is claimed of
/// the other digits: they are random. `new_v4` stops the program where the system can
/// give no random bytes.
#[verifier::external_body]
pub fn database_module_uuid() -> (id: String)
    ensures
        is_random_id(id@),
{
    uuid::Uuid::new_v4().to_string()
}

/// The backends that a name can select.
#[derive(Clone, Copy, Debug, PartialEq, Eq, Structural)]
pub enum BackendKind {
    /// Exhaustive search under cosine distance.
    Cosine,
    /// Exhaustive search under Euclidean distance.
    Euclidean,
    /// Graph search under Euclidean distance.
    HnswEuclidean,
    /// Graph search under cosine distance.
    HnswCosine,
    /// A table of hash buckets.
    Lsh,
}

/// The backend that a name selects: `"Cosine"`, `"Euclidean"`, `"Hnsw_Euclidean"`,
/// `"Hnsw_Cosine"` and `"LSH"` select theirs, and every other name selects `Cosine`.
pub open spec fn backend_for(name: Seq<char>) -> BackendKind {
    if name == "Euclidean"@ {
        BackendKind::Euclidean
    } else if name == "Hnsw_Euclidean"@ {
        BackendKind::HnswEuclidean
    } else if name == "Hnsw_Cosine"@ {
        BackendKind::HnswCosine
    } else if name == "LSH"@ {
        BackendKind::Lsh
    } else {
        BackendKind::Cosine
    }
}

/// Whether two texts are the same.
pub fn same_text(a: &str, b: &str) -> (same: bool)
    ensures
        same == (a@ == b@),
{
    String::from_str(a) == String::from_str(b)
}

/// The backend that `db_method` selects. A name that is not recognised selects the
/// exhaustive cosine backend: that is the documented default, no error.
pub fn backend_kind(db_method: &str) -> (kind: BackendKind)
    ensures
        kind == backend_for(db_method@),
{
    if same_text(db_method, "Euclidean") {
        BackendKind::Euclidean
    } else if same_text(db_method, "Hnsw_Euclidean") {
        BackendKind::HnswEuclidean
    } else if same_text(db_method, "Hnsw_Cosine") {
        BackendKind::HnswCosine
    } else if same_text(db_method, "LSH") {
        BackendKind::Lsh
    } else {
        BackendKind::Cosine
    }
}

/// A backend chosen by name. `C` is the cosine metric, `E` the Euclidean one, and
/// `B` the table of hash buckets.
pub enum DB<T, C, E, B> {
    CosineDB(CosineDB<T, C>),
    EuclideanDB(EuclideanDB<T, E>),
    HnswEuclideanDB(HnswDB<T, E>),
    HnswCosineDB(HnswCosineDB<T, C>),
    LshDB(LshDB<T, B>),
}

impl<T: Copy, C: Distance<T>, E: Distance<T>, B: Buckets<T>> DB<T, C, E, B> {
    /// Which backend this is.
    pub open spec fn kind(&self) -> BackendKind {
        match self {
            DB::CosineDB(_) => BackendKind::Cosine,
            DB::EuclideanDB(_) => BackendKind::Euclidean,
            DB::HnswEuclideanDB(_) => BackendKind::HnswEuclidean,
            DB::HnswCosineDB(_) => BackendKind::HnswCosine,
            DB::LshDB(_) => BackendKind::Lsh,
        }
    }
}

/// An empty backend of the kind that `db_method` selects (see [`backend_for`]), built
/// with the cosine metric, the Euclidean metric or the table of buckets as its kind
/// asks.
pub fn new<T: Copy, C: Distance<T>, E: Distance<T>, B: Buckets<T>>(
    db_method: &str,
    cosine: C,
    euclidean: E,
    table: B,
) -> (db: DB<T, C, E, B>)
    ensures
        db.kind() == backend_for(db_method@),
        db.wf(),
        db.documents() == Seq::<DocView<T>>::empty(),
        match db {
            DB::CosineDB(inner) => inner.metric() == cosine,
            DB::EuclideanDB(inner) => inner.metric() == euclidean,
            DB::HnswEuclideanDB(inner) => inner.metric() == euclidean,
            DB::HnswCosineDB(inner) => inner.metric() == cosine,
            DB::LshDB(inner) => !inner.ranks(),
        },
{
    match backend_kind(db_method) {
        BackendKind::Cosine => DB::CosineDB(CosineDB::new(cosine)),
        BackendKind::Euclidean => DB::EuclideanDB(EuclideanDB::new(euclidean)),
        BackendKind::HnswEuclidean => DB::HnswEuclideanDB(HnswDB::new(euclidean)),
        BackendKind::HnswCosine => DB::HnswCosineDB(HnswCosineDB::new(cosine)),
        BackendKind::Lsh => DB::LshDB(LshDB::new(table)),
    }
}

impl<T: Copy, C: Distance<T>, E: Distance<T>, B: Buckets<T>> Operations<T> for DB<T, C, E, B> {
    open spec fn wf(&self) -> bool {
        match self {
            DB::CosineDB(db) => db.wf(),
            DB::EuclideanDB(db) => db.wf(),
            DB::HnswEuclideanDB(db) => db.wf(),
            DB::HnswCosineDB(db) => db.wf(),
            DB::LshDB(db) => db.wf(),
        }
    }

    open spec fn documents(&self) -> Seq<DocView<T>> {
        match self {
            DB::CosineDB(db) => db.documents(),
            DB::EuclideanDB(db) => db.documents(),
            DB::HnswEuclideanDB(db) => db.documents(),
            DB::HnswCosineDB(db) => db.documents(),
            DB::LshDB(db) => db.documents(),
        }
    }

    open spec fn ranks(&self) -> bool {
        match self {
            DB::CosineDB(db) => db.ranks(),
            DB::EuclideanDB(db) => db.ranks(),
            DB::HnswEuclideanDB(db) => db.ranks(),
            DB::HnswCosineDB(db) => db.ranks(),
            DB::LshDB(db) => db.ranks(),
        }
    }

    open spec fn names(&self) -> Naming<T> {
        match self {
            DB::CosineDB(db) => db.names(),
            DB::EuclideanDB(db) => db.names(),
            DB::HnswEuclideanDB(db) => db.names(),
            DB::HnswCosineDB(db) => db.names(),
            DB::LshDB(db) => db.names(),
        }
    }

    open spec fn relation(&self) -> Relation<T> {
        match self {
            DB::CosineDB(db) => db.relation(),
            DB::EuclideanDB(db) => db.relation(),
            DB::HnswEuclideanDB(db) => db.relation(),
            DB::HnswCosineDB(db) => db.relation(),
            DB::LshDB(db) => db.relation(),
        }
    }

    open spec fn answer(&self, query: Seq<T>, n: nat) -> Seq<DocView<T>> {
        match self {
            DB::CosineDB(db) => db.answer(query, n),
            DB::EuclideanDB(db) => db.answer(query, n),
            DB::HnswEuclideanDB(db) => db.answer(query, n),
            DB::HnswCosineDB(db) => db.answer(query, n),
            DB::LshDB(db) => db.answer(query, n),
        }
    }

    fn load(&mut self, texts: Vec<String>, embeddings: Vec<Vec<T>>) -> (r: Result<(), LoadError>)
        ensures
            final(self).kind() == old(self).kind(),
    {
        match self {
            DB::CosineDB(db) => db.load(texts, embeddings),
            DB::EuclideanDB(db) => db.load(texts, embeddings),
            DB::HnswEuclideanDB(db) => db.load(texts, embeddings),
            DB::HnswCosineDB(db) => db.load(texts, embeddings),
            DB::LshDB(db) => db.load(texts, embeddings),
        }
    }

    fn query(&self, query: &[T], n: u32) -> (r: Result<Vec<Doc<T>>, QueryError>) {
        match self {
            DB::CosineDB(db) => db.query(query, n),
            DB::EuclideanDB(db) => db.query(query, n),
            DB::HnswEuclideanDB(db) => db.query(query, n),
            DB::HnswCosineDB(db) => db.query(query, n),
            DB::LshDB(db) => db.query(query, n),
        }
    }
}

} // verus!
