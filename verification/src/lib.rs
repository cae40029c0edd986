//! Vector-similarity search: distance metrics, exhaustive and graph-based
//! nearest-neighbour indexes, and a uniform `load` / `query` contract over them.
//!
//! # Layers
//!
//! * [`hnswlib::dist`] holds the contract of a metric, [`hnswlib::dist::Distance`],
//!   and the metrics over integer and symbolic vectors: L1, Euclidean, Hamming and
//!   Levenshtein as metrics, Jaccard and cosine as exact fractions and terms.
//! * [`hnswlib::ranking`] chooses the items with the smallest keys.
//! * [`hnswlib::hnsw`] is the layered proximity graph.
//! * [`database`] holds the backends: two that score every stored document, two that
//!   walk a graph, one that is led by hash buckets, and the selection of a backend by
//!   name. All of them keep their documents in the order of loading.
//!   [`database::answer`] says what an answer to a query is, and [`database::store`]
//!   keeps documents and answers by scoring every one.
//! * [`evaluation`] counts correct top answers, and [`model`] knows where a sentence
//!   encoder keeps its parts.
//!
//! # Conventions
//!
//! * Element values are opaque to the indexes: an index is generic over the element
//!   type and over the metric.
//! * A metric reports a dissimilarity as a `u64` key. A smaller key means a closer
//!   pair, and keys of one metric compare as the distances they stand for. Every
//!   backend gives a result its key as score: results come in ascending order of
//!   score, and among equal scores in the order of loading.
//! * Vectors of different lengths are never compared: a metric is called on equally
//!   long vectors only, and `load` and `query` refuse what would break that.
//! * A query for more documents than are stored returns all of them; a query for none
//!   is refused. A refused `load` leaves the backend as it was.
//! * A backend name that is not recognised selects the exhaustive cosine backend.
//! * The backend behind `"LSH"` keeps the documents and is led by a table of hash
//!   buckets that the caller hands in: its answers come in the table's order, with
//!   the score 0.
//! * What a metric reports is stated as a relation. Where it is a function, every
//!   answer of every backend is a function of the stored documents and the query.

pub mod database;
pub mod evaluation;
pub mod hnswlib;
pub mod model;
