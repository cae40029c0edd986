//! Distance metrics, ranking by key, and the layered proximity-graph index.

pub mod dist;
pub mod hnsw;
pub mod ranking;
