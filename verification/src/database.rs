//! Document stores with a uniform `load` / `query` contract.

pub mod answer;
pub mod cosine_db;
pub mod database_fns;
pub mod db;
pub mod embedding;
pub mod euclidean_db;
pub mod hnsw_cosine_db;
pub mod hnsw_db;
pub mod lsh_db;
pub mod store;
