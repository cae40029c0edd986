//! Measuring how often a backend's top result is the expected one.

pub mod run_eval;
