//! The sentence encoder that turns a text into an embedding.

pub mod sentence_transformer;
