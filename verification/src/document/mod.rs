//! The document engine: a causal tree of inserted characters that merges
//! insertions deterministically.

pub mod engine;
pub mod insertion;
pub mod shape;
pub mod laws;
pub mod lemmas;
pub mod model;
