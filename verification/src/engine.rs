//! The engine: position hashing, static evaluation and search.
pub mod eval;
pub mod hash;
pub mod search;
