//! A chess engine core: board representation with reversible moves, move
//! generation, Zobrist hashing, static evaluation and alpha-beta search.
pub mod engine;
pub mod game;
