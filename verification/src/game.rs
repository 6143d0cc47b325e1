//! The game itself: positions, moves and the rules that generate them.
pub mod board;
pub mod distinct;
pub mod fen;
pub mod invariants;
pub mod movegen;
pub mod perft;
pub mod rules;
