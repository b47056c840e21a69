//! A chess rules engine: board state, move generation, threat detection,
//! the self-check legality filter, checkmate detection and move execution.
pub mod piece;
pub mod notation;
pub mod rules;
pub mod board;
pub mod laws;
