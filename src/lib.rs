//! Parsing of Forsyth–Edwards Notation (FEN) chess positions.

pub mod board;
pub mod fen;
pub mod laws;
pub mod pieces;
pub mod text;
