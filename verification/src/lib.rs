//! A two-player chess engine: board, move generation, legal-move filtering,
//! game state machine and a fixed-depth negamax search.

pub mod piece;
pub mod pos;
pub mod board;
pub mod squares;
pub mod moves;
pub mod legal;
pub mod laws;
pub mod ai;
pub mod game;
pub mod fen;
pub mod describe;
pub mod fen_laws;
pub mod online;
