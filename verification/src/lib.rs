//! Rules engine for a 9x9 Tafl board game: bit-packed positions, sliding-move
//! generation, move validation, custodian capture and Zobrist hashing.

pub mod action;
pub mod bitboard;
pub mod board;
pub mod error;
pub mod magics;
pub mod mask;
pub mod notation;
pub mod piece;
pub mod prelude;
pub mod rays;
pub mod square;
pub mod state;
pub mod zobrist;
