//! Helpers on top of the board types.

pub mod bitboard;
