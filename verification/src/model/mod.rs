//! Types and utilities for representing chess state.

pub mod action;
pub mod bitboard;
pub mod board;
pub mod gameboard;
pub mod fen_round_trip;
pub mod gamedata;
pub mod hashing;
pub mod piecemove;
pub mod pieces;
pub mod rays;
pub mod text;
