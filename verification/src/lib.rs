//! A chess rules engine on bitboards: the position, the generation of
//! pseudo-legal moves for each kind of piece, the detection of attacks, the
//! legality check and the making of moves, and the text form of positions.
//!
//! Squares are numbered from 0 (a1) to 63 (h8), file by file along each
//! rank. Every function states what it returns as a contract over the
//! squares of the board, and the contracts are proved.
//!
//! - `model`: bitboards, moves, positions, and their text forms
//! - `movegen`: move generation for all piece types
//! - `legal`: attack detection and the legality check
//! - `geometry`: files, ranks, lines and jumps over square indices
//! - `theorems`: what holds of generation, legality and moves together
//! - `bits`: the facts about machine words that the proofs rest on
//! - `constants`: square indices and masks
//! - `errors`: the reasons for which text is rejected
//! - `notation`: helpers for square and move literals

pub mod bits;
pub mod constants;
pub mod errors;
pub mod geometry;
pub mod legal;
pub mod model;
pub mod movegen;
pub mod notation;
pub mod theorems;
pub mod utils;
