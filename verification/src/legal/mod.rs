//! Move legality and attack detection.

pub mod attack;
pub mod batch;
pub mod checker;
