//! Error types of the crate: illegal-move reasons and the closed sets of
//! reasons for which position text or move text is rejected.

use vstd::prelude::*;

verus! {

#[derive(Debug, Clone, Copy, PartialEq, Eq, Structural)]
pub enum InvalidMove {
    OutOfBounds,
    InvalidPiece,
    InvalidDestination,
    InvalidAction,
    InvalidPromotion,
    InvalidEnPassant,
    InvalidCastling,
}

#[derive(Debug, PartialEq, Eq, Clone, Copy, Structural)]
pub enum FenParseError {
    /// The text does not consist of exactly six whitespace-separated fields.
    MalformedFen,
    /// Error parsing the piece placement section.
    InvalidPiecePlacement,
    /// An invalid character was found in the piece placement section.
    InvalidPieceChar,
    /// A rank in the piece placement section has an incorrect number of squares.
    InvalidRankLength,
    /// The piece placement section has an incorrect number of ranks.
    InvalidRankCount,
    /// The active color field is neither `w` nor `b`.
    InvalidActiveColor,
    /// The castling availability field is too long.
    InvalidCastling,
    /// An invalid character was found in the castling availability field.
    InvalidCastlingChar,
    /// Error parsing the en passant target square field.
    InvalidEnPassant,
    /// The en passant square is not a square of rank 3 or 6 in algebraic notation.
    InvalidEnPassantSquare,
    /// The en passant square does not match the board (no pawn to capture,
    /// no pawn able to capture, wrong side to move, target occupied).
    InvalidEnPassantContext,
    /// Error parsing the half-move clock.
    InvalidHalfmoveClock,
    /// The full-move number is zero.
    InvalidFullmoveNumber,
    /// A numeric value was expected but the field is not a number that fits.
    ExpectedNumber,
    /// An unexpected character was encountered in the piece placement.
    UnexpectedCharacter,
}

#[derive(Debug, PartialEq, Eq, Clone, Copy, Structural)]
pub enum MoveParseError {
    /// The move string is too short (less than 4 characters).
    TooShort,
    /// Invalid character for the from file.
    InvalidFromFile,
    /// Invalid character for the from rank.
    InvalidFromRank,
    /// Invalid character for the to file.
    InvalidToFile,
    /// Invalid character for the to rank.
    InvalidToRank,
    /// The squares are out of bounds for a move: origin and destination
    /// are the same square.
    OutOfBounds,
    /// What follows the two squares is not the letter of a promotion piece.
    InvalidPromotionPiece,
}

} // verus!
