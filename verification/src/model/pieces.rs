//! A square's content packed into 8 bits.
//!
//! Bit 0-2: piece type (0 empty, 1 pawn, 2 knight, 3 bishop, 4 rook,
//!          5 queen, 6 king).
//! Bit 3:   colour (0 white, 1 black).
//! Bit 4:   the piece has moved.
//! Bit 5:   the piece is a promoted pawn.

use vstd::prelude::*;
use vstd::std_specs::ops::{BitAndSpecImpl, BitOrSpecImpl};
use vstd::string::StringExecFns;

verus! {

pub const EMPTY: u8 = 0;

pub const WHITE: u8 = 0;

pub const PIECE_TYPE_MASK: u8 = 0b0000_0111;

pub const BLACK: u8 = 0b0000_1000;

pub const MOVED: u8 = 0b0001_0000;

pub const PROMO: u8 = 0b0010_0000;

#[derive(Clone, Copy, PartialEq, Eq, Structural, Debug)]
pub enum PieceType {
    Empty,
    Pawn,
    Knight,
    Bishop,
    Rook,
    Queen,
    King,
}

impl PieceType {
    /// The three-bit code of the piece type.
    pub open spec fn spec_code(self) -> u8 {
        match self {
            PieceType::Empty => 0,
            PieceType::Pawn => 1,
            PieceType::Knight => 2,
            PieceType::Bishop => 3,
            PieceType::Rook => 4,
            PieceType::Queen => 5,
            PieceType::King => 6,
        }
    }

    #[verifier::when_used_as_spec(spec_code)]
    pub fn code(self) -> (r: u8)
        ensures
            r == self.spec_code(),
    {
        match self {
            PieceType::Empty => 0,
            PieceType::Pawn => 1,
            PieceType::Knight => 2,
            PieceType::Bishop => 3,
            PieceType::Rook => 4,
            PieceType::Queen => 5,
            PieceType::King => 6,
        }
    }

    /// The name of the piece type.
    pub open spec fn spec_name(self) -> Seq<char> {
        match self {
            PieceType::Empty => "Empty"@,
            PieceType::Pawn => "Pawn"@,
            PieceType::Knight => "Knight"@,
            PieceType::Bishop => "Bishop"@,
            PieceType::Rook => "Rook"@,
            PieceType::Queen => "Queen"@,
            PieceType::King => "King"@,
        }
    }

    pub fn name(self) -> (r: &'static str)
        ensures
            r@ == self.spec_name(),
    {
        match self {
            PieceType::Empty => "Empty",
            PieceType::Pawn => "Pawn",
            PieceType::Knight => "Knight",
            PieceType::Bishop => "Bishop",
            PieceType::Rook => "Rook",
            PieceType::Queen => "Queen",
            PieceType::King => "King",
        }
    }

    /// The piece type as text: its name inside `PieceType(..)`.
    pub fn describe(self) -> (r: String)
        ensures
            r@ == "PieceType("@ + self.spec_name() + ")"@,
    {
        let mut s = String::from_str("PieceType(");
        s.append(self.name());
        s.append(")");
        s
    }
}

#[derive(Clone, Copy, PartialEq, Eq, Structural, Debug)]
pub struct Piece(pub u8);

proof fn bv_piece(v: u8, code: u8, flag: u8)
    by (bit_vector)
    requires
        code <= 6,
        flag == 0 || flag == 8,
    ensures
        (code | flag) & 7u8 == code,
        ((code | flag) & 8u8 != 0) == (flag == 8),
        (code | flag) & 16u8 == 0,
        (code | flag) & 32u8 == 0,
        (code | flag == 0) == (code == 0 && flag == 0),
        ((v & !7u8) | code | 32u8) & 7u8 == code,
        ((v & !7u8) | code | 32u8) & 32u8 != 0,
        ((v & !7u8) | code | 32u8) & 8u8 == v & 8u8,
        ((v & !7u8) | code | 32u8) & 16u8 == v & 16u8,
        (v | 16u8) & 16u8 != 0,
        (v | 16u8) & 7u8 == v & 7u8,
        (v | 16u8) & 8u8 == v & 8u8,
        (v | 16u8) & 32u8 == v & 32u8,
        v & 7u8 <= 7,
        0u8 & 7u8 == 0,
{
}

impl Piece {
    /// What the three type bits stand for; the unused code 7 stands for
    /// nothing and reads as empty.
    pub open spec fn spec_piece_type(&self) -> PieceType {
        let code = self.0 & PIECE_TYPE_MASK;
        if code == 1 {
            PieceType::Pawn
        } else if code == 2 {
            PieceType::Knight
        } else if code == 3 {
            PieceType::Bishop
        } else if code == 4 {
            PieceType::Rook
        } else if code == 5 {
            PieceType::Queen
        } else if code == 6 {
            PieceType::King
        } else {
            PieceType::Empty
        }
    }

    pub open spec fn spec_is_black(&self) -> bool {
        self.0 & BLACK != 0
    }

    pub open spec fn spec_has_moved(&self) -> bool {
        self.0 & MOVED != 0
    }

    pub open spec fn spec_is_promoted(&self) -> bool {
        self.0 & PROMO != 0
    }

    /// A piece of the given type and colour that has not moved and is not
    /// promoted; `color_flag` is `BLACK` or `WHITE`.
    pub fn new(piece_type: PieceType, color_flag: u8) -> (r: Self)
        ensures
            r.0 == piece_type.code() | color_flag,
            color_flag == WHITE || color_flag == BLACK ==> {
                &&& r.piece_type() == piece_type
                &&& r.0 & PIECE_TYPE_MASK == piece_type.code()
                &&& r.is_black() == (color_flag == BLACK)
                &&& !r.has_moved()
                &&& !r.is_promoted()
            },
    {
        proof {
            if color_flag == WHITE || color_flag == BLACK {
                bv_piece(0, piece_type.code(), color_flag);
            }
        }
        Piece(piece_type.code() | color_flag)
    }

    pub fn empty() -> (r: Self)
        ensures
            r.0 == EMPTY,
            r.0 & PIECE_TYPE_MASK == 0,
            r.piece_type() == PieceType::Empty,
    {
        proof {
            bv_piece(0, 0, 0);
        }
        Piece(EMPTY)
    }

    /// The empty square has the type bits of no piece.
    pub proof fn lemma_empty()
        ensures
            Piece(0).0 & PIECE_TYPE_MASK == 0,
            Piece(0).piece_type() == PieceType::Empty,
            !Piece(0).is_black(),
    {
        bv_piece(0, 0, 0);
        assert(0u8 & 8u8 == 0) by (bit_vector);
    }

    /// Whether the square is completely empty: no piece and no flag.
    pub fn is_empty_square(&self) -> (r: bool)
        ensures
            r == (self.0 == EMPTY),
    {
        self.0 == EMPTY
    }

    #[verifier::when_used_as_spec(spec_piece_type)]
    pub fn piece_type(&self) -> (r: PieceType)
        requires
            self.0 & PIECE_TYPE_MASK != 7,
        ensures
            r == self.spec_piece_type(),
            r.code() == self.0 & PIECE_TYPE_MASK,
    {
        proof {
            bv_piece(self.0, 0, 0);
        }
        let type_val = self.0 & PIECE_TYPE_MASK;
        if type_val == 0 {
            PieceType::Empty
        } else if type_val == 1 {
            PieceType::Pawn
        } else if type_val == 2 {
            PieceType::Knight
        } else if type_val == 3 {
            PieceType::Bishop
        } else if type_val == 4 {
            PieceType::Rook
        } else if type_val == 5 {
            PieceType::Queen
        } else {
            PieceType::King
        }
    }

    #[verifier::when_used_as_spec(spec_is_black)]
    pub fn is_black(&self) -> (r: bool)
        ensures
            r == self.spec_is_black(),
    {
        (self.0 & BLACK) != 0
    }

    #[verifier::when_used_as_spec(spec_has_moved)]
    pub fn has_moved(&self) -> (r: bool)
        ensures
            r == self.spec_has_moved(),
    {
        (self.0 & MOVED) != 0
    }

    #[verifier::when_used_as_spec(spec_is_promoted)]
    pub fn is_promoted(&self) -> (r: bool)
        ensures
            r == self.spec_is_promoted(),
    {
        (self.0 & PROMO) != 0
    }

    /// Turns the piece into one of the given type, which is neither empty
    /// nor a king, and marks it as promoted. Colour and the moved flag stay.
    pub fn promote(&mut self, new_piece_type: PieceType)
        requires
            new_piece_type != PieceType::Empty,
            new_piece_type != PieceType::King,
        ensures
            final(self).0 == (old(self).0 & !PIECE_TYPE_MASK) | new_piece_type.code() | PROMO,
            final(self).piece_type() == new_piece_type,
            final(self).is_promoted(),
            final(self).is_black() == old(self).is_black(),
            final(self).has_moved() == old(self).has_moved(),
    {
        proof {
            bv_piece(self.0, new_piece_type.code(), 0);
        }
        self.0 = (self.0 & !PIECE_TYPE_MASK) | new_piece_type.code() | PROMO;
    }

    /// Marks the piece as moved; nothing else changes.
    pub fn set_moved(&mut self)
        ensures
            final(self).0 == old(self).0 | MOVED,
            final(self).has_moved(),
            final(self).piece_type() == old(self).piece_type(),
            final(self).is_black() == old(self).is_black(),
            final(self).is_promoted() == old(self).is_promoted(),
    {
        proof {
            bv_piece(self.0, 0, 0);
        }
        self.0 = self.0 | MOVED;
    }

    /// The text of [`Self::describe`].
    pub open spec fn spec_describe(&self) -> Seq<char> {
        if self.0 == EMPTY {
            "Piece(Empty)"@
        } else {
            "Piece("@ + (if self.is_black() {
                "Black"@
            } else {
                "White"@
            }) + " PieceType("@ + self.piece_type().spec_name() + ")"@ + (if self.has_moved()
                && self.is_promoted() {
                " (moved, promoted)"@
            } else if self.has_moved() {
                " (moved)"@
            } else if self.is_promoted() {
                " (promoted)"@
            } else {
                ""@
            }) + ")"@
        }
    }

    /// The piece as text: colour, type and, in brackets, the flags set.
    pub fn describe(&self) -> (r: String)
        requires
            self.0 & PIECE_TYPE_MASK != 7,
        ensures
            r@ == self.spec_describe(),
    {
        if self.is_empty_square() {
            return String::from_str("Piece(Empty)");
        }
        let mut s = String::from_str("Piece(");
        s.append(
            if self.is_black() {
                "Black"
            } else {
                "White"
            },
        );
        s.append(" PieceType(");
        s.append(self.piece_type().name());
        s.append(")");
        s.append(
            if self.has_moved() && self.is_promoted() {
                " (moved, promoted)"
            } else if self.has_moved() {
                " (moved)"
            } else if self.is_promoted() {
                " (promoted)"
            } else {
                ""
            },
        );
        s.append(")");
        s
    }
}

impl BitAndSpecImpl for Piece {
    open spec fn obeys_bitand_spec() -> bool {
        true
    }

    open spec fn bitand_req(self, rhs: Self) -> bool {
        true
    }

    open spec fn bitand_spec(self, rhs: Self) -> Self {
        Piece(self.0 & rhs.0)
    }
}

impl core::ops::BitAnd for Piece {
    type Output = Self;

    fn bitand(self, rhs: Self) -> (r: Self) {
        Piece(self.0 & rhs.0)
    }
}

impl BitOrSpecImpl for Piece {
    open spec fn obeys_bitor_spec() -> bool {
        true
    }

    open spec fn bitor_req(self, rhs: Self) -> bool {
        true
    }

    open spec fn bitor_spec(self, rhs: Self) -> Self {
        Piece(self.0 | rhs.0)
    }
}

impl core::ops::BitOr for Piece {
    type Output = Self;

    fn bitor(self, rhs: Self) -> (r: Self) {
        Piece(self.0 | rhs.0)
    }
}

impl core::ops::BitAndAssign for Piece {
    fn bitand_assign(&mut self, rhs: Self)
        ensures
            final(self).0 == old(self).0 & rhs.0,
    {
        self.0 = self.0 & rhs.0;
    }
}

impl core::ops::BitOrAssign for Piece {
    fn bitor_assign(&mut self, rhs: Self)
        ensures
            final(self).0 == old(self).0 | rhs.0,
    {
        self.0 = self.0 | rhs.0;
    }
}

} // verus!
