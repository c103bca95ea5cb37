//! A move with explicit flags, packed into 16 bits.
//!
//! Bits 0-5:   origin square.
//! Bits 6-11:  destination square.
//! Bit 12:     promotion flag.
//! Bit 13:     capture flag.
//! Bits 14-15: with the promotion flag set, the promotion piece (0 knight,
//!             1 bishop, 2 rook, 3 queen); without it, bit 14 is the en
//!             passant flag and bit 15 the castling flag.

use crate::model::pieces::PieceType;
use crate::model::text::{number_text, push_number};
use vstd::prelude::*;
use vstd::string::StringExecFns;

verus! {

pub const FROM_MASK: u16 = 0b0000_0000_0011_1111;

pub const DEST_MASK: u16 = 0b0000_1111_1100_0000;

pub const PROMOTION_MASK: u16 = 0b0001_0000_0000_0000;

pub const CAPTURE_MASK: u16 = 0b0010_0000_0000_0000;

pub const EN_PASSANT_MASK: u16 = 0b0100_0000_0000_0000;

pub const CASTLING_MASK: u16 = 0b1000_0000_0000_0000;

#[derive(Default, Clone, Copy, PartialEq, Eq, Structural, Debug)]
pub struct Action(pub u16);

proof fn bv_action(v: u16, from: u16, to: u16, id: u16)
    by (bit_vector)
    requires
        from < 256,
        to < 256,
        id < 4,
    ensures
        (0u16 | (from & 0x3Fu16)) | ((to << 6u16) & 0xFC0u16) == from % 64 + 64 * (to % 64),
        v & 0x3Fu16 == v % 64,
        (v & 0xFC0u16) >> 6u16 == (v / 64) % 64,
        (v & 0x1000u16 != 0) == ((v / 4096) % 2 == 1),
        (v & 0x2000u16 != 0) == ((v / 8192) % 2 == 1),
        (v & 0x4000u16 != 0) == ((v / 16384) % 2 == 1),
        (v & 0x8000u16 != 0) == (v >= 32768),
        (v >> 14u16) & 3u16 == v / 16384,
        v < 4096 ==> (v | 0x1000u16) | (id << 14u16) == v + 4096 + 16384 * id,
        ((v | 0x1000u16) | (id << 14u16)) % 64 == v % 64,
        (((v | 0x1000u16) | (id << 14u16)) / 64) % 64 == (v / 64) % 64,
        (((v | 0x1000u16) | (id << 14u16)) / 4096) % 2 == 1,
        (((v | 0x1000u16) | (id << 14u16)) / 8192) % 2 == (v / 8192) % 2,
        v < 16384 ==> ((v | 0x1000u16) | (id << 14u16)) / 16384 == id,
{
}

proof fn bv_action_flag(v: u16)
    by (bit_vector)
    ensures
        (v | 0x2000u16) % 64 == v % 64,
        ((v | 0x2000u16) / 64) % 64 == (v / 64) % 64,
        ((v | 0x2000u16) / 4096) % 2 == (v / 4096) % 2,
        ((v | 0x2000u16) / 8192) % 2 == 1,
        ((v | 0x2000u16) / 16384) % 2 == (v / 16384) % 2,
        ((v | 0x2000u16) >= 32768) == (v >= 32768),
        (v | 0x4000u16) % 64 == v % 64,
        ((v | 0x4000u16) / 64) % 64 == (v / 64) % 64,
        ((v | 0x4000u16) / 4096) % 2 == (v / 4096) % 2,
        ((v | 0x4000u16) / 8192) % 2 == (v / 8192) % 2,
        ((v | 0x4000u16) / 16384) % 2 == 1,
        ((v | 0x4000u16) >= 32768) == (v >= 32768),
{
}

impl Action {
    pub open spec fn spec_from_square(&self) -> u8 {
        (self.0 % 64) as u8
    }

    pub open spec fn spec_to_square(&self) -> u8 {
        ((self.0 / 64) % 64) as u8
    }

    pub open spec fn spec_is_promotion(&self) -> bool {
        (self.0 / 4096) % 2 == 1
    }

    pub open spec fn spec_is_capture(&self) -> bool {
        (self.0 / 8192) % 2 == 1
    }

    pub open spec fn spec_is_en_passant(&self) -> bool {
        (self.0 / 16384) % 2 == 1
    }

    pub open spec fn spec_is_castling(&self) -> bool {
        self.0 >= 32768
    }

    pub open spec fn spec_get_promotion(&self) -> Option<PieceType> {
        if self.is_promotion() {
            let id = self.0 / 16384;
            if id == 0 {
                Some(PieceType::Knight)
            } else if id == 1 {
                Some(PieceType::Bishop)
            } else if id == 2 {
                Some(PieceType::Rook)
            } else {
                Some(PieceType::Queen)
            }
        } else {
            None
        }
    }

    /// The two-bit selector of a promotion piece.
    pub open spec fn promotion_id(piece_type: PieceType) -> int {
        match piece_type {
            PieceType::Knight => 0,
            PieceType::Bishop => 1,
            PieceType::Rook => 2,
            _ => 3,
        }
    }

    /// The plain move from `from` to `to`, with no flag set. Of each square
    /// the low six bits count.
    pub fn new(from: u8, to: u8) -> (r: Self)
        ensures
            r.0 == from % 64 + 64 * (to % 64),
            r.from_square() == from % 64,
            r.to_square() == to % 64,
            !r.is_promotion(),
            !r.is_capture(),
            !r.is_en_passant(),
            !r.is_castling(),
    {
        proof {
            bv_action(0, from as u16, to as u16, 0);
        }
        let mut action = 0u16;
        action = action | ((from as u16) & FROM_MASK);
        action = action | (((to as u16) << 6) & DEST_MASK);
        Self(action)
    }

    /// Makes a move that is no capture a promotion to a knight, bishop,
    /// rook or queen: the promotion flag is set and the selector of the
    /// piece is combined into the two highest bits, which a move without
    /// en passant and castling flag has clear.
    pub fn set_promotion(&mut self, piece_type: PieceType)
        requires
            piece_type == PieceType::Knight || piece_type == PieceType::Bishop || piece_type
                == PieceType::Rook || piece_type == PieceType::Queen,
            !old(self).is_capture(),
        ensures
            final(self).0 == (old(self).0 | PROMOTION_MASK) | ((Self::promotion_id(
                piece_type,
            ) as u16) << 14),
            final(self).is_promotion(),
            !final(self).is_capture(),
            old(self).0 < 16384 ==> final(self).get_promotion() == Some(piece_type),
            final(self).from_square() == old(self).from_square(),
            final(self).to_square() == old(self).to_square(),
    {
        let piece_id: u16 = match piece_type {
            PieceType::Knight => 0,
            PieceType::Bishop => 1,
            PieceType::Rook => 2,
            _ => 3,
        };
        proof {
            bv_action(self.0, 0, 0, piece_id);
        }
        self.0 = self.0 | PROMOTION_MASK;
        self.0 = self.0 | (piece_id << 14);
    }

    /// Sets the capture flag of a move that is no promotion.
    pub fn set_capture(&mut self)
        requires
            !old(self).is_promotion(),
        ensures
            final(self).is_capture(),
            final(self).0 == old(self).0 | CAPTURE_MASK,
            final(self).from_square() == old(self).from_square(),
            final(self).to_square() == old(self).to_square(),
            final(self).is_promotion() == old(self).is_promotion(),
            final(self).is_en_passant() == old(self).is_en_passant(),
            final(self).is_castling() == old(self).is_castling(),
    {
        proof {
            bv_action_flag(self.0);
        }
        self.0 = self.0 | CAPTURE_MASK;
    }

    /// Sets the en passant flag of a move that is no promotion.
    pub fn set_en_passant(&mut self)
        requires
            !old(self).is_promotion(),
        ensures
            final(self).is_en_passant(),
            final(self).0 == old(self).0 | EN_PASSANT_MASK,
            final(self).from_square() == old(self).from_square(),
            final(self).to_square() == old(self).to_square(),
            final(self).is_promotion() == old(self).is_promotion(),
            final(self).is_capture() == old(self).is_capture(),
            final(self).is_castling() == old(self).is_castling(),
    {
        proof {
            bv_action_flag(self.0);
        }
        self.0 = self.0 | EN_PASSANT_MASK;
    }

    #[verifier::when_used_as_spec(spec_from_square)]
    pub fn from_square(&self) -> (r: u8)
        ensures
            r == self.spec_from_square(),
            r < 64,
    {
        proof {
            bv_action(self.0, 0, 0, 0);
        }
        (self.0 & FROM_MASK) as u8
    }

    #[verifier::when_used_as_spec(spec_to_square)]
    pub fn to_square(&self) -> (r: u8)
        ensures
            r == self.spec_to_square(),
            r < 64,
    {
        proof {
            bv_action(self.0, 0, 0, 0);
        }
        ((self.0 & DEST_MASK) >> 6) as u8
    }

    #[verifier::when_used_as_spec(spec_is_promotion)]
    pub fn is_promotion(&self) -> (r: bool)
        ensures
            r == self.spec_is_promotion(),
    {
        proof {
            bv_action(self.0, 0, 0, 0);
        }
        (self.0 & PROMOTION_MASK) != 0
    }

    /// The promotion piece, if the move is a promotion.
    #[verifier::when_used_as_spec(spec_get_promotion)]
    pub fn get_promotion(&self) -> (r: Option<PieceType>)
        ensures
            r == self.spec_get_promotion(),
    {
        if self.is_promotion() {
            proof {
                bv_action(self.0, 0, 0, 0);
            }
            let promo_type = (self.0 >> 14) & 0b11;
            if promo_type == 0 {
                Some(PieceType::Knight)
            } else if promo_type == 1 {
                Some(PieceType::Bishop)
            } else if promo_type == 2 {
                Some(PieceType::Rook)
            } else {
                Some(PieceType::Queen)
            }
        } else {
            None
        }
    }

    #[verifier::when_used_as_spec(spec_is_capture)]
    pub fn is_capture(&self) -> (r: bool)
        ensures
            r == self.spec_is_capture(),
    {
        proof {
            bv_action(self.0, 0, 0, 0);
        }
        (self.0 & CAPTURE_MASK) != 0
    }

    /// Whether bit 14 is set: the en passant flag of a move that is no
    /// promotion.
    #[verifier::when_used_as_spec(spec_is_en_passant)]
    pub fn is_en_passant(&self) -> (r: bool)
        ensures
            r == self.spec_is_en_passant(),
    {
        proof {
            bv_action(self.0, 0, 0, 0);
        }
        (self.0 & EN_PASSANT_MASK) != 0
    }

    /// Whether bit 15 is set: the castling flag of a move that is no
    /// promotion.
    #[verifier::when_used_as_spec(spec_is_castling)]
    pub fn is_castling(&self) -> (r: bool)
        ensures
            r == self.spec_is_castling(),
    {
        proof {
            bv_action(self.0, 0, 0, 0);
        }
        (self.0 & CASTLING_MASK) != 0
    }

    /// The text of [`Self::describe`].
    pub open spec fn spec_describe(&self) -> Seq<char> {
        "Action { from: "@ + number_text(self.from_square() as nat) + ", to: "@ + number_text(
            self.to_square() as nat,
        ) + (match self.get_promotion() {
            Some(p) => ", promotion: "@ + ("PieceType("@ + p.spec_name() + ")"@),
            None => ", capture: "@ + spec_bool_text(self.is_capture()) + ", en_passant: "@
                + spec_bool_text(self.is_en_passant()) + ", castling: "@ + spec_bool_text(
                self.is_castling(),
            ),
        }) + " }"@
    }

    /// The move as text: origin and destination, then the promotion piece
    /// of a promotion or the three flags of any other move.
    pub fn describe(&self) -> (r: String)
        ensures
            r@ == self.spec_describe(),
    {
        let mut s = String::from_str("Action { from: ");
        push_number(&mut s, self.from_square() as usize);
        s.append(", to: ");
        push_number(&mut s, self.to_square() as usize);
        match self.get_promotion() {
            Some(promo_type) => {
                s.append(", promotion: ");
                let inner = promo_type.describe();
                s.append(inner.as_str());
            },
            None => {
                s.append(", capture: ");
                s.append(bool_text(self.is_capture()));
                s.append(", en_passant: ");
                s.append(bool_text(self.is_en_passant()));
                s.append(", castling: ");
                s.append(bool_text(self.is_castling()));
            },
        }
        s.append(" }");
        proof {
            assert(s@ =~= self.spec_describe());
        }
        s
    }
}

/// `true` or `false` as text.
pub open spec fn spec_bool_text(b: bool) -> Seq<char> {
    if b {
        "true"@
    } else {
        "false"@
    }
}

fn bool_text(b: bool) -> (r: &'static str)
    ensures
        r@ == spec_bool_text(b),
{
    if b {
        "true"
    } else {
        "false"
    }
}

} // verus!
