//! A move packed into 16 bits.
//!
//! Bit 0-5:   origin square.
//! Bit 6-11:  destination square.
//! Bit 12-13: promotion piece (0 queen, 1 rook, 2 bishop, 3 knight), zero
//!            unless the promotion flag is set.
//! Bit 14:    promotion flag.
//! Bit 15:    capture flag.
//!
//! The all-zero value is the null move. En passant and castling have no flag
//! of their own: they are told from the piece that moves and from the
//! geometry of origin and destination.

use crate::errors::MoveParseError;
use crate::geometry::{abs, file_diff, rank_diff};
use crate::model::text::chars_of;
use vstd::prelude::*;
use vstd::string::StringExecFns;

verus! {

const FROM_SQUARE_MASK: u16 = 0x3F;

const TO_SQUARE_MASK: u16 = 0x3F;

const FROM_SQUARE_SHIFT: u16 = 0;

const TO_SQUARE_SHIFT: u16 = 6;

const PROMOTION_TYPE_MASK: u16 = 0x3;

const PROMOTION_TYPE_SHIFT: u16 = 12;

const IS_PROMOTION_FLAG: u16 = 0x4000;

const IS_CAPTURE_FLAG: u16 = 0x8000;

/// The piece a pawn turns into on the last rank.
#[derive(Debug, Clone, Copy, PartialEq, Eq, Structural)]
pub enum PromotionType {
    Queen,
    Rook,
    Bishop,
    Knight,
}

impl PromotionType {
    /// The two-bit selector that stands for the piece in a packed move.
    pub open spec fn index(self) -> int {
        match self {
            PromotionType::Queen => 0,
            PromotionType::Rook => 1,
            PromotionType::Bishop => 2,
            PromotionType::Knight => 3,
        }
    }

    /// The name of the piece.
    pub open spec fn spec_name(self) -> Seq<char> {
        match self {
            PromotionType::Queen => "Queen"@,
            PromotionType::Rook => "Rook"@,
            PromotionType::Bishop => "Bishop"@,
            PromotionType::Knight => "Knight"@,
        }
    }

    pub fn name(self) -> (r: &'static str)
        ensures
            r@ == self.spec_name(),
    {
        match self {
            PromotionType::Queen => "Queen",
            PromotionType::Rook => "Rook",
            PromotionType::Bishop => "Bishop",
            PromotionType::Knight => "Knight",
        }
    }
}

#[derive(Clone, Copy, Debug, PartialEq, Eq, PartialOrd, Ord, Structural)]
pub struct PieceMove(u16);

/// The packed value of a move, as a number: origin, 64 times the
/// destination, 4096 times the promotion selector, then the two flags.
pub open spec fn encode(from: int, to: int, is_capture: bool, promotion: Option<PromotionType>)
    -> int {
    from + 64 * to + (match promotion {
        Some(p) => 16384 + 4096 * p.index(),
        None => 0,
    }) + (if is_capture {
        32768int
    } else {
        0
    })
}

proof fn bv_pack(from: u16, to: u16, sel: u16)
    by (bit_vector)
    requires
        from < 64,
        to < 64,
        sel < 4,
    ensures
        (from << 0u16) | (to << 6u16) == from + 64 * to,
        (from << 0u16) | (to << 6u16) | 0x8000u16 == from + 64 * to + 32768,
        (from << 0u16) | (to << 6u16) | 0x4000u16 | ((sel & 3u16) << 12u16) == from + 64 * to
            + 16384 + 4096 * sel,
        (from << 0u16) | (to << 6u16) | 0x8000u16 | 0x4000u16 | ((sel & 3u16) << 12u16) == from
            + 64 * to + 32768 + 16384 + 4096 * sel,
{
}

proof fn bv_unpack(v: u16)
    by (bit_vector)
    ensures
        (v >> 0u16) & 0x3Fu16 == v % 64,
        (v >> 6u16) & 0x3Fu16 == (v / 64) % 64,
        (v >> 12u16) & 0x3u16 == (v / 4096) % 4,
        (v & 0x4000u16 != 0) == ((v / 16384) % 2 == 1),
        (v & 0x8000u16 != 0) == (v >= 32768),
{
}

impl PieceMove {
    /// The packed 16 bits.
    pub closed spec fn bits(self) -> u16 {
        self.0
    }

    /// The null move: the all-zero value, which no move made by [`Self::new`]
    /// has.
    pub fn null() -> (r: PieceMove)
        ensures
            r.bits() == 0,
            r == Self::spec_null(),
    {
        PieceMove(0)
    }

    pub closed spec fn spec_null() -> PieceMove {
        PieceMove(0)
    }

    /// The move that [`Self::new`] makes of its arguments.
    pub closed spec fn spec_new(
        from: u8,
        to: u8,
        is_capture: bool,
        promotion: Option<PromotionType>,
    ) -> PieceMove {
        PieceMove(encode(from as int, to as int, is_capture, promotion) as u16)
    }

    /// What [`Self::spec_new`] packs can be read back.
    pub proof fn lemma_spec_new(
        from: u8,
        to: u8,
        is_capture: bool,
        promotion: Option<PromotionType>,
    )
        requires
            from < 64,
            to < 64,
        ensures
            Self::spec_new(from, to, is_capture, promotion).bits() == encode(
                from as int,
                to as int,
                is_capture,
                promotion,
            ),
            Self::spec_new(from, to, is_capture, promotion).from_square() == from,
            Self::spec_new(from, to, is_capture, promotion).to_square() == to,
            Self::spec_new(from, to, is_capture, promotion).is_capture() == is_capture,
            Self::spec_new(from, to, is_capture, promotion).promotion_type() == promotion,
            Self::spec_new(from, to, is_capture, promotion).well_formed(),
            from != to ==> Self::spec_new(from, to, is_capture, promotion) != Self::spec_null(),
    {
        lemma_encode(from as int, to as int, is_capture, promotion);
    }

    /// Whether this is the null move.
    pub fn is_null(&self) -> (r: bool)
        ensures
            r == (self.bits() == 0),
            r == (*self == Self::spec_null()),
    {
        self.0 == 0
    }

    pub open spec fn spec_from_square(&self) -> u8 {
        (self.bits() % 64) as u8
    }

    pub open spec fn spec_to_square(&self) -> u8 {
        ((self.bits() / 64) % 64) as u8
    }

    pub open spec fn spec_is_capture(&self) -> bool {
        self.bits() >= 32768
    }

    pub open spec fn spec_is_promotion(&self) -> bool {
        (self.bits() / 16384) % 2 == 1
    }

    pub open spec fn spec_promotion_type(&self) -> Option<PromotionType> {
        if self.is_promotion() {
            let sel = (self.bits() / 4096) % 4;
            if sel == 0 {
                Some(PromotionType::Queen)
            } else if sel == 1 {
                Some(PromotionType::Rook)
            } else if sel == 2 {
                Some(PromotionType::Bishop)
            } else {
                Some(PromotionType::Knight)
            }
        } else {
            None
        }
    }

    /// The move is one that [`Self::new`] makes: its bits are the packed
    /// form of what its accessors read, so that the promotion selector is
    /// zero where the promotion flag is not set.
    pub open spec fn well_formed(&self) -> bool {
        self.bits() == encode(
            self.from_square() as int,
            self.to_square() as int,
            self.is_capture(),
            self.promotion_type(),
        )
    }

    /// The move from `from` to `to` with the given flags is the only
    /// well-formed move that reads so.
    pub proof fn lemma_same_reading(a: PieceMove, b: PieceMove)
        requires
            a.well_formed(),
            b.well_formed(),
            a.from_square() == b.from_square(),
            a.to_square() == b.to_square(),
            a.is_capture() == b.is_capture(),
            a.promotion_type() == b.promotion_type(),
        ensures
            a == b,
    {
    }

    /// The move has the shape of an en passant capture: the capture flag
    /// and a diagonal step of one file and one rank.
    pub open spec fn spec_is_en_passant(&self) -> bool {
        let from = self.from_square() as int;
        let to = self.to_square() as int;
        self.is_capture() && abs(file_diff(from, to)) == 1 && abs(rank_diff(from, to)) == 1
    }

    /// Creates a new PieceMove.
    ///
    /// * `from` - The starting square (0-63).
    /// * `to` - The destination square (0-63), which is not `from`.
    /// * `is_capture` - True if the move is a capture.
    /// * `promotion_type` - The piece promoted to; if `Some`, the promotion
    ///   flag is set.
    pub fn new(from: u8, to: u8, is_capture: bool, promotion_type: Option<PromotionType>) -> (r:
        Self)
        requires
            from < 64,
            to < 64,
            from != to,
        ensures
            r == Self::spec_new(from, to, is_capture, promotion_type),
            r.bits() == encode(from as int, to as int, is_capture, promotion_type),
            r.from_square() == from,
            r.to_square() == to,
            r.is_capture() == is_capture,
            r.is_promotion() == promotion_type.is_some(),
            r.promotion_type() == promotion_type,
            r.well_formed(),
            r != Self::spec_null(),
    {
        let mut move_value: u16 = 0;
        move_value = move_value | ((from as u16) << FROM_SQUARE_SHIFT);
        move_value = move_value | ((to as u16) << TO_SQUARE_SHIFT);
        if is_capture {
            move_value = move_value | IS_CAPTURE_FLAG;
        }
        let ghost sel_index: u16 = match promotion_type {
            Some(p) => p.index() as u16,
            None => 0,
        };
        if let Some(promo_type) = promotion_type {
            let sel: u16 = match promo_type {
                PromotionType::Queen => 0,
                PromotionType::Rook => 1,
                PromotionType::Bishop => 2,
                PromotionType::Knight => 3,
            };
            move_value = move_value | IS_PROMOTION_FLAG;
            move_value = move_value | ((sel & PROMOTION_TYPE_MASK) << PROMOTION_TYPE_SHIFT);
        }
        proof {
            let f = from as u16;
            let t = to as u16;
            bv_pack(f, t, sel_index);
            assert(0u16 | (f << 0u16) == f << 0u16) by (bit_vector);
            assert(move_value as int == encode(
                from as int,
                to as int,
                is_capture,
                promotion_type,
            ));
            lemma_encode(from as int, to as int, is_capture, promotion_type);
        }
        PieceMove(move_value)
    }

    /// Creates a new castling move: a plain move of the king, told as
    /// castling from its origin and destination.
    pub fn new_castling(king_from: u8, king_to: u8) -> (r: Self)
        requires
            king_from < 64,
            king_to < 64,
            king_from != king_to,
        ensures
            r.bits() == encode(king_from as int, king_to as int, false, None),
            r.from_square() == king_from,
            r.to_square() == king_to,
            !r.is_capture(),
            !r.is_promotion(),
            r.well_formed(),
    {
        PieceMove::new(king_from, king_to, false, None)
    }

    /// Creates a new two-square pawn advance: a plain move, told as such
    /// from its origin and destination.
    pub fn new_two_square_advance(from: u8, to: u8) -> (r: Self)
        requires
            from < 64,
            to < 64,
            from != to,
        ensures
            r.bits() == encode(from as int, to as int, false, None),
            r.from_square() == from,
            r.to_square() == to,
            !r.is_capture(),
            !r.is_promotion(),
            r.well_formed(),
    {
        PieceMove::new(from, to, false, None)
    }

    /// Creates a new en passant capture: a capture without promotion.
    pub fn new_en_passant(from: u8, to: u8) -> (r: Self)
        requires
            from < 64,
            to < 64,
            from != to,
        ensures
            r.bits() == encode(from as int, to as int, true, None),
            r.from_square() == from,
            r.to_square() == to,
            r.is_capture(),
            !r.is_promotion(),
            r.well_formed(),
    {
        PieceMove::new(from, to, true, None)
    }

    /// Creates a move that neither captures nor promotes.
    pub fn simple(from: u8, to: u8) -> (r: Self)
        requires
            from < 64,
            to < 64,
            from != to,
        ensures
            r.bits() == encode(from as int, to as int, false, None),
            r.from_square() == from,
            r.to_square() == to,
            !r.is_capture(),
            !r.is_promotion(),
            r.well_formed(),
    {
        Self::new(from, to, false, None)
    }

    #[verifier::when_used_as_spec(spec_from_square)]
    pub fn from_square(&self) -> (r: u8)
        ensures
            r == self.spec_from_square(),
            r < 64,
    {
        proof {
            bv_unpack(self.0);
        }
        ((self.0 >> FROM_SQUARE_SHIFT) & FROM_SQUARE_MASK) as u8
    }

    #[verifier::when_used_as_spec(spec_to_square)]
    pub fn to_square(&self) -> (r: u8)
        ensures
            r == self.spec_to_square(),
            r < 64,
    {
        proof {
            bv_unpack(self.0);
        }
        ((self.0 >> TO_SQUARE_SHIFT) & TO_SQUARE_MASK) as u8
    }

    #[verifier::when_used_as_spec(spec_is_capture)]
    pub fn is_capture(&self) -> (r: bool)
        ensures
            r == self.spec_is_capture(),
    {
        proof {
            bv_unpack(self.0);
        }
        (self.0 & IS_CAPTURE_FLAG) != 0
    }

    #[verifier::when_used_as_spec(spec_is_promotion)]
    pub fn is_promotion(&self) -> (r: bool)
        ensures
            r == self.spec_is_promotion(),
    {
        proof {
            bv_unpack(self.0);
        }
        (self.0 & IS_PROMOTION_FLAG) != 0
    }

    /// Returns the promotion type if the move is a promotion, otherwise None.
    #[verifier::when_used_as_spec(spec_promotion_type)]
    pub fn promotion_type(&self) -> (r: Option<PromotionType>)
        ensures
            r == self.spec_promotion_type(),
    {
        if self.is_promotion() {
            proof {
                bv_unpack(self.0);
            }
            let sel = (self.0 >> PROMOTION_TYPE_SHIFT) & PROMOTION_TYPE_MASK;
            if sel == 0 {
                Some(PromotionType::Queen)
            } else if sel == 1 {
                Some(PromotionType::Rook)
            } else if sel == 2 {
                Some(PromotionType::Bishop)
            } else {
                Some(PromotionType::Knight)
            }
        } else {
            None
        }
    }

    /// Checks if the move is a pawn's two-square advance (from rank 2 to 4
    /// for White, 7 to 5 for Black), given the colour of the pawn.
    pub fn is_two_square_advance(from: u8, to: u8, is_white_pawn_move: bool) -> (r: bool)
        ensures
            r == (from % 8 == to % 8 && if is_white_pawn_move {
                from / 8 == 1 && to / 8 == 3
            } else {
                from / 8 == 6 && to / 8 == 4
            }),
    {
        if is_white_pawn_move {
            (from / 8 == 1) && (to / 8 == 3) && (from % 8 == to % 8)
        } else {
            (from / 8 == 6) && (to / 8 == 4) && (from % 8 == to % 8)
        }
    }

    /// Checks if the move is kingside castling (e1 to g1, or e8 to g8),
    /// given the colour of the king.
    pub fn is_kingside_castling(from: u8, to: u8, is_white_king_move: bool) -> (r: bool)
        ensures
            r == (if is_white_king_move {
                from == 4 && to == 6
            } else {
                from == 60 && to == 62
            }),
    {
        if is_white_king_move {
            from == 4 && to == 6
        } else {
            from == 60 && to == 62
        }
    }

    /// Checks if the move is queenside castling (e1 to c1, or e8 to c8),
    /// given the colour of the king.
    pub fn is_queenside_castling(from: u8, to: u8, is_white_king_move: bool) -> (r: bool)
        ensures
            r == (if is_white_king_move {
                from == 4 && to == 2
            } else {
                from == 60 && to == 58
            }),
    {
        if is_white_king_move {
            from == 4 && to == 2
        } else {
            from == 60 && to == 58
        }
    }

    /// Checks if the move has the shape of an en passant capture: the
    /// capture flag and a diagonal step of one file and one rank.
    #[verifier::when_used_as_spec(spec_is_en_passant)]
    pub fn is_en_passant(&self) -> (r: bool)
        ensures
            r == self.spec_is_en_passant(),
    {
        if !self.is_capture() {
            return false;
        }
        let from = self.from_square();
        let to = self.to_square();
        let files: u8 = if from % 8 >= to % 8 {
            from % 8 - to % 8
        } else {
            to % 8 - from % 8
        };
        let ranks: u8 = if from / 8 >= to / 8 {
            from / 8 - to / 8
        } else {
            to / 8 - from / 8
        };
        files == 1 && ranks == 1
    }
}

/// The promotion piece that a letter of coordinate notation names.
pub open spec fn promotion_of_char(c: char) -> Option<PromotionType> {
    if c == 'q' {
        Some(PromotionType::Queen)
    } else if c == 'r' {
        Some(PromotionType::Rook)
    } else if c == 'b' {
        Some(PromotionType::Bishop)
    } else if c == 'n' {
        Some(PromotionType::Knight)
    } else {
        None
    }
}

/// The square that a file letter and a rank digit name.
pub open spec fn square_of(file: char, rank: char) -> u8 {
    ((rank as u32 - '1' as u32) * 8 + (file as u32 - 'a' as u32)) as u8
}

/// The move that a text in coordinate notation names: origin square,
/// destination square and, for a promotion, the letter of the piece, as in
/// `e2e4` and `e7e8q`. The text does not say whether the move captures: the
/// capture flag is not set.
pub open spec fn parse_move(s: Seq<char>) -> Result<PieceMove, MoveParseError> {
    if s.len() < 4 {
        Err(MoveParseError::TooShort)
    } else if !('a' <= s[0] <= 'h') {
        Err(MoveParseError::InvalidFromFile)
    } else if !('1' <= s[1] <= '8') {
        Err(MoveParseError::InvalidFromRank)
    } else if !('a' <= s[2] <= 'h') {
        Err(MoveParseError::InvalidToFile)
    } else if !('1' <= s[3] <= '8') {
        Err(MoveParseError::InvalidToRank)
    } else if s.len() > 5 || (s.len() == 5 && promotion_of_char(s[4]).is_none()) {
        Err(MoveParseError::InvalidPromotionPiece)
    } else if square_of(s[0], s[1]) == square_of(s[2], s[3]) {
        Err(MoveParseError::OutOfBounds)
    } else {
        Ok(
            PieceMove::spec_new(
                square_of(s[0], s[1]),
                square_of(s[2], s[3]),
                false,
                if s.len() == 5 {
                    promotion_of_char(s[4])
                } else {
                    None
                },
            ),
        )
    }
}

impl PieceMove {
    /// Reads a move in coordinate notation.
    pub fn from_str(text: &str) -> (r: Result<PieceMove, MoveParseError>)
        ensures
            r == parse_move(text@),
    {
        let s = chars_of(text);
        if s.len() < 4 {
            return Err(MoveParseError::TooShort);
        }
        if !('a' <= s[0] && s[0] <= 'h') {
            return Err(MoveParseError::InvalidFromFile);
        }
        if !('1' <= s[1] && s[1] <= '8') {
            return Err(MoveParseError::InvalidFromRank);
        }
        if !('a' <= s[2] && s[2] <= 'h') {
            return Err(MoveParseError::InvalidToFile);
        }
        if !('1' <= s[3] && s[3] <= '8') {
            return Err(MoveParseError::InvalidToRank);
        }
        if s.len() > 5 {
            return Err(MoveParseError::InvalidPromotionPiece);
        }
        let promotion = if s.len() == 5 {
            let c = s[4];
            if c == 'q' {
                Some(PromotionType::Queen)
            } else if c == 'r' {
                Some(PromotionType::Rook)
            } else if c == 'b' {
                Some(PromotionType::Bishop)
            } else if c == 'n' {
                Some(PromotionType::Knight)
            } else {
                return Err(MoveParseError::InvalidPromotionPiece);
            }
        } else {
            None
        };
        let from = ((s[1] as u32 - '1' as u32) * 8 + (s[0] as u32 - 'a' as u32)) as u8;
        let to = ((s[3] as u32 - '1' as u32) * 8 + (s[2] as u32 - 'a' as u32)) as u8;
        if from == to {
            return Err(MoveParseError::OutOfBounds);
        }
        Ok(PieceMove::new(from, to, false, promotion))
    }
}

/// The name of a square: the letter of its file and the digit of its rank.
pub open spec fn square_name(square: u8) -> Seq<char> {
    seq![((square % 8 + 97) as u8) as char, ((square / 8 + 49) as u8) as char]
}

impl PieceMove {
    /// The move as text: `NULL` for the null move, else the names of
    /// origin and destination, a mark on a capture, and the promotion
    /// piece if there is one.
    pub open spec fn spec_describe(self) -> Seq<char> {
        if self == Self::spec_null() {
            "NULL"@
        } else {
            "PieceMove("@ + square_name(self.from_square()) + " -> "@ + square_name(
                self.to_square(),
            ) + (if self.is_capture() {
                " (Capture)"@
            } else {
                ""@
            }) + " - "@ + (match self.promotion_type() {
                Some(p) => "Some("@ + p.spec_name() + ")"@,
                None => "None"@,
            }) + ")"@
        }
    }

    /// The move as text.
    pub fn describe(&self) -> (r: String)
        ensures
            r@ == self.spec_describe(),
    {
        if self.is_null() {
            return String::from_str("NULL");
        }
        let from = self.from_square();
        let to = self.to_square();
        let mut s = String::from_str("PieceMove(");
        s.push((from % 8 + 97) as char);
        s.push((from / 8 + 49) as char);
        let ghost origin = "PieceMove("@ + square_name(from);
        proof {
            assert(s@ =~= origin);
        }
        s.append(" -> ");
        s.push((to % 8 + 97) as char);
        s.push((to / 8 + 49) as char);
        let ghost squares = origin + " -> "@ + square_name(to);
        proof {
            assert(s@ =~= squares);
        }
        if self.is_capture() {
            s.append(" (Capture)");
        }
        s.append(" - ");
        let ghost flagged = squares + (if self.is_capture() {
            " (Capture)"@
        } else {
            ""@
        }) + " - "@;
        proof {
            reveal_strlit("");
            assert(s@ =~= flagged);
        }
        match self.promotion_type() {
            Some(p) => {
                s.append("Some(");
                s.append(p.name());
                s.append(")");
            },
            None => {
                s.append("None");
            },
        }
        s.append(")");
        proof {
            assert(s@ =~= self.spec_describe());
        }
        s
    }
}

impl Default for PieceMove {
    /// The null move.
    fn default() -> (r: Self)
        ensures
            r == PieceMove::spec_null(),
    {
        PieceMove(0)
    }
}

/// What [`PieceMove::new`] packs can be read back, and the packed values of
/// different arguments differ.
pub proof fn lemma_encode(from: int, to: int, is_capture: bool, promotion: Option<PromotionType>)
    requires
        0 <= from < 64,
        0 <= to < 64,
    ensures
        0 <= encode(from, to, is_capture, promotion) < 65536,
        encode(from, to, is_capture, promotion) % 64 == from,
        (encode(from, to, is_capture, promotion) / 64) % 64 == to,
        (encode(from, to, is_capture, promotion) >= 32768) == is_capture,
        ((encode(from, to, is_capture, promotion) / 16384) % 2 == 1) == promotion.is_some(),
        promotion matches Some(p) ==> (encode(from, to, is_capture, promotion) / 4096) % 4
            == p.index(),
        promotion.is_none() ==> (encode(from, to, is_capture, promotion) / 4096) % 4 == 0,
{
}

} // verus!
