//! The position: six piece bitboards, a colour bitboard, castling rights,
//! the en passant target and the side to move.

use crate::geometry::{
    abs, ahead, between, distance, file_diff, file_of, knight_jump, last_rank, lemma_toward,
    on_board, pawn_attack, rank_diff, rank_of, same_diagonal, same_line, sign, start_rank, toward,
};
use crate::legal::attack::{is_square_attacked, square_attacked};
use crate::model::bitboard::BitBoard;
use crate::model::piecemove::{PieceMove, PromotionType};
use core::ops::Not;
use vstd::prelude::*;
use vstd::std_specs::bits::u64_trailing_zeros;

verus! {

#[derive(Clone, Copy, Debug, PartialEq, Eq, Structural)]
pub enum PieceType {
    Pawn,
    Knight,
    Bishop,
    Rook,
    Queen,
    King,
}

#[derive(Clone, Copy, Debug)]
pub struct GameBoard {
    pub pawns: BitBoard,
    pub knights: BitBoard,
    pub bishops: BitBoard,
    pub rooks: BitBoard,
    pub queens: BitBoard,
    pub kings: BitBoard,
    /// Which of the occupied squares hold a white piece. It means nothing on
    /// an empty square.
    pub colour: BitBoard,
    /// Bit 0: White may castle kingside; bit 1: White queenside; bit 2:
    /// Black kingside; bit 3: Black queenside.
    pub castling: u8,
    /// The null move, or a move whose destination is the en passant target.
    pub en_passant: PieceMove,
    /// True if it is White's turn to play.
    pub playing: bool,
}

impl Default for GameBoard {
    fn default() -> (r: Self)
        ensures
            r == GameBoard::spec_new(),
    {
        GameBoard {
            pawns: BitBoard::new(0),
            knights: BitBoard::new(0),
            bishops: BitBoard::new(0),
            rooks: BitBoard::new(0),
            queens: BitBoard::new(0),
            kings: BitBoard::new(0),
            colour: BitBoard::new(0),
            castling: 0,
            en_passant: PieceMove::null(),
            playing: true,
        }
    }
}

impl GameBoard {
    /// The empty position with White to move, no castling right and no en
    /// passant target.
    pub open spec fn spec_new() -> GameBoard {
        GameBoard {
            pawns: BitBoard { data: 0 },
            knights: BitBoard { data: 0 },
            bishops: BitBoard { data: 0 },
            rooks: BitBoard { data: 0 },
            queens: BitBoard { data: 0 },
            kings: BitBoard { data: 0 },
            colour: BitBoard { data: 0 },
            castling: 0,
            en_passant: PieceMove::spec_null(),
            playing: true,
        }
    }

    /// Whether any piece stands on `sq`.
    pub open spec fn occupied(self, sq: int) -> bool {
        self.pawns.has(sq) || self.knights.has(sq) || self.bishops.has(sq) || self.rooks.has(sq)
            || self.queens.has(sq) || self.kings.has(sq)
    }

    /// The piece on `sq`, if any. Where the bitboards of several piece types
    /// hold the square, the first in the order pawn, knight, bishop, rook,
    /// queen, king counts.
    pub open spec fn piece_at(self, sq: int) -> Option<PieceType> {
        if self.pawns.has(sq) {
            Some(PieceType::Pawn)
        } else if self.knights.has(sq) {
            Some(PieceType::Knight)
        } else if self.bishops.has(sq) {
            Some(PieceType::Bishop)
        } else if self.rooks.has(sq) {
            Some(PieceType::Rook)
        } else if self.queens.has(sq) {
            Some(PieceType::Queen)
        } else if self.kings.has(sq) {
            Some(PieceType::King)
        } else {
            None
        }
    }

    /// A piece of the side to move stands on `sq`.
    pub open spec fn own_at(self, sq: int) -> bool {
        self.occupied(sq) && self.colour.has(sq) == self.playing
    }

    /// A piece of the side not to move stands on `sq`.
    pub open spec fn enemy_at(self, sq: int) -> bool {
        self.occupied(sq) && self.colour.has(sq) != self.playing
    }

    /// The number of piece bitboards that hold `sq`.
    pub open spec fn kinds_at(self, sq: int) -> int {
        (if self.pawns.has(sq) {
            1int
        } else {
            0
        }) + (if self.knights.has(sq) {
            1int
        } else {
            0
        }) + (if self.bishops.has(sq) {
            1int
        } else {
            0
        }) + (if self.rooks.has(sq) {
            1int
        } else {
            0
        }) + (if self.queens.has(sq) {
            1int
        } else {
            0
        }) + (if self.kings.has(sq) {
            1int
        } else {
            0
        })
    }

    /// No square holds two kinds of piece.
    pub open spec fn pieces_disjoint(self) -> bool {
        forall|sq: int| #[trigger] self.kinds_at(sq) <= 1
    }

    /// The invariant of a position: no square holds two kinds of piece, and
    /// the en passant target, if there is one, is an empty square of the
    /// third or the sixth rank.
    pub open spec fn wf(self) -> bool {
        &&& self.pieces_disjoint()
        &&& self.en_passant != PieceMove::spec_null() ==> {
            &&& !self.occupied(self.en_passant.to_square() as int)
            &&& rank_of(self.en_passant.to_square() as int) == 2 || rank_of(
                self.en_passant.to_square() as int,
            ) == 5
        }
    }

    /// No piece stands strictly between `from` and `to` on the line that
    /// joins them.
    pub open spec fn path_clear(self, from: int, to: int) -> bool {
        forall|q: int|
            #![trigger between(from, to, q)]
            #![trigger self.occupied(q)]
            between(from, to, q) ==> !self.occupied(q)
    }

    pub open spec fn white_kingside_right(self) -> bool {
        self.castling & 0b0001 != 0
    }

    pub open spec fn white_queenside_right(self) -> bool {
        self.castling & 0b0010 != 0
    }

    pub open spec fn black_kingside_right(self) -> bool {
        self.castling & 0b0100 != 0
    }

    pub open spec fn black_queenside_right(self) -> bool {
        self.castling & 0b1000 != 0
    }

    /// The position after whatever stands on `sq` has left: the square is
    /// taken out of the bitboard of the piece found there and out of the
    /// colour bitboard. An empty square leaves the position as it is.
    pub open spec fn spec_clear_square(self, sq: int) -> GameBoard {
        match self.piece_at(sq) {
            None => self,
            Some(PieceType::Pawn) => GameBoard {
                pawns: self.pawns.without(sq),
                colour: self.colour.without(sq),
                ..self
            },
            Some(PieceType::Knight) => GameBoard {
                knights: self.knights.without(sq),
                colour: self.colour.without(sq),
                ..self
            },
            Some(PieceType::Bishop) => GameBoard {
                bishops: self.bishops.without(sq),
                colour: self.colour.without(sq),
                ..self
            },
            Some(PieceType::Rook) => GameBoard {
                rooks: self.rooks.without(sq),
                colour: self.colour.without(sq),
                ..self
            },
            Some(PieceType::Queen) => GameBoard {
                queens: self.queens.without(sq),
                colour: self.colour.without(sq),
                ..self
            },
            Some(PieceType::King) => GameBoard {
                kings: self.kings.without(sq),
                colour: self.colour.without(sq),
                ..self
            },
        }
    }

    /// The position after a piece of the given type and colour has been put
    /// on `sq`, in place of what stood there.
    pub open spec fn spec_set_square(self, sq: int, piece: PieceType, is_white: bool) -> GameBoard {
        let cleared = self.spec_clear_square(sq);
        let colour = if is_white {
            cleared.colour.with(sq)
        } else {
            cleared.colour.without(sq)
        };
        match piece {
            PieceType::Pawn => GameBoard { pawns: cleared.pawns.with(sq), colour, ..cleared },
            PieceType::Knight => GameBoard { knights: cleared.knights.with(sq), colour, ..cleared },
            PieceType::Bishop => GameBoard { bishops: cleared.bishops.with(sq), colour, ..cleared },
            PieceType::Rook => GameBoard { rooks: cleared.rooks.with(sq), colour, ..cleared },
            PieceType::Queen => GameBoard { queens: cleared.queens.with(sq), colour, ..cleared },
            PieceType::King => GameBoard { kings: cleared.kings.with(sq), colour, ..cleared },
        }
    }

    /// The lowest square that holds a king of the given colour, if any.
    pub open spec fn king_square(self, is_white: bool) -> Option<u8> {
        let kings = if is_white {
            self.kings@ & self.colour@
        } else {
            self.kings@ & !self.colour@
        };
        if kings != 0 {
            Some(u64_trailing_zeros(kings) as u8)
        } else {
            None
        }
    }

    pub fn new() -> (r: Self)
        ensures
            r == Self::spec_new(),
            r.wf(),
    {
        proof {
            lemma_new_wf();
        }
        GameBoard::default()
    }

    pub fn reset(&mut self)
        ensures
            *final(self) == Self::spec_new(),
    {
        *self = GameBoard::new();
    }

    /// All occupied squares.
    pub fn combined(&self) -> (r: BitBoard)
        ensures
            r@ == self.pawns@ | self.knights@ | self.bishops@ | self.rooks@ | self.queens@
                | self.kings@,
            forall|i: int|
                #![trigger r.has(i)]
                #![trigger self.occupied(i)]
                r.has(i) == self.occupied(i),
    {
        self.pawns | self.knights | self.bishops | self.rooks | self.queens | self.kings
    }

    /// The occupied squares whose colour bit differs from `desired`: the
    /// black pieces for `true`, the white pieces for `false`.
    pub fn combined_coloured(&self, desired: bool) -> (r: BitBoard)
        ensures
            forall|i: int| #[trigger]
                r.has(i) == (self.occupied(i) && self.colour.has(i) != desired),
    {
        self.combined() & (self.colour ^ desired)
    }

    /// White's castling rights: kingside, then queenside.
    pub fn casling_right_white(&self) -> (r: (bool, bool))
        ensures
            r.0 == self.white_kingside_right(),
            r.1 == self.white_queenside_right(),
    {
        ((self.castling & 0b0001) != 0, (self.castling & 0b0010) != 0)
    }

    /// Black's castling rights: kingside, then queenside.
    pub fn casling_right_black(&self) -> (r: (bool, bool))
        ensures
            r.0 == self.black_kingside_right(),
            r.1 == self.black_queenside_right(),
    {
        ((self.castling & 0b0100) != 0, (self.castling & 0b1000) != 0)
    }

    /// The lowest square that holds a king of the given colour.
    pub fn find_king(&self, is_white: bool) -> (r: Option<u8>)
        ensures
            r == self.king_square(is_white),
            r matches Some(k) ==> {
                &&& k < 64
                &&& self.kings.has(k as int)
                &&& self.colour.has(k as int) == is_white
                &&& forall|j: int|
                    self.kings.has(j) && self.colour.has(j) == is_white ==> k <= j
            },
            r.is_none() ==> forall|j: int|
                !(self.kings.has(j) && 0 <= j < 64 && self.colour.has(j) == is_white),
    {
        let king_board = if is_white {
            self.kings & self.colour
        } else {
            self.kings & self.colour.not()
        };
        if king_board.raw() != 0 {
            proof {
                crate::bits::lemma_lowest(king_board@);
            }
            Some(king_board.raw().trailing_zeros() as u8)
        } else {
            proof {
                crate::bits::lemma_zero(king_board@);
            }
            None
        }
    }

    pub fn get_piece(&self, square: u8) -> (r: Option<PieceType>)
        requires
            square < 64,
        ensures
            r == self.piece_at(square as int),
    {
        if self.pawns.get_bit(square) {
            Some(PieceType::Pawn)
        } else if self.knights.get_bit(square) {
            Some(PieceType::Knight)
        } else if self.bishops.get_bit(square) {
            Some(PieceType::Bishop)
        } else if self.rooks.get_bit(square) {
            Some(PieceType::Rook)
        } else if self.queens.get_bit(square) {
            Some(PieceType::Queen)
        } else if self.kings.get_bit(square) {
            Some(PieceType::King)
        } else {
            None
        }
    }

    /// Takes whatever stands on `square` off the board and says what it was.
    pub fn clear_square(&mut self, square: u8) -> (r: Option<PieceType>)
        requires
            square < 64,
        ensures
            r == old(self).piece_at(square as int),
            *final(self) == old(self).spec_clear_square(square as int),
            old(self).pieces_disjoint() ==> final(self).pieces_disjoint() && final(self).piece_at(
                square as int,
            ).is_none(),
    {
        proof {
            if self.pieces_disjoint() {
                lemma_clear_square(*self, square as int);
            }
        }
        let piece = match self.get_piece(square) {
            Some(p) => p,
            None => {
                return None;
            },
        };
        match piece {
            PieceType::Pawn => self.pawns.unset_bit(square),
            PieceType::Knight => self.knights.unset_bit(square),
            PieceType::Bishop => self.bishops.unset_bit(square),
            PieceType::Rook => self.rooks.unset_bit(square),
            PieceType::Queen => self.queens.unset_bit(square),
            PieceType::King => self.kings.unset_bit(square),
        }
        self.colour.unset_bit(square);
        Some(piece)
    }

    /// Puts a piece of the given type and colour on `square`, in place of
    /// what stood there.
    pub fn set_square(&mut self, square: u8, piece_type: PieceType, is_white: bool)
        requires
            square < 64,
        ensures
            *final(self) == old(self).spec_set_square(square as int, piece_type, is_white),
            old(self).pieces_disjoint() ==> final(self).pieces_disjoint() && final(self).piece_at(
                square as int,
            ) == Some(piece_type) && final(self).colour.has(square as int) == is_white,
    {
        proof {
            if self.pieces_disjoint() {
                lemma_set_square(*self, square as int, piece_type, is_white);
            }
        }
        self.clear_square(square);
        match piece_type {
            PieceType::Pawn => self.pawns.set_bit(square),
            PieceType::Knight => self.knights.set_bit(square),
            PieceType::Bishop => self.bishops.set_bit(square),
            PieceType::Rook => self.rooks.set_bit(square),
            PieceType::Queen => self.queens.set_bit(square),
            PieceType::King => self.kings.set_bit(square),
        }
        self.colour.update_bit(square, is_white);
    }

    /// The piece that a promotion selector stands for.
    pub open spec fn promoted_piece(promotion: PromotionType) -> PieceType {
        match promotion {
            PromotionType::Queen => PieceType::Queen,
            PromotionType::Rook => PieceType::Rook,
            PromotionType::Bishop => PieceType::Bishop,
            PromotionType::Knight => PieceType::Knight,
        }
    }

    /// The move is a pawn's diagonal step onto an empty square: the shape
    /// of an en passant capture, whose victim stands one rank behind the
    /// destination.
    pub open spec fn takes_en_passant(self, m: PieceMove) -> bool {
        let from = m.from_square() as int;
        let to = m.to_square() as int;
        &&& self.piece_at(from) == Some(PieceType::Pawn)
        &&& abs(file_diff(from, to)) == 1
        &&& abs(rank_diff(from, to)) == 1
        &&& self.spec_clear_square(from).piece_at(to).is_none()
    }

    /// The square of the pawn that an en passant capture onto `to` removes:
    /// one rank behind `to` as the side to move sees it.
    pub open spec fn en_passant_victim(self, to: int) -> int {
        if self.playing {
            to - 8
        } else {
            to + 8
        }
    }

    /// The position after the move has been made, with the side to move
    /// unchanged: the origin is emptied, a pawn that steps diagonally onto
    /// an empty square removes the pawn behind its destination, and the
    /// destination receives the moved piece, or the promotion piece, in the
    /// colour of the side to move.
    pub open spec fn spec_apply(self, m: PieceMove) -> GameBoard {
        let from = m.from_square() as int;
        let to = m.to_square() as int;
        let lifted = self.spec_clear_square(from);
        let captured = if self.piece_at(from) == Some(PieceType::Pawn) && abs(file_diff(from, to))
            == 1 && abs(rank_diff(from, to)) == 1 {
            if lifted.piece_at(to).is_none() {
                lifted.spec_clear_square(self.en_passant_victim(to))
            } else {
                lifted.spec_clear_square(to)
            }
        } else {
            lifted
        };
        let placed = match m.promotion_type() {
            Some(p) => Self::promoted_piece(p),
            None => self.piece_at(from).unwrap(),
        };
        captured.spec_set_square(to, placed, self.playing)
    }

    /// What [`Self::apply_move_unchecked`] needs: a piece on the origin, and
    /// for an en passant capture a victim square on the board.
    pub open spec fn can_apply(self, m: PieceMove) -> bool {
        &&& self.piece_at(m.from_square() as int).is_some()
        &&& self.takes_en_passant(m) ==> on_board(self.en_passant_victim(m.to_square() as int))
    }

    /// Stage one of the legality check: the colour bit of the origin is
    /// that of the side to move.
    pub open spec fn correct_turn_piece(self, m: PieceMove) -> bool {
        self.colour.has(m.from_square() as int) == self.playing
    }

    /// The promotion flag is set exactly for a move onto the last rank of
    /// the side to move.
    pub open spec fn pawn_promotion_valid(self, m: PieceMove) -> bool {
        m.is_promotion() == (rank_of(m.to_square() as int) == last_rank(self.playing))
    }

    /// A pawn's advance: one square ahead onto an empty square, or two
    /// squares ahead from the start rank over an empty square onto an empty
    /// square; with the promotion flag set exactly on the last rank.
    pub open spec fn pawn_forward_move_valid(self, m: PieceMove) -> bool {
        let from = m.from_square() as int;
        let to = m.to_square() as int;
        let mid = ahead(self.playing, from);
        &&& (to == mid && !self.occupied(to)) || (to == ahead(self.playing, mid) && rank_of(from)
            == start_rank(self.playing) && !self.occupied(mid) && !self.occupied(to))
        &&& self.pawn_promotion_valid(m)
    }

    /// A pawn's capture: one rank ahead and one file aside, onto a piece of
    /// the other side or with the shape of an en passant capture; with the
    /// promotion flag set exactly on the last rank.
    pub open spec fn pawn_diagonal_move_valid(self, m: PieceMove) -> bool {
        let from = m.from_square() as int;
        let to = m.to_square() as int;
        &&& pawn_attack(self.playing, from, to)
        &&& self.enemy_at(to) || m.is_en_passant()
        &&& self.pawn_promotion_valid(m)
    }

    pub open spec fn pawn_move_valid(self, m: PieceMove) -> bool {
        self.pawn_forward_move_valid(m) || self.pawn_diagonal_move_valid(m)
    }

    /// Castling as the legality check sees it: the king goes two files
    /// along its rank, the side to move holds the right for that side, the
    /// two squares towards the king's side or the three towards the queen's
    /// side are empty, and the king's square, the square it crosses and the
    /// square it lands on are not attacked.
    pub open spec fn castling_valid(self, m: PieceMove) -> bool {
        let from = m.from_square() as int;
        let to = m.to_square() as int;
        let kingside = to == from + 2;
        let towards = if kingside {
            1int
        } else {
            -1
        };
        &&& if self.playing {
            if kingside {
                self.white_kingside_right()
            } else {
                self.white_queenside_right()
            }
        } else {
            if kingside {
                self.black_kingside_right()
            } else {
                self.black_queenside_right()
            }
        }
        &&& !self.occupied(from + towards)
        &&& !self.occupied(from + 2 * towards)
        &&& kingside || (from >= 3 && !self.occupied(from - 3))
        &&& !square_attacked(self, from)
        &&& !square_attacked(self, from + towards)
        &&& !square_attacked(self, from + 2 * towards)
    }

    /// A king's move: to the same or a neighbouring square, or castling.
    pub open spec fn king_move_valid(self, m: PieceMove) -> bool {
        let from = m.from_square() as int;
        let to = m.to_square() as int;
        (abs(rank_diff(from, to)) <= 1 && abs(file_diff(from, to)) <= 1) || (rank_diff(from, to)
            == 0 && abs(file_diff(from, to)) == 2 && self.castling_valid(m))
    }

    /// Stage two of the legality check: a piece stands on the origin and
    /// the move has the geometry of that piece.
    pub open spec fn piece_move_valid(self, m: PieceMove) -> bool {
        let from = m.from_square() as int;
        let to = m.to_square() as int;
        match self.piece_at(from) {
            None => false,
            Some(PieceType::Pawn) => self.pawn_move_valid(m),
            Some(PieceType::Knight) => knight_jump(from, to),
            Some(PieceType::Bishop) => same_diagonal(from, to) && self.path_clear(from, to),
            Some(PieceType::Rook) => same_line(from, to) && self.path_clear(from, to),
            Some(PieceType::Queen) => (same_diagonal(from, to) || same_line(from, to))
                && self.path_clear(from, to),
            Some(PieceType::King) => self.king_move_valid(m),
        }
    }

    /// Stage three of the legality check: the destination holds no piece of
    /// the side to move and no king.
    pub open spec fn destination_valid(self, m: PieceMove) -> bool {
        let to = m.to_square() as int;
        !self.own_at(to) && self.piece_at(to) != Some(PieceType::King)
    }

    /// An en passant capture is in order: there is an en passant target and
    /// the move lands on it, one rank ahead and one file aside; the target
    /// is empty and behind it stands a pawn of the other side.
    pub open spec fn en_passant_valid(self, m: PieceMove) -> bool {
        let from = m.from_square() as int;
        let to = m.to_square() as int;
        &&& self.en_passant != PieceMove::spec_null()
        &&& self.en_passant.to_square() == to
        &&& pawn_attack(self.playing, from, to)
        &&& !self.occupied(to)
        &&& self.piece_at(self.en_passant_victim(to)) == Some(PieceType::Pawn)
        &&& self.colour.has(self.en_passant_victim(to)) != self.playing
    }

    /// Stage four of the legality check: a move with the shape of an en
    /// passant capture onto an empty square is an en passant capture in
    /// order.
    pub open spec fn special_moves_valid(self, m: PieceMove) -> bool {
        m.is_en_passant() && !self.occupied(m.to_square() as int) ==> self.en_passant_valid(m)
    }

    /// Stage five of the legality check: once the move is made, a king of
    /// the mover stands on the board and the lowest square that holds one is
    /// not attacked.
    pub open spec fn king_safe_after(self, m: PieceMove) -> bool {
        match self.spec_apply(m).king_square(self.playing) {
            Some(k) => !square_attacked(self.spec_apply(m), k as int),
            None => false,
        }
    }

    /// The move is legal: it passes the five stages of the check.
    pub open spec fn legal(self, m: PieceMove) -> bool {
        &&& self.correct_turn_piece(m)
        &&& self.piece_move_valid(m)
        &&& self.destination_valid(m)
        &&& self.special_moves_valid(m)
        &&& self.king_safe_after(m)
    }

    /// Check that all squares between `from` and `to` are empty (exclusive).
    pub(crate) fn is_path_clear(&self, from: u8, to: u8) -> (r: bool)
        requires
            from < 64,
            to < 64,
            same_line(from as int, to as int) || same_diagonal(from as int, to as int),
        ensures
            r == self.path_clear(from as int, to as int),
    {
        let from_rank = (from / 8) as i8;
        let from_file = (from % 8) as i8;
        let to_rank = (to / 8) as i8;
        let to_file = (to % 8) as i8;
        let dr: i8 = if to_rank > from_rank {
            1
        } else if to_rank < from_rank {
            -1
        } else {
            0
        };
        let df: i8 = if to_file > from_file {
            1
        } else if to_file < from_file {
            -1
        } else {
            0
        };
        let occupied = self.combined();
        let mut r = from_rank + dr;
        let mut f = from_file + df;
        if from == to {
            return true;
        }
        let ghost a = from as int;
        let ghost b = to as int;
        let ghost mut k: int = 1;
        proof {
            lemma_toward(a, b, 1);
        }
        while r != to_rank || f != to_file
            invariant
                a == from,
                b == to,
                same_line(a, b) || same_diagonal(a, b),
                a != b,
                to_rank == rank_of(b),
                to_file == file_of(b),
                dr == sign(rank_diff(a, b)),
                df == sign(file_diff(a, b)),
                1 <= k <= distance(a, b),
                0 <= r < 8,
                0 <= f < 8,
                8 * r + f == toward(a, b, k),
                r == rank_of(toward(a, b, k)),
                f == file_of(toward(a, b, k)),
                forall|q: int|
                    #![trigger self.occupied(q)]
                    between(a, b, q) && distance(a, q) < k ==> !self.occupied(q),
                forall|i: int| #[trigger] occupied.has(i) == self.occupied(i),
            decreases distance(a, b) - k,
        {
            let sq = (r * 8 + f) as u8;
            proof {
                lemma_toward(a, b, k);
            }
            if occupied.get_bit(sq) {
                proof {
                    assert(between(a, b, sq as int));
                }
                return false;
            }
            proof {
                lemma_toward(a, b, k + 1);
            }
            r = r + dr;
            f = f + df;
            proof {
                k = k + 1;
            }
        }
        proof {
            lemma_toward(a, b, k);
            assert forall|q: int| between(a, b, q) implies !self.occupied(q) by {
                assert(distance(a, q) < distance(a, b));
            }
        }
        true
    }

    /// Whether the move is legal for the side to move: the piece on the
    /// origin is of its colour, the move has the geometry of that piece,
    /// the destination holds neither a piece of the mover nor a king, an
    /// en passant capture is in order, and the move does not leave the
    /// mover's king attacked.
    pub fn is_move_legal(&self, piece_move: &PieceMove) -> (r: bool)
        ensures
            r == self.legal(*piece_move),
    {
        if !self.is_correct_turn_piece(piece_move) {
            return false;
        }
        if !self.is_piece_move_valid(piece_move) {
            return false;
        }
        if !self.is_destination_valid(piece_move) {
            return false;
        }
        if !self.are_special_moves_valid(piece_move) {
            return false;
        }
        if !self.does_not_leave_king_in_check(piece_move) {
            return false;
        }
        true
    }

    /// Check if the piece being moved belongs to the player whose turn it is
    pub(crate) fn is_correct_turn_piece(&self, piece_move: &PieceMove) -> (r: bool)
        ensures
            r == self.correct_turn_piece(*piece_move),
    {
        self.colour.get_bit(piece_move.from_square()) == self.playing
    }

    /// Check if the destination square is valid (not occupied by friendly piece, not capturing king)
    pub(crate) fn is_destination_valid(&self, piece_move: &PieceMove) -> (r: bool)
        ensures
            r == self.destination_valid(*piece_move),
    {
        let to = piece_move.to_square();
        let target = self.get_piece(to);
        if target.is_some() && self.colour.get_bit(to) == self.playing {
            return false;
        }
        match target {
            Some(PieceType::King) => false,
            _ => true,
        }
    }

    /// Check if the piece move follows the movement rules for that piece type
    pub(crate) fn is_piece_move_valid(&self, piece_move: &PieceMove) -> (r: bool)
        ensures
            r == self.piece_move_valid(*piece_move),
    {
        let from = piece_move.from_square();
        let to = piece_move.to_square();
        let piece_type = match self.get_piece(from) {
            Some(pt) => pt,
            None => {
                return false;
            },
        };
        match piece_type {
            PieceType::Pawn => self.is_pawn_move_valid(piece_move),
            PieceType::Knight => self.is_knight_move_valid(from, to),
            PieceType::Bishop => self.is_bishop_move_valid(from, to),
            PieceType::Rook => self.is_rook_move_valid(from, to),
            PieceType::Queen => self.is_queen_move_valid(from, to),
            PieceType::King => self.is_king_move_valid(piece_move),
        }
    }

    /// Check if a pawn move is valid
    pub(crate) fn is_pawn_move_valid(&self, piece_move: &PieceMove) -> (r: bool)
        ensures
            r == self.pawn_move_valid(*piece_move),
    {
        let from = piece_move.from_square();
        let to = piece_move.to_square();
        let from_rank = from / 8;
        let to_rank = to / 8;
        let from_file = from % 8;
        let to_file = to % 8;
        let is_forward = (self.playing && to > from) || (!self.playing && from > to);
        let is_capture = self.get_piece(to).is_some() && self.colour.get_bit(to) != self.playing;
        let is_en_passant = piece_move.is_en_passant();
        let is_promotion = piece_move.is_promotion();
        if !is_forward {
            return false;
        }
        if from_file == to_file {
            return self.is_pawn_forward_move_valid(from, to, from_rank, to_rank, is_promotion);
        } else if from_file + 1 == to_file || to_file + 1 == from_file {
            return self.is_pawn_diagonal_move_valid(piece_move, is_capture, is_en_passant, to_rank);
        }
        false
    }

    /// Check if a pawn forward move is valid
    pub(crate) fn is_pawn_forward_move_valid(
        &self,
        from: u8,
        to: u8,
        from_rank: u8,
        to_rank: u8,
        is_promotion: bool,
    ) -> (r: bool)
        requires
            from < 64,
            to < 64,
            from_rank == from / 8,
            to_rank == to / 8,
            from % 8 == to % 8,
            (self.playing && to > from) || (!self.playing && from > to),
        ensures
            r == ({
                let mid = ahead(self.playing, from as int);
                &&& (to == mid && !self.occupied(to as int)) || (to == ahead(self.playing, mid)
                    && rank_of(from as int) == start_rank(self.playing) && !self.occupied(mid)
                    && !self.occupied(to as int))
                &&& is_promotion == (rank_of(to as int) == last_rank(self.playing))
            }),
    {
        let diff = if to >= from {
            to - from
        } else {
            from - to
        };
        if diff == 8 {
            if self.get_piece(to).is_some() {
                return false;
            }
        } else if diff == 16 && ((from_rank == 1 && self.playing) || (from_rank == 6
            && !self.playing)) {
            let mid = if self.playing {
                from + 8
            } else {
                from - 8
            };
            if self.get_piece(to).is_some() || self.get_piece(mid).is_some() {
                return false;
            }
        } else {
            return false;
        }
        self.is_pawn_promotion_valid(to_rank, is_promotion)
    }

    /// Check if a pawn diagonal move (capture/en passant) is valid
    pub(crate) fn is_pawn_diagonal_move_valid(
        &self,
        piece_move: &PieceMove,
        is_capture: bool,
        is_en_passant: bool,
        to_rank: u8,
    ) -> (r: bool)
        requires
            to_rank == piece_move.to_square() / 8,
        ensures
            r == (pawn_attack(
                self.playing,
                piece_move.from_square() as int,
                piece_move.to_square() as int,
            ) && (is_capture || is_en_passant) && self.pawn_promotion_valid(*piece_move)),
    {
        let from_rank = piece_move.from_square() / 8;
        let from_file = piece_move.from_square() % 8;
        let to_file = piece_move.to_square() % 8;
        let one_ahead = if self.playing {
            to_rank == from_rank + 1
        } else {
            to_rank + 1 == from_rank
        };
        let one_aside = from_file + 1 == to_file || to_file + 1 == from_file;
        if !(one_ahead && one_aside) {
            return false;
        }
        if !(is_capture || is_en_passant) {
            return false;
        }
        self.is_pawn_promotion_valid(to_rank, piece_move.is_promotion())
    }

    /// Check if pawn promotion is handled correctly
    pub(crate) fn is_pawn_promotion_valid(&self, to_rank: u8, is_promotion: bool) -> (r: bool)
        ensures
            r == (is_promotion == (to_rank == last_rank(self.playing))),
    {
        let should_promote = (to_rank == 7 && self.playing) || (to_rank == 0 && !self.playing);
        if should_promote && !is_promotion {
            return false;
        }
        if !should_promote && is_promotion {
            return false;
        }
        true
    }

    /// Check if a knight move is valid
    pub(crate) fn is_knight_move_valid(&self, from: u8, to: u8) -> (r: bool)
        requires
            from < 64,
            to < 64,
        ensures
            r == knight_jump(from as int, to as int),
    {
        let dr = (from / 8) as i8 - (to / 8) as i8;
        let df = (from % 8) as i8 - (to % 8) as i8;
        ((dr == 2 || dr == -2) && (df == 1 || df == -1)) || ((dr == 1 || dr == -1) && (df == 2
            || df == -2))
    }

    /// Check if a bishop move is valid
    pub(crate) fn is_bishop_move_valid(&self, from: u8, to: u8) -> (r: bool)
        requires
            from < 64,
            to < 64,
        ensures
            r == (same_diagonal(from as int, to as int) && self.path_clear(from as int, to as int)),
    {
        let dr = (from / 8) as i8 - (to / 8) as i8;
        let df = (from % 8) as i8 - (to % 8) as i8;
        if dr != df && dr != -df {
            return false;
        }
        self.is_path_clear(from, to)
    }

    /// Check if a rook move is valid
    pub(crate) fn is_rook_move_valid(&self, from: u8, to: u8) -> (r: bool)
        requires
            from < 64,
            to < 64,
        ensures
            r == (same_line(from as int, to as int) && self.path_clear(from as int, to as int)),
    {
        let dr = (from / 8) as i8 - (to / 8) as i8;
        let df = (from % 8) as i8 - (to % 8) as i8;
        if dr != 0 && df != 0 {
            return false;
        }
        self.is_path_clear(from, to)
    }

    /// Check if a queen move is valid
    pub(crate) fn is_queen_move_valid(&self, from: u8, to: u8) -> (r: bool)
        requires
            from < 64,
            to < 64,
        ensures
            r == ((same_diagonal(from as int, to as int) || same_line(from as int, to as int))
                && self.path_clear(from as int, to as int)),
    {
        let dr = (from / 8) as i8 - (to / 8) as i8;
        let df = (from % 8) as i8 - (to % 8) as i8;
        let is_diagonal = dr == df || dr == -df;
        let is_straight = dr == 0 || df == 0;
        if !(is_diagonal || is_straight) {
            return false;
        }
        self.is_path_clear(from, to)
    }

    /// Check if a king move is valid (including castling)
    pub(crate) fn is_king_move_valid(&self, piece_move: &PieceMove) -> (r: bool)
        ensures
            r == self.king_move_valid(*piece_move),
    {
        let from = piece_move.from_square();
        let to = piece_move.to_square();
        let dr = (from / 8) as i8 - (to / 8) as i8;
        let df = (from % 8) as i8 - (to % 8) as i8;
        if -1 <= dr && dr <= 1 && -1 <= df && df <= 1 {
            return true;
        }
        if dr == 0 && (df == 2 || df == -2) {
            return self.is_castling_valid(piece_move);
        }
        false
    }

    /// Check if castling is valid
    pub(crate) fn is_castling_valid(&self, piece_move: &PieceMove) -> (r: bool)
        requires
            rank_diff(piece_move.from_square() as int, piece_move.to_square() as int) == 0,
            abs(file_diff(piece_move.from_square() as int, piece_move.to_square() as int)) == 2,
        ensures
            r == self.castling_valid(*piece_move),
    {
        let from = piece_move.from_square();
        let to = piece_move.to_square();
        let is_kingside = to == from + 2;
        let (can_k, can_q) = if self.playing {
            self.casling_right_white()
        } else {
            self.casling_right_black()
        };
        if (is_kingside && !can_k) || (!is_kingside && !can_q) {
            return false;
        }
        if !self.are_castling_squares_clear(from, is_kingside) {
            return false;
        }
        self.is_castling_path_safe(from, is_kingside)
    }

    /// Check if squares between king and rook are clear for castling
    pub(crate) fn are_castling_squares_clear(&self, from: u8, is_kingside: bool) -> (r: bool)
        requires
            from < 64,
            is_kingside ==> from + 2 < 64,
            !is_kingside ==> from >= 2,
        ensures
            r == (if is_kingside {
                !self.occupied(from + 1) && !self.occupied(from + 2)
            } else {
                !self.occupied(from - 1) && !self.occupied(from - 2) && from >= 3
                    && !self.occupied(from - 3)
            }),
    {
        let occupied = self.combined();
        if is_kingside {
            !occupied.get_bit(from + 1) && !occupied.get_bit(from + 2)
        } else {
            !occupied.get_bit(from - 1) && !occupied.get_bit(from - 2) && from >= 3
                && !occupied.get_bit(from - 3)
        }
    }

    /// Check if king doesn't move through check during castling
    pub(crate) fn is_castling_path_safe(&self, from: u8, is_kingside: bool) -> (r: bool)
        requires
            is_kingside ==> from + 2 < 64,
            !is_kingside ==> from >= 2,
            from < 64,
        ensures
            r == (if is_kingside {
                !square_attacked(*self, from as int) && !square_attacked(*self, from + 1)
                    && !square_attacked(*self, from + 2)
            } else {
                !square_attacked(*self, from as int) && !square_attacked(*self, from - 1)
                    && !square_attacked(*self, from - 2)
            }),
    {
        if is_kingside {
            !is_square_attacked(self, from) && !is_square_attacked(self, from + 1)
                && !is_square_attacked(self, from + 2)
        } else {
            !is_square_attacked(self, from) && !is_square_attacked(self, from - 1)
                && !is_square_attacked(self, from - 2)
        }
    }

    /// Check if special moves are valid
    pub(crate) fn are_special_moves_valid(&self, piece_move: &PieceMove) -> (r: bool)
        ensures
            r == self.special_moves_valid(*piece_move),
    {
        if piece_move.is_en_passant() && self.get_piece(piece_move.to_square()).is_none() {
            return self.is_en_passant_valid(piece_move);
        }
        true
    }

    /// Check if en passant move is valid
    pub(crate) fn is_en_passant_valid(&self, piece_move: &PieceMove) -> (r: bool)
        ensures
            r == self.en_passant_valid(*piece_move),
    {
        let from = piece_move.from_square();
        let to = piece_move.to_square();
        if self.en_passant.is_null() {
            return false;
        }
        let ep_square = self.en_passant.to_square();
        if ep_square != to {
            return false;
        }
        let from_file = from % 8;
        let to_file = to % 8;
        let from_rank = from / 8;
        let to_rank = to / 8;
        let correct_forward = if self.playing {
            to_rank == from_rank + 1
        } else {
            to_rank + 1 == from_rank
        };
        if !(from_file + 1 == to_file || to_file + 1 == from_file) || !correct_forward {
            return false;
        }
        if self.get_piece(to).is_some() {
            return false;
        }
        let captured_pawn_square = if self.playing {
            to - 8
        } else {
            to + 8
        };
        match self.get_piece(captured_pawn_square) {
            Some(PieceType::Pawn) => {},
            _ => {
                return false;
            },
        }
        if self.colour.get_bit(captured_pawn_square) == self.playing {
            return false;
        }
        true
    }

    /// Check if the move doesn't leave the moving side's king in check
    pub(crate) fn does_not_leave_king_in_check(&self, piece_move: &PieceMove) -> (r: bool)
        requires
            self.can_apply(*piece_move),
        ensures
            r == self.king_safe_after(*piece_move),
    {
        let mut new_board = *self;
        new_board.apply_move_unchecked(piece_move);
        match new_board.find_king(self.playing) {
            Some(king_square) => !is_square_attacked(&new_board, king_square),
            None => false,
        }
    }

    /// Apply a move to the board without any legality checks. This does not
    /// switch turns: the caller is responsible for that.
    pub(crate) fn apply_move_unchecked(&mut self, piece_move: &PieceMove)
        requires
            old(self).can_apply(*piece_move),
        ensures
            *final(self) == old(self).spec_apply(*piece_move),
            old(self).pieces_disjoint() ==> final(self).pieces_disjoint(),
    {
        let from_square = piece_move.from_square();
        let to_square = piece_move.to_square();
        let piece = match self.clear_square(from_square) {
            Some(p) => p,
            None => {
                return ;
            },
        };
        if piece == PieceType::Pawn {
            let from_file = from_square % 8;
            let to_file = to_square % 8;
            let from_rank = from_square / 8;
            let to_rank = to_square / 8;
            if (from_file + 1 == to_file || to_file + 1 == from_file) && (from_rank + 1 == to_rank
                || to_rank + 1 == from_rank) {
                if self.clear_square(to_square).is_none() {
                    let captured_pawn_square = if self.playing {
                        to_square - 8
                    } else {
                        to_square + 8
                    };
                    self.clear_square(captured_pawn_square);
                }
            }
        }
        let playing = self.playing;
        match piece_move.promotion_type() {
            Some(promotion_type) => {
                self.set_square(
                    to_square,
                    match promotion_type {
                        PromotionType::Queen => PieceType::Queen,
                        PromotionType::Rook => PieceType::Rook,
                        PromotionType::Bishop => PieceType::Bishop,
                        PromotionType::Knight => PieceType::Knight,
                    },
                    playing,
                );
            },
            None => {
                self.set_square(to_square, piece, playing);
            },
        }
    }

    /// Makes the move if it is legal and hands the turn to the other side;
    /// leaves the position as it is and returns `None` if the move is
    /// illegal.
    pub fn move_piece(&mut self, piece_move: &PieceMove) -> (r: Option<()>)
        ensures
            r.is_some() == old(self).legal(*piece_move),
            old(self).legal(*piece_move) ==> *final(self) == (GameBoard {
                playing: !old(self).playing,
                ..old(self).spec_apply(*piece_move)
            }),
            !old(self).legal(*piece_move) ==> *final(self) == *old(self),
            old(self).pieces_disjoint() ==> final(self).pieces_disjoint(),
    {
        if !self.is_move_legal(piece_move) {
            return None;
        }
        self.apply_move_unchecked(piece_move);
        let ghost applied = *self;
        self.playing = !self.playing;
        proof {
            if old(self).pieces_disjoint() {
                assert forall|sq: int| #[trigger] self.kinds_at(sq) <= 1 by {
                    assert(applied.kinds_at(sq) <= 1);
                }
            }
        }
        Some(())
    }
}

/// The empty position is well-formed.
pub proof fn lemma_new_wf()
    ensures
        GameBoard::spec_new().wf(),
{
    crate::bits::lemma_constants();
    assert forall|sq: int| #[trigger] GameBoard::spec_new().kinds_at(sq) <= 1 by {
    }
}

/// What [`GameBoard::spec_clear_square`] leaves on each square of a position
/// in which no square holds two kinds of piece.
pub proof fn lemma_clear_square(board: GameBoard, sq: int)
    requires
        0 <= sq < 64,
        board.pieces_disjoint(),
    ensures
        board.spec_clear_square(sq).pieces_disjoint(),
        forall|j: int| #[trigger]
            board.spec_clear_square(sq).piece_at(j) == (if j == sq {
                None
            } else {
                board.piece_at(j)
            }),
        forall|j: int|
            j != sq ==> #[trigger] board.spec_clear_square(sq).colour.has(j) == board.colour.has(
                j,
            ),
        board.spec_clear_square(sq).castling == board.castling,
        board.spec_clear_square(sq).en_passant == board.en_passant,
        board.spec_clear_square(sq).playing == board.playing,
{
    board.pawns.lemma_with_without(sq);
    board.knights.lemma_with_without(sq);
    board.bishops.lemma_with_without(sq);
    board.rooks.lemma_with_without(sq);
    board.queens.lemma_with_without(sq);
    board.kings.lemma_with_without(sq);
    board.colour.lemma_with_without(sq);
    let after = board.spec_clear_square(sq);
    assert(board.kinds_at(sq) <= 1);
    assert forall|j: int| #[trigger] after.piece_at(j) == (if j == sq {
        None
    } else {
        board.piece_at(j)
    }) by {
        if 0 <= j < 64 {
            assert(board.kinds_at(j) <= 1);
        }
    }
    assert forall|j: int| #[trigger] after.kinds_at(j) <= 1 by {
        assert(board.kinds_at(j) <= 1);
    }
}

/// What [`GameBoard::spec_set_square`] leaves on each square of a position in
/// which no square holds two kinds of piece.
pub proof fn lemma_set_square(board: GameBoard, sq: int, piece: PieceType, is_white: bool)
    requires
        0 <= sq < 64,
        board.pieces_disjoint(),
    ensures
        board.spec_set_square(sq, piece, is_white).pieces_disjoint(),
        forall|j: int| #[trigger]
            board.spec_set_square(sq, piece, is_white).piece_at(j) == (if j == sq {
                Some(piece)
            } else {
                board.piece_at(j)
            }),
        forall|j: int| #[trigger]
            board.spec_set_square(sq, piece, is_white).colour.has(j) == (if j == sq {
                is_white
            } else {
                board.colour.has(j)
            }),
        board.spec_set_square(sq, piece, is_white).castling == board.castling,
        board.spec_set_square(sq, piece, is_white).en_passant == board.en_passant,
        board.spec_set_square(sq, piece, is_white).playing == board.playing,
{
    lemma_clear_square(board, sq);
    let cleared = board.spec_clear_square(sq);
    cleared.pawns.lemma_with_without(sq);
    cleared.knights.lemma_with_without(sq);
    cleared.bishops.lemma_with_without(sq);
    cleared.rooks.lemma_with_without(sq);
    cleared.queens.lemma_with_without(sq);
    cleared.kings.lemma_with_without(sq);
    cleared.colour.lemma_with_without(sq);
    board.colour.lemma_with_without(sq);
    let after = board.spec_set_square(sq, piece, is_white);
    assert(cleared.piece_at(sq).is_none());
    assert forall|j: int| #[trigger] after.piece_at(j) == (if j == sq {
        Some(piece)
    } else {
        board.piece_at(j)
    }) by {
        if 0 <= j < 64 {
            assert(cleared.kinds_at(j) <= 1);
            assert(cleared.piece_at(j) == if j == sq {
                None
            } else {
                board.piece_at(j)
            });
        }
    }
    assert forall|j: int| #[trigger] after.kinds_at(j) <= 1 by {
        assert(cleared.kinds_at(j) <= 1);
        assert(cleared.piece_at(j) == if j == sq {
            None
        } else {
            board.piece_at(j)
        });
    }
    assert forall|j: int| #[trigger] after.colour.has(j) == (if j == sq {
        is_white
    } else {
        board.colour.has(j)
    }) by {
        if j != sq {
            assert(cleared.colour.has(j) == board.colour.has(j));
        }
    }
}

} // verus!
