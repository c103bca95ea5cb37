//! The legality check as a value of its own: a checker borrows a position
//! and answers for moves on it.

use crate::geometry::{
    abs, ahead, file_diff, knight_jump, last_rank, pawn_attack, rank_diff, rank_of, same_diagonal,
    same_line, start_rank,
};
use crate::legal::attack::{is_square_attacked, square_attacked};
use crate::model::gameboard::{GameBoard, PieceType};
use crate::model::piecemove::PieceMove;
use vstd::prelude::*;

verus! {

pub struct LegalChecker<'a> {
    pub board: &'a GameBoard,
}

impl<'a> LegalChecker<'a> {
    pub fn new(board: &'a GameBoard) -> (r: Self)
        ensures
            r.board == board,
    {
        Self { board }
    }

    /// Whether the move is legal for the side to move: the piece on the
    /// origin is of its colour, the move has the geometry of that piece,
    /// the destination holds neither a piece of the mover nor a king, an
    /// en passant capture is in order, and the move does not leave the
    /// mover's king attacked.
    pub fn is_move_legal(&self, piece_move: &PieceMove) -> (r: bool)
        ensures
            r == self.board.legal(*piece_move),
    {
        if !self.is_correct_turn_piece(piece_move) {
            return false;
        }
        if !self.is_piece_move_valid(piece_move) {
            return false;
        }
        if !self.is_destination_valid(piece_move) {
            return false;
        }
        if !self.are_special_moves_valid(piece_move) {
            return false;
        }
        if !self.does_not_leave_king_in_check(piece_move) {
            return false;
        }
        true
    }

    /// Check if the piece being moved belongs to the player whose turn it is
    fn is_correct_turn_piece(&self, piece_move: &PieceMove) -> (r: bool)
        ensures
            r == self.board.correct_turn_piece(*piece_move),
    {
        self.board.colour.get_bit(piece_move.from_square()) == self.board.playing
    }

    /// Check if the destination square is valid (not occupied by friendly piece, not capturing king)
    fn is_destination_valid(&self, piece_move: &PieceMove) -> (r: bool)
        ensures
            r == self.board.destination_valid(*piece_move),
    {
        let to = piece_move.to_square();
        let target = self.board.get_piece(to);
        if target.is_some() && self.board.colour.get_bit(to) == self.board.playing {
            return false;
        }
        match target {
            Some(PieceType::King) => false,
            _ => true,
        }
    }

    /// Check if the piece move follows the movement rules for that piece type
    fn is_piece_move_valid(&self, piece_move: &PieceMove) -> (r: bool)
        ensures
            r == self.board.piece_move_valid(*piece_move),
    {
        let from = piece_move.from_square();
        let to = piece_move.to_square();
        let piece_type = match self.board.get_piece(from) {
            Some(pt) => pt,
            None => {
                return false;
            },
        };
        match piece_type {
            PieceType::Pawn => self.is_pawn_move_valid(piece_move),
            PieceType::Knight => self.is_knight_move_valid(from, to),
            PieceType::Bishop => self.is_bishop_move_valid(from, to),
            PieceType::Rook => self.is_rook_move_valid(from, to),
            PieceType::Queen => self.is_queen_move_valid(from, to),
            PieceType::King => self.is_king_move_valid(piece_move),
        }
    }

    /// Check if a pawn move is valid
    fn is_pawn_move_valid(&self, piece_move: &PieceMove) -> (r: bool)
        ensures
            r == self.board.pawn_move_valid(*piece_move),
    {
        let from = piece_move.from_square();
        let to = piece_move.to_square();
        let from_rank = from / 8;
        let to_rank = to / 8;
        let from_file = from % 8;
        let to_file = to % 8;
        let is_forward = (self.board.playing && to > from) || (!self.board.playing && from > to);
        let is_capture = self.board.get_piece(to).is_some() && self.board.colour.get_bit(to) != self.board.playing;
        let is_en_passant = piece_move.is_en_passant();
        let is_promotion = piece_move.is_promotion();
        if !is_forward {
            return false;
        }
        if from_file == to_file {
            return self.is_pawn_forward_move_valid(from, to, from_rank, to_rank, is_promotion);
        } else if from_file + 1 == to_file || to_file + 1 == from_file {
            return self.is_pawn_diagonal_move_valid(piece_move, is_capture, is_en_passant, to_rank);
        }
        false
    }

    /// Check if a pawn forward move is valid
    fn is_pawn_forward_move_valid(
        &self,
        from: u8,
        to: u8,
        from_rank: u8,
        to_rank: u8,
        is_promotion: bool,
    ) -> (r: bool)
        requires
            from < 64,
            to < 64,
            from_rank == from / 8,
            to_rank == to / 8,
            from % 8 == to % 8,
            (self.board.playing && to > from) || (!self.board.playing && from > to),
        ensures
            r == ({
                let mid = ahead(self.board.playing, from as int);
                &&& (to == mid && !self.board.occupied(to as int)) || (to == ahead(self.board.playing, mid)
                    && rank_of(from as int) == start_rank(self.board.playing) && !self.board.occupied(mid)
                    && !self.board.occupied(to as int))
                &&& is_promotion == (rank_of(to as int) == last_rank(self.board.playing))
            }),
    {
        let diff = if to >= from {
            to - from
        } else {
            from - to
        };
        if diff == 8 {
            if self.board.get_piece(to).is_some() {
                return false;
            }
        } else if diff == 16 && ((from_rank == 1 && self.board.playing) || (from_rank == 6
            && !self.board.playing)) {
            let mid = if self.board.playing {
                from + 8
            } else {
                from - 8
            };
            if self.board.get_piece(to).is_some() || self.board.get_piece(mid).is_some() {
                return false;
            }
        } else {
            return false;
        }
        self.is_pawn_promotion_valid(to_rank, is_promotion)
    }

    /// Check if a pawn diagonal move (capture/en passant) is valid
    fn is_pawn_diagonal_move_valid(
        &self,
        piece_move: &PieceMove,
        is_capture: bool,
        is_en_passant: bool,
        to_rank: u8,
    ) -> (r: bool)
        requires
            to_rank == piece_move.to_square() / 8,
        ensures
            r == (pawn_attack(
                self.board.playing,
                piece_move.from_square() as int,
                piece_move.to_square() as int,
            ) && (is_capture || is_en_passant) && self.board.pawn_promotion_valid(*piece_move)),
    {
        let from_rank = piece_move.from_square() / 8;
        let from_file = piece_move.from_square() % 8;
        let to_file = piece_move.to_square() % 8;
        let one_ahead = if self.board.playing {
            to_rank == from_rank + 1
        } else {
            to_rank + 1 == from_rank
        };
        let one_aside = from_file + 1 == to_file || to_file + 1 == from_file;
        if !(one_ahead && one_aside) {
            return false;
        }
        if !(is_capture || is_en_passant) {
            return false;
        }
        self.is_pawn_promotion_valid(to_rank, piece_move.is_promotion())
    }

    /// Check if pawn promotion is handled correctly
    fn is_pawn_promotion_valid(&self, to_rank: u8, is_promotion: bool) -> (r: bool)
        ensures
            r == (is_promotion == (to_rank == last_rank(self.board.playing))),
    {
        let should_promote = (to_rank == 7 && self.board.playing) || (to_rank == 0 && !self.board.playing);
        if should_promote && !is_promotion {
            return false;
        }
        if !should_promote && is_promotion {
            return false;
        }
        true
    }

    /// Check if a knight move is valid
    fn is_knight_move_valid(&self, from: u8, to: u8) -> (r: bool)
        requires
            from < 64,
            to < 64,
        ensures
            r == knight_jump(from as int, to as int),
    {
        let dr = (from / 8) as i8 - (to / 8) as i8;
        let df = (from % 8) as i8 - (to % 8) as i8;
        ((dr == 2 || dr == -2) && (df == 1 || df == -1)) || ((dr == 1 || dr == -1) && (df == 2
            || df == -2))
    }

    /// Check if a bishop move is valid
    fn is_bishop_move_valid(&self, from: u8, to: u8) -> (r: bool)
        requires
            from < 64,
            to < 64,
        ensures
            r == (same_diagonal(from as int, to as int) && self.board.path_clear(from as int, to as int)),
    {
        let dr = (from / 8) as i8 - (to / 8) as i8;
        let df = (from % 8) as i8 - (to % 8) as i8;
        if dr != df && dr != -df {
            return false;
        }
        self.board.is_path_clear(from, to)
    }

    /// Check if a rook move is valid
    fn is_rook_move_valid(&self, from: u8, to: u8) -> (r: bool)
        requires
            from < 64,
            to < 64,
        ensures
            r == (same_line(from as int, to as int) && self.board.path_clear(from as int, to as int)),
    {
        let dr = (from / 8) as i8 - (to / 8) as i8;
        let df = (from % 8) as i8 - (to % 8) as i8;
        if dr != 0 && df != 0 {
            return false;
        }
        self.board.is_path_clear(from, to)
    }

    /// Check if a queen move is valid
    fn is_queen_move_valid(&self, from: u8, to: u8) -> (r: bool)
        requires
            from < 64,
            to < 64,
        ensures
            r == ((same_diagonal(from as int, to as int) || same_line(from as int, to as int))
                && self.board.path_clear(from as int, to as int)),
    {
        let dr = (from / 8) as i8 - (to / 8) as i8;
        let df = (from % 8) as i8 - (to % 8) as i8;
        let is_diagonal = dr == df || dr == -df;
        let is_straight = dr == 0 || df == 0;
        if !(is_diagonal || is_straight) {
            return false;
        }
        self.board.is_path_clear(from, to)
    }

    /// Check if a king move is valid (including castling)
    fn is_king_move_valid(&self, piece_move: &PieceMove) -> (r: bool)
        ensures
            r == self.board.king_move_valid(*piece_move),
    {
        let from = piece_move.from_square();
        let to = piece_move.to_square();
        let dr = (from / 8) as i8 - (to / 8) as i8;
        let df = (from % 8) as i8 - (to % 8) as i8;
        if -1 <= dr && dr <= 1 && -1 <= df && df <= 1 {
            return true;
        }
        if dr == 0 && (df == 2 || df == -2) {
            return self.is_castling_valid(piece_move);
        }
        false
    }

    /// Check if castling is valid
    fn is_castling_valid(&self, piece_move: &PieceMove) -> (r: bool)
        requires
            rank_diff(piece_move.from_square() as int, piece_move.to_square() as int) == 0,
            abs(file_diff(piece_move.from_square() as int, piece_move.to_square() as int)) == 2,
        ensures
            r == self.board.castling_valid(*piece_move),
    {
        let from = piece_move.from_square();
        let to = piece_move.to_square();
        let is_kingside = to == from + 2;
        let (can_k, can_q) = if self.board.playing {
            self.board.casling_right_white()
        } else {
            self.board.casling_right_black()
        };
        if (is_kingside && !can_k) || (!is_kingside && !can_q) {
            return false;
        }
        if !self.are_castling_squares_clear(from, is_kingside) {
            return false;
        }
        self.is_castling_path_safe(from, is_kingside)
    }

    /// Check if squares between king and rook are clear for castling
    fn are_castling_squares_clear(&self, from: u8, is_kingside: bool) -> (r: bool)
        requires
            from < 64,
            is_kingside ==> from + 2 < 64,
            !is_kingside ==> from >= 2,
        ensures
            r == (if is_kingside {
                !self.board.occupied(from + 1) && !self.board.occupied(from + 2)
            } else {
                !self.board.occupied(from - 1) && !self.board.occupied(from - 2) && from >= 3
                    && !self.board.occupied(from - 3)
            }),
    {
        let occupied = self.board.combined();
        if is_kingside {
            !occupied.get_bit(from + 1) && !occupied.get_bit(from + 2)
        } else {
            !occupied.get_bit(from - 1) && !occupied.get_bit(from - 2) && from >= 3
                && !occupied.get_bit(from - 3)
        }
    }

    /// Check if king doesn't move through check during castling
    fn is_castling_path_safe(&self, from: u8, is_kingside: bool) -> (r: bool)
        requires
            is_kingside ==> from + 2 < 64,
            !is_kingside ==> from >= 2,
            from < 64,
        ensures
            r == (if is_kingside {
                !square_attacked(*self.board, from as int) && !square_attacked(*self.board, from + 1)
                    && !square_attacked(*self.board, from + 2)
            } else {
                !square_attacked(*self.board, from as int) && !square_attacked(*self.board, from - 1)
                    && !square_attacked(*self.board, from - 2)
            }),
    {
        if is_kingside {
            !is_square_attacked(self.board, from) && !is_square_attacked(self.board, from + 1)
                && !is_square_attacked(self.board, from + 2)
        } else {
            !is_square_attacked(self.board, from) && !is_square_attacked(self.board, from - 1)
                && !is_square_attacked(self.board, from - 2)
        }
    }

    /// Check if special moves are valid
    fn are_special_moves_valid(&self, piece_move: &PieceMove) -> (r: bool)
        ensures
            r == self.board.special_moves_valid(*piece_move),
    {
        if piece_move.is_en_passant() && self.board.get_piece(piece_move.to_square()).is_none() {
            return self.is_en_passant_valid(piece_move);
        }
        true
    }

    /// Check if en passant move is valid
    fn is_en_passant_valid(&self, piece_move: &PieceMove) -> (r: bool)
        ensures
            r == self.board.en_passant_valid(*piece_move),
    {
        let from = piece_move.from_square();
        let to = piece_move.to_square();
        if self.board.en_passant.is_null() {
            return false;
        }
        let ep_square = self.board.en_passant.to_square();
        if ep_square != to {
            return false;
        }
        let from_file = from % 8;
        let to_file = to % 8;
        let from_rank = from / 8;
        let to_rank = to / 8;
        let correct_forward = if self.board.playing {
            to_rank == from_rank + 1
        } else {
            to_rank + 1 == from_rank
        };
        if !(from_file + 1 == to_file || to_file + 1 == from_file) || !correct_forward {
            return false;
        }
        if self.board.get_piece(to).is_some() {
            return false;
        }
        let captured_pawn_square = if self.board.playing {
            to - 8
        } else {
            to + 8
        };
        match self.board.get_piece(captured_pawn_square) {
            Some(PieceType::Pawn) => {},
            _ => {
                return false;
            },
        }
        if self.board.colour.get_bit(captured_pawn_square) == self.board.playing {
            return false;
        }
        true
    }

    /// Check if the move doesn't leave the moving side's king in check
    fn does_not_leave_king_in_check(&self, piece_move: &PieceMove) -> (r: bool)
        requires
            self.board.can_apply(*piece_move),
        ensures
            r == self.board.king_safe_after(*piece_move),
    {
        let mut new_board = *self.board;
        new_board.apply_move_unchecked(piece_move);
        match new_board.find_king(self.board.playing) {
            Some(king_square) => !is_square_attacked(&new_board, king_square),
            None => false,
        }
    }
}

} // verus!
