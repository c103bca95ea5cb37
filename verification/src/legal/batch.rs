//! A context computed once for a position: the occupancy, the pieces of the
//! side not to move, and the squares that side attacks or stands on.

use crate::bits::{bit, lemma_constants, lemma_or, lemma_single};
use crate::legal::attack::{is_square_attacked, square_attacked};
use crate::model::gameboard::GameBoard;
use vstd::prelude::*;

verus! {

pub struct BatchLegalContext {
    /// The position this context was built from.
    pub board: GameBoard,
    pub occ: u64,
    pub colour_mask: u64,
    pub opponent_pawns: u64,
    pub opponent_knights: u64,
    pub opponent_bishops: u64,
    pub opponent_rooks: u64,
    pub opponent_queens: u64,
    pub opponent_kings: u64,
    /// The squares that the side not to move attacks, together with the
    /// squares on which its pieces stand.
    pub opponent_attacks: u64,
    pub playing: bool,
}

impl BatchLegalContext {
    /// The context describes `board`: each field holds what its name says.
    pub open spec fn describes(self, board: GameBoard) -> bool {
        &&& self.board == board
        &&& self.playing == board.playing
        &&& self.colour_mask == board.colour@
        &&& forall|i: int| #[trigger] bit(self.occ, i) == board.occupied(i)
        &&& forall|i: int| #[trigger]
            bit(self.opponent_pawns, i) == (board.pawns.has(i) && board.colour.has(i)
                != board.playing)
        &&& forall|i: int| #[trigger]
            bit(self.opponent_knights, i) == (board.knights.has(i) && board.colour.has(i)
                != board.playing)
        &&& forall|i: int| #[trigger]
            bit(self.opponent_bishops, i) == (board.bishops.has(i) && board.colour.has(i)
                != board.playing)
        &&& forall|i: int| #[trigger]
            bit(self.opponent_rooks, i) == (board.rooks.has(i) && board.colour.has(i)
                != board.playing)
        &&& forall|i: int| #[trigger]
            bit(self.opponent_queens, i) == (board.queens.has(i) && board.colour.has(i)
                != board.playing)
        &&& forall|i: int| #[trigger]
            bit(self.opponent_kings, i) == (board.kings.has(i) && board.colour.has(i)
                != board.playing)
        &&& forall|i: int| #[trigger]
            bit(self.opponent_attacks, i) == (0 <= i < 64 && (square_attacked(board, i)
                || board.enemy_at(i)))
    }

    /// Build the batch context from a position.
    pub fn from_board(board: &GameBoard) -> (r: Self)
        ensures
            r.describes(*board),
    {
        let occ = board.combined().raw();
        let colour_mask = board.colour.raw();
        let opponent_white = !board.playing;
        let opponent_colour_mask: u64 = if opponent_white {
            colour_mask
        } else {
            !colour_mask
        };
        proof {
            crate::bits::lemma_not(colour_mask);
            crate::bits::lemma_and(board.pawns@, opponent_colour_mask);
            crate::bits::lemma_and(board.knights@, opponent_colour_mask);
            crate::bits::lemma_and(board.bishops@, opponent_colour_mask);
            crate::bits::lemma_and(board.rooks@, opponent_colour_mask);
            crate::bits::lemma_and(board.queens@, opponent_colour_mask);
            crate::bits::lemma_and(board.kings@, opponent_colour_mask);
        }
        let opponent_pawns = board.pawns.raw() & opponent_colour_mask;
        let opponent_knights = board.knights.raw() & opponent_colour_mask;
        let opponent_bishops = board.bishops.raw() & opponent_colour_mask;
        let opponent_rooks = board.rooks.raw() & opponent_colour_mask;
        let opponent_queens = board.queens.raw() & opponent_colour_mask;
        let opponent_kings = board.kings.raw() & opponent_colour_mask;
        // The squares that the opponent attacks.
        let mut attacks: u64 = 0;
        let mut sq: u8 = 0;
        proof {
            lemma_constants();
        }
        while sq < 64
            invariant
                0 <= sq <= 64,
                forall|i: int| #[trigger]
                    bit(attacks, i) == (0 <= i < sq && square_attacked(*board, i)),
            decreases 64 - sq,
        {
            if is_square_attacked(board, sq) {
                proof {
                    lemma_single(sq as u64);
                    lemma_or(attacks, 1u64 << (sq as u64));
                }
                attacks = attacks | (1u64 << (sq as u64));
            }
            sq = sq + 1;
        }
        // The squares on which the opponent's pieces stand count as well.
        proof {
            lemma_or(opponent_pawns, opponent_knights);
            lemma_or(opponent_pawns | opponent_knights, opponent_bishops);
            lemma_or(opponent_pawns | opponent_knights | opponent_bishops, opponent_rooks);
            lemma_or(
                opponent_pawns | opponent_knights | opponent_bishops | opponent_rooks,
                opponent_queens,
            );
            lemma_or(
                opponent_pawns | opponent_knights | opponent_bishops | opponent_rooks
                    | opponent_queens,
                opponent_kings,
            );
            lemma_or(
                attacks,
                opponent_pawns | opponent_knights | opponent_bishops | opponent_rooks
                    | opponent_queens | opponent_kings,
            );
        }
        let standing = opponent_pawns | opponent_knights | opponent_bishops | opponent_rooks
            | opponent_queens | opponent_kings;
        let all = attacks | standing;
        BatchLegalContext {
            board: *board,
            occ,
            colour_mask,
            opponent_pawns,
            opponent_knights,
            opponent_bishops,
            opponent_rooks,
            opponent_queens,
            opponent_kings,
            opponent_attacks: all,
            playing: board.playing,
        }
    }
}

} // verus!
