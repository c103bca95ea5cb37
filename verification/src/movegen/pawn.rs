//! Pawn moves: pushes, double pushes, captures, promotions and en passant.

use crate::bits::{bit, lemma_and, lemma_constants, lemma_masks, lemma_not, lemma_single};
use crate::constants::{FILE_A, FILE_H, RANK_1, RANK_3, RANK_6, RANK_8};
use crate::geometry::{ahead, last_rank, pawn_attack, rank_of, start_rank};
use crate::model::gameboard::GameBoard;
use crate::model::piecemove::PieceMove;
use crate::movegen::list::{
    ascending_from, lemma_ascending_distinct, lemma_target_block, push_targets, shifted,
    target_move, target_order,
};
use core::ops::Not;
use vstd::prelude::*;

verus! {

pub const MAX_PAWN_MOVES: usize = 56;

/// A pawn of the side to move advances one square onto an empty square. The
/// move promotes exactly when it lands on the last rank.
pub open spec fn pawn_push(board: GameBoard, m: PieceMove) -> bool {
    let from = m.from_square() as int;
    let to = m.to_square() as int;
    &&& to == ahead(board.playing, from)
    &&& !board.occupied(to)
    &&& !m.is_capture()
    &&& m.is_promotion() == (rank_of(to) == last_rank(board.playing))
}

/// A pawn of the side to move advances two squares from its start rank
/// over an empty square onto an empty square.
pub open spec fn pawn_double_push(board: GameBoard, m: PieceMove) -> bool {
    let from = m.from_square() as int;
    let to = m.to_square() as int;
    &&& rank_of(from) == start_rank(board.playing)
    &&& to == ahead(board.playing, ahead(board.playing, from))
    &&& !board.occupied(ahead(board.playing, from))
    &&& !board.occupied(to)
    &&& !m.is_capture()
    &&& !m.is_promotion()
}

/// A pawn of the side to move captures a piece of the other side one rank
/// ahead and one file aside. The move promotes exactly when it lands on the
/// last rank.
pub open spec fn pawn_capture(board: GameBoard, m: PieceMove) -> bool {
    let from = m.from_square() as int;
    let to = m.to_square() as int;
    &&& pawn_attack(board.playing, from, to)
    &&& board.enemy_at(to)
    &&& m.is_capture()
    &&& m.is_promotion() == (rank_of(to) == last_rank(board.playing))
}

/// A pawn of the side to move captures onto the en passant target, which
/// lies one rank ahead and one file aside. The move carries the capture
/// flag and never promotes.
pub open spec fn pawn_en_passant(board: GameBoard, m: PieceMove) -> bool {
    let from = m.from_square() as int;
    let to = m.to_square() as int;
    &&& board.en_passant != PieceMove::spec_null()
    &&& to == board.en_passant.to_square()
    &&& pawn_attack(board.playing, from, to)
    &&& m.is_capture()
    &&& !m.is_promotion()
}

/// A pseudo-legal pawn move.
pub open spec fn pawn_move(board: GameBoard, m: PieceMove) -> bool {
    let from = m.from_square() as int;
    &&& m.well_formed()
    &&& board.pawns.has(from)
    &&& board.colour.has(from) == board.playing
    &&& (pawn_push(board, m) || pawn_double_push(board, m) || pawn_capture(board, m)
        || pawn_en_passant(board, m))
}

/// The place of a pawn move among the six kinds of pawn moves: advances
/// by one square, advances by two squares, captures to the right, captures
/// to the left, en passant captures to the right and to the left, where
/// right is the side of the higher file. A capture onto the en passant
/// target counts as an en passant capture.
pub open spec fn pawn_phase(board: GameBoard, m: PieceMove) -> int {
    let offset = m.to_square() - m.from_square();
    let right = if board.playing {
        9int
    } else {
        -7
    };
    if offset == 8 || offset == -8 {
        0
    } else if offset == 16 || offset == -16 {
        1
    } else {
        (if board.en_passant != PieceMove::spec_null() && m.to_square()
            == board.en_passant.to_square() {
            4int
        } else {
            2
        }) + (if offset == right {
            0int
        } else {
            1
        })
    }
}

/// Where a move stands among the pawn moves: by its kind, then by
/// destination, and among the promotions to one destination in the order
/// queen, rook, bishop, knight.
pub open spec fn pawn_order(board: GameBoard, m: PieceMove) -> int {
    256 * pawn_phase(board, m) + target_order(m)
}

/// The squares on which the pawns of the side to move land, by kind of
/// move, and the squares on which they promote.
struct PawnTargets {
    forward: i8,
    right: i8,
    left: i8,
    single_pushes: u64,
    double_pushes: u64,
    right_captures: u64,
    left_captures: u64,
    right_en_passant: u64,
    left_en_passant: u64,
    promotions: u64,
}

impl PawnTargets {
    /// A pawn of the side to move stands on `s`.
    spec fn own_pawn(board: GameBoard, s: int) -> bool {
        board.pawns.has(s) && board.colour.has(s) == board.playing
    }

    /// The sets hold what their names say of the board.
    spec fn describes(self, board: GameBoard) -> bool {
        let en_passant = board.en_passant != PieceMove::spec_null();
        let target = board.en_passant.to_square() as int;
        &&& self.forward == (if board.playing {
            8int
        } else {
            -8
        })
        &&& self.right == (if board.playing {
            9int
        } else {
            -7
        })
        &&& self.left == (if board.playing {
            7int
        } else {
            -9
        })
        &&& forall|t: int| #[trigger]
            bit(self.promotions, t) == (0 <= t < 64 && rank_of(t) == last_rank(board.playing))
        &&& forall|t: int| #[trigger]
            bit(self.single_pushes, t) == (0 <= t < 64 && Self::own_pawn(board, t - self.forward)
                && !board.occupied(t))
        &&& forall|t: int| #[trigger]
            bit(self.double_pushes, t) == (0 <= t < 64 && Self::own_pawn(
                board,
                t - 2 * self.forward,
            ) && rank_of(t - 2 * self.forward) == start_rank(board.playing) && !board.occupied(
                t - self.forward,
            ) && !board.occupied(t))
        &&& forall|t: int| #[trigger]
            bit(self.right_captures, t) == (Self::own_pawn(board, t - self.right) && pawn_attack(
                board.playing,
                t - self.right,
                t,
            ) && board.enemy_at(t))
        &&& forall|t: int| #[trigger]
            bit(self.left_captures, t) == (Self::own_pawn(board, t - self.left) && pawn_attack(
                board.playing,
                t - self.left,
                t,
            ) && board.enemy_at(t))
        &&& forall|t: int| #[trigger]
            bit(self.right_en_passant, t) == (en_passant && t == target && Self::own_pawn(
                board,
                t - self.right,
            ) && pawn_attack(board.playing, t - self.right, t))
        &&& forall|t: int| #[trigger]
            bit(self.left_en_passant, t) == (en_passant && t == target && Self::own_pawn(
                board,
                t - self.left,
            ) && pawn_attack(board.playing, t - self.left, t))
    }
}

/// Where the pawns of the side to move land.
fn pawn_targets(state: &GameBoard) -> (r: PawnTargets)
    ensures
        r.describes(*state),
{
    let occ = state.combined().raw();
    let empty_squares = !occ;
    let white = state.playing;
    let (pawns, opponent_pieces): (u64, u64) = if white {
        ((state.pawns & state.colour).raw(), (state.combined() & state.colour.not()).raw())
    } else {
        ((state.pawns & state.colour.not()).raw(), (state.combined() & state.colour).raw())
    };
    let forward: i8 = if white {
        8
    } else {
        -8
    };
    let (right, left): (i8, i8) = if white {
        (9, 7)
    } else {
        (-7, -9)
    };
    let (third_rank, promo_rank): (u64, u64) = if white {
        (RANK_3, RANK_8)
    } else {
        (RANK_6, RANK_1)
    };
    proof {
        lemma_masks();
        lemma_not(occ);
        lemma_not(FILE_A);
        lemma_not(FILE_H);
        lemma_constants();
    }
    // 1. Single pushes: one step ahead onto an empty square.
    let ahead_one = shifted(pawns, forward);
    let single_pushes = ahead_one & empty_squares;
    // 2. Double pushes: from the start rank, over an empty square, onto an
    // empty square.
    let double_push_starts = single_pushes & third_rank;
    let ahead_two = shifted(double_push_starts, forward);
    let double_pushes = ahead_two & empty_squares;
    // 3. Captures, with the file that a wrapped square would land on taken
    // out.
    let ahead_right = shifted(pawns, right);
    let right_captures = ahead_right & opponent_pieces & !FILE_A;
    let ahead_left = shifted(pawns, left);
    let left_captures = ahead_left & opponent_pieces & !FILE_H;
    proof {
        lemma_and(ahead_one, empty_squares);
        lemma_and(single_pushes, third_rank);
        lemma_and(ahead_two, empty_squares);
        lemma_and(ahead_right, opponent_pieces);
        lemma_and(ahead_right & opponent_pieces, !FILE_A);
        lemma_and(ahead_left, opponent_pieces);
        lemma_and(ahead_left & opponent_pieces, !FILE_H);
    }
    // 4. En passant: the pawns of the side to move that attack the target.
    let mut right_en_passant: u64 = 0;
    let mut left_en_passant: u64 = 0;
    if !state.en_passant.is_null() {
        let ep_target_sq = state.en_passant.to_square();
        let ep_target_bb = 1u64 << (ep_target_sq as u64);
        proof {
            lemma_single(ep_target_sq as u64);
            lemma_and(ep_target_bb, ahead_right);
            lemma_and(ep_target_bb & ahead_right, !FILE_A);
            lemma_and(ep_target_bb, ahead_left);
            lemma_and(ep_target_bb & ahead_left, !FILE_H);
        }
        right_en_passant = ep_target_bb & ahead_right & !FILE_A;
        left_en_passant = ep_target_bb & ahead_left & !FILE_H;
    }
    let r = PawnTargets {
        forward,
        right,
        left,
        single_pushes,
        double_pushes,
        right_captures,
        left_captures,
        right_en_passant,
        left_en_passant,
        promotions: promo_rank,
    };
    proof {
        assert forall|t: int| #[trigger]
            bit(single_pushes, t) == (0 <= t < 64 && PawnTargets::own_pawn(*state, t - forward)
                && !state.occupied(t)) by {
            assert(bit(ahead_one, t) == (0 <= t < 64 && bit(pawns, t - forward)));
            assert(bit(occ, t) == state.occupied(t));
        }
        assert forall|t: int| #[trigger]
            bit(double_pushes, t) == (0 <= t < 64 && PawnTargets::own_pawn(
                *state,
                t - 2 * forward,
            ) && rank_of(t - 2 * forward) == start_rank(state.playing) && !state.occupied(
                t - forward,
            ) && !state.occupied(t)) by {
            assert(bit(ahead_two, t) == (0 <= t < 64 && bit(double_push_starts, t - forward)));
            assert(bit(ahead_one, t - forward) == (0 <= t - forward < 64 && bit(
                pawns,
                t - forward - forward,
            )));
            assert(bit(occ, t) == state.occupied(t));
            assert(bit(occ, t - forward) == state.occupied(t - forward));
        }
        assert forall|t: int| #[trigger]
            bit(right_captures, t) == (PawnTargets::own_pawn(*state, t - right) && pawn_attack(
                state.playing,
                t - right,
                t,
            ) && state.enemy_at(t)) by {
            assert(bit(ahead_right, t) == (0 <= t < 64 && bit(pawns, t - right)));
            assert(bit(opponent_pieces, t) == state.enemy_at(t));
        }
        assert forall|t: int| #[trigger]
            bit(left_captures, t) == (PawnTargets::own_pawn(*state, t - left) && pawn_attack(
                state.playing,
                t - left,
                t,
            ) && state.enemy_at(t)) by {
            assert(bit(ahead_left, t) == (0 <= t < 64 && bit(pawns, t - left)));
            assert(bit(opponent_pieces, t) == state.enemy_at(t));
        }
        let en_passant = state.en_passant != PieceMove::spec_null();
        let target = state.en_passant.to_square() as int;
        assert forall|t: int| #[trigger]
            bit(right_en_passant, t) == (en_passant && t == target && PawnTargets::own_pawn(
                *state,
                t - right,
            ) && pawn_attack(state.playing, t - right, t)) by {
            assert(bit(ahead_right, t) == (0 <= t < 64 && bit(pawns, t - right)));
        }
        assert forall|t: int| #[trigger]
            bit(left_en_passant, t) == (en_passant && t == target && PawnTargets::own_pawn(
                *state,
                t - left,
            ) && pawn_attack(state.playing, t - left, t)) by {
            assert(bit(ahead_left, t) == (0 <= t < 64 && bit(pawns, t - left)));
        }
    }
    r
}

/// The moves to the six sets of targets are the pawn moves, each set with
/// the moves of its kind.
proof fn lemma_pawn_targets(state: GameBoard, targets: PawnTargets, m: PieceMove)
    requires
        targets.describes(state),
    ensures
        target_move(targets.single_pushes, targets.forward as int, false, targets.promotions, m)
            == (m.well_formed() && PawnTargets::own_pawn(state, m.from_square() as int)
            && pawn_push(state, m)),
        target_move(targets.double_pushes, 2 * targets.forward, false, 0, m) == (m.well_formed()
            && PawnTargets::own_pawn(state, m.from_square() as int) && pawn_double_push(
            state,
            m,
        )),
        (target_move(targets.right_captures, targets.right as int, true, targets.promotions, m)
            || target_move(
            targets.left_captures,
            targets.left as int,
            true,
            targets.promotions,
            m,
        )) == (m.well_formed() && PawnTargets::own_pawn(state, m.from_square() as int)
            && pawn_capture(state, m)),
        (target_move(targets.right_en_passant, targets.right as int, true, 0, m) || target_move(
            targets.left_en_passant,
            targets.left as int,
            true,
            0,
            m,
        )) == (m.well_formed() && PawnTargets::own_pawn(state, m.from_square() as int)
            && pawn_en_passant(state, m)),
        target_move(targets.single_pushes, targets.forward as int, false, targets.promotions, m)
            ==> pawn_phase(state, m) == 0,
        target_move(targets.double_pushes, 2 * targets.forward, false, 0, m) ==> pawn_phase(
            state,
            m,
        ) == 1,
        state.wf() && target_move(
            targets.right_captures,
            targets.right as int,
            true,
            targets.promotions,
            m,
        ) ==> pawn_phase(state, m) == 2,
        state.wf() && target_move(
            targets.left_captures,
            targets.left as int,
            true,
            targets.promotions,
            m,
        ) ==> pawn_phase(state, m) == 3,
        target_move(targets.right_en_passant, targets.right as int, true, 0, m) ==> pawn_phase(
            state,
            m,
        ) == 4,
        target_move(targets.left_en_passant, targets.left as int, true, 0, m) ==> pawn_phase(
            state,
            m,
        ) == 5,
{
    lemma_constants();
    let to = m.to_square() as int;
    assert(bit(targets.single_pushes, to) == (0 <= to < 64 && PawnTargets::own_pawn(
        state,
        to - targets.forward,
    ) && !state.occupied(to)));
    assert(bit(targets.promotions, to) == (0 <= to < 64 && rank_of(to) == last_rank(
        state.playing,
    )));
}

/// The pseudo-legal pawn moves of the side to move and their number. A push
/// or capture that lands on the last rank comes as four moves, one for each
/// promotion piece, and never without promotion. In a well-formed position
/// the moves come in the order of [`pawn_order`], and so no move comes
/// twice.
pub fn generate_pawn_moves(state: &GameBoard) -> (r: (Vec<PieceMove>, usize))
    ensures
        r.1 == r.0.len(),
        forall|m: PieceMove| #[trigger] r.0@.contains(m) == pawn_move(*state, m),
        state.wf() ==> r.0@.no_duplicates(),
        state.wf() ==> ascending_from(r.0@, 0, |m: PieceMove| pawn_order(*state, m)),
{
    let mut moves: Vec<PieceMove> = Vec::new();
    let t = pawn_targets(state);
    let ghost s0 = moves@;
    push_targets(&mut moves, t.single_pushes, t.forward, false, t.promotions);
    let ghost s1 = moves@;
    push_targets(&mut moves, t.double_pushes, 2 * t.forward, false, 0);
    let ghost s2 = moves@;
    push_targets(&mut moves, t.right_captures, t.right, true, t.promotions);
    let ghost s3 = moves@;
    push_targets(&mut moves, t.left_captures, t.left, true, t.promotions);
    let ghost s4 = moves@;
    push_targets(&mut moves, t.right_en_passant, t.right, true, 0);
    let ghost s5 = moves@;
    push_targets(&mut moves, t.left_en_passant, t.left, true, 0);
    proof {
        assert forall|m: PieceMove| #[trigger] moves@.contains(m) == pawn_move(*state, m) by {
            lemma_pawn_targets(*state, t, m);
            assert(!s0.contains(m));
            assert(s2.contains(m) == (s1.contains(m) || target_move(
                t.double_pushes,
                2 * t.forward,
                false,
                0,
                m,
            )));
            assert(s3.contains(m) == (s2.contains(m) || target_move(
                t.right_captures,
                t.right as int,
                true,
                t.promotions,
                m,
            )));
            assert(s4.contains(m) == (s3.contains(m) || target_move(
                t.left_captures,
                t.left as int,
                true,
                t.promotions,
                m,
            )));
            assert(s5.contains(m) == (s4.contains(m) || target_move(
                t.right_en_passant,
                t.right as int,
                true,
                0,
                m,
            )));
        }
        if state.wf() {
            let key = |m: PieceMove| pawn_order(*state, m);
            assert forall|m: PieceMove|
                true implies (target_move(
                    t.single_pushes,
                    t.forward as int,
                    false,
                    t.promotions,
                    m,
                ) ==> #[trigger] key(m) == 256 * 0 + target_order(m)) && (target_move(
                    t.double_pushes,
                    2 * t.forward,
                    false,
                    0,
                    m,
                ) ==> key(m) == 256 * 1 + target_order(m)) && (target_move(
                    t.right_captures,
                    t.right as int,
                    true,
                    t.promotions,
                    m,
                ) ==> key(m) == 256 * 2 + target_order(m)) && (target_move(
                    t.left_captures,
                    t.left as int,
                    true,
                    t.promotions,
                    m,
                ) ==> key(m) == 256 * 3 + target_order(m)) && (target_move(
                    t.right_en_passant,
                    t.right as int,
                    true,
                    0,
                    m,
                ) ==> key(m) == 256 * 4 + target_order(m)) && (target_move(
                    t.left_en_passant,
                    t.left as int,
                    true,
                    0,
                    m,
                ) ==> key(m) == 256 * 5 + target_order(m)) by {
                lemma_pawn_targets(*state, t, m);
            }
            lemma_target_block(s0, s1, t.single_pushes, t.forward as int, false, t.promotions, key, 0);
            lemma_target_block(s1, s2, t.double_pushes, 2 * t.forward, false, 0, key, 1);
            lemma_target_block(s2, s3, t.right_captures, t.right as int, true, t.promotions, key, 2);
            lemma_target_block(s3, s4, t.left_captures, t.left as int, true, t.promotions, key, 3);
            lemma_target_block(s4, s5, t.right_en_passant, t.right as int, true, 0, key, 4);
            lemma_target_block(s5, moves@, t.left_en_passant, t.left as int, true, 0, key, 5);
            lemma_ascending_distinct(moves@, key);
        }
    }
    let count = moves.len();
    (moves, count)
}

} // verus!
