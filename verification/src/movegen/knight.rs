//! Knight moves.

use crate::bits::{bit, lemma_masks, lemma_or};
use crate::constants::{FILE_A, FILE_B, FILE_G, FILE_H};
use crate::geometry::knight_jump;
use crate::model::gameboard::GameBoard;
use crate::model::piecemove::PieceMove;
use crate::movegen::leaper::{block_order, leap, leap_move, lemma_jump_block};
use crate::movegen::list::{ascending_from, lemma_ascending_distinct};
use core::ops::Not;
use vstd::prelude::*;

verus! {

pub const MAX_KNIGHT_MOVES: usize = 16;

/// A pseudo-legal knight move: a knight of the side to move jumps to a
/// square that is empty (a quiet move) or holds a piece of the other side
/// (a capture).
pub open spec fn knight_move(board: GameBoard, m: PieceMove) -> bool {
    let from = m.from_square() as int;
    let to = m.to_square() as int;
    &&& m.well_formed()
    &&& !m.is_promotion()
    &&& board.knights.has(from)
    &&& board.colour.has(from) == board.playing
    &&& knight_jump(from, to)
    &&& if m.is_capture() {
        board.enemy_at(to)
    } else {
        !board.occupied(to)
    }
}

/// Where a move stands among the knight moves: by the index offset of the
/// jump, from -17 up to 17, then captures before quiet moves, then by
/// destination.
pub open spec fn knight_order(m: PieceMove) -> int {
    512 * (m.to_square() - m.from_square() + 17) + block_order(m)
}

/// The eight jumps of a knight, each kept from wrapping around the edge of
/// the board, are the knight's jumps.
proof fn lemma_knight_jumps(
    state: GameBoard,
    my_knights: u64,
    occ: u64,
    other_pieces: u64,
    m: PieceMove,
)
    requires
        forall|i: int| #[trigger]
            bit(my_knights, i) == (state.knights.has(i) && state.colour.has(i) == state.playing),
        forall|i: int| #[trigger] bit(occ, i) == state.occupied(i),
        forall|i: int| #[trigger] bit(other_pieces, i) == state.enemy_at(i),
    ensures
        (leap_move(my_knights, occ, other_pieces, -17, FILE_A, m) || leap_move(
            my_knights,
            occ,
            other_pieces,
            -15,
            FILE_H,
            m,
        ) || leap_move(my_knights, occ, other_pieces, -10, FILE_A | FILE_B, m) || leap_move(
            my_knights,
            occ,
            other_pieces,
            -6,
            FILE_G | FILE_H,
            m,
        ) || leap_move(my_knights, occ, other_pieces, 6, FILE_A | FILE_B, m) || leap_move(
            my_knights,
            occ,
            other_pieces,
            10,
            FILE_G | FILE_H,
            m,
        ) || leap_move(my_knights, occ, other_pieces, 15, FILE_A, m) || leap_move(
            my_knights,
            occ,
            other_pieces,
            17,
            FILE_H,
            m,
        )) == knight_move(state, m),
{
    lemma_masks();
    lemma_or(FILE_A, FILE_B);
    lemma_or(FILE_G, FILE_H);
    let from = m.from_square() as int;
    let to = m.to_square() as int;
    assert(bit(my_knights, from) == (state.knights.has(from) && state.colour.has(from)
        == state.playing));
    assert(bit(occ, to) == state.occupied(to));
    assert(bit(other_pieces, to) == state.enemy_at(to));
}

/// The pseudo-legal knight moves of the side to move and their number, in
/// the order of [`knight_order`].
pub fn generate_knight_moves(state: &GameBoard) -> (r: (Vec<PieceMove>, usize))
    ensures
        r.1 == r.0.len(),
        r.0@.no_duplicates(),
        forall|m: PieceMove| #[trigger] r.0@.contains(m) == knight_move(*state, m),
        ascending_from(r.0@, 0, |m: PieceMove| knight_order(m)),
{
    let mut moves: Vec<PieceMove> = Vec::new();
    let all_occupied = state.combined();
    let (my_knights, other_pieces): (u64, u64) = if state.playing {
        ((state.knights & state.colour).raw(), (all_occupied & state.colour.not()).raw())
    } else {
        ((state.knights & state.colour.not()).raw(), (all_occupied & state.colour).raw())
    };
    let occ = all_occupied.raw();
    let ghost key = |m: PieceMove| knight_order(m);
    let ghost s0 = moves@;
    leap(&mut moves, my_knights, occ, other_pieces, -17, FILE_A);
    let ghost s1 = moves@;
    proof {
        lemma_jump_block(s0, s1, my_knights, occ, other_pieces, -17, FILE_A, key, 0);
    }
    leap(&mut moves, my_knights, occ, other_pieces, -15, FILE_H);
    let ghost s2 = moves@;
    proof {
        lemma_jump_block(s1, s2, my_knights, occ, other_pieces, -15, FILE_H, key, 2);
    }
    leap(&mut moves, my_knights, occ, other_pieces, -10, FILE_A | FILE_B);
    let ghost s3 = moves@;
    proof {
        lemma_jump_block(s2, s3, my_knights, occ, other_pieces, -10, FILE_A | FILE_B, key, 7);
    }
    leap(&mut moves, my_knights, occ, other_pieces, -6, FILE_G | FILE_H);
    let ghost s4 = moves@;
    proof {
        lemma_jump_block(s3, s4, my_knights, occ, other_pieces, -6, FILE_G | FILE_H, key, 11);
    }
    leap(&mut moves, my_knights, occ, other_pieces, 6, FILE_A | FILE_B);
    let ghost s5 = moves@;
    proof {
        lemma_jump_block(s4, s5, my_knights, occ, other_pieces, 6, FILE_A | FILE_B, key, 23);
    }
    leap(&mut moves, my_knights, occ, other_pieces, 10, FILE_G | FILE_H);
    let ghost s6 = moves@;
    proof {
        lemma_jump_block(s5, s6, my_knights, occ, other_pieces, 10, FILE_G | FILE_H, key, 27);
    }
    leap(&mut moves, my_knights, occ, other_pieces, 15, FILE_A);
    let ghost s7 = moves@;
    proof {
        lemma_jump_block(s6, s7, my_knights, occ, other_pieces, 15, FILE_A, key, 32);
    }
    leap(&mut moves, my_knights, occ, other_pieces, 17, FILE_H);
    proof {
        lemma_jump_block(s7, moves@, my_knights, occ, other_pieces, 17, FILE_H, key, 34);
        lemma_ascending_distinct(moves@, key);
        assert forall|m: PieceMove| #[trigger] moves@.contains(m) == knight_move(*state, m) by {
            lemma_knight_jumps(*state, my_knights, occ, other_pieces, m);
            assert(!s0.contains(m));
            assert(s2.contains(m) == (s1.contains(m) || leap_move(
                my_knights,
                occ,
                other_pieces,
                -15,
                FILE_H,
                m,
            )));
            assert(s4.contains(m) == (s3.contains(m) || leap_move(
                my_knights,
                occ,
                other_pieces,
                -6,
                FILE_G | FILE_H,
                m,
            )));
            assert(s6.contains(m) == (s5.contains(m) || leap_move(
                my_knights,
                occ,
                other_pieces,
                10,
                FILE_G | FILE_H,
                m,
            )));
        }
    }
    let count = moves.len();
    (moves, count)
}

} // verus!
