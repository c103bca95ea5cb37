//! Bishop moves.

use crate::bits::bit;
use crate::geometry::{between, same_diagonal};
use crate::model::gameboard::GameBoard;
use crate::model::piecemove::PieceMove;
use crate::movegen::list::{ascending_from, lemma_ascending_distinct};
use crate::movegen::slider::{line_move, line_order, slide_lines};
use core::ops::Not;
use vstd::prelude::*;

verus! {

pub const MAX_BISHOP_MOVES: usize = 28;

/// A pseudo-legal bishop move: a bishop of the side to move goes along a diagonal
/// over empty squares to a square that is empty (a quiet move) or holds a
/// piece of the other side (a capture).
pub open spec fn bishop_move(board: GameBoard, m: PieceMove) -> bool {
    let from = m.from_square() as int;
    let to = m.to_square() as int;
    &&& m.well_formed()
    &&& !m.is_promotion()
    &&& board.bishops.has(from)
    &&& board.colour.has(from) == board.playing
    &&& from != to
    &&& same_diagonal(from, to)
    &&& board.path_clear(from, to)
    &&& if m.is_capture() {
        board.enemy_at(to)
    } else {
        !board.occupied(to)
    }
}

/// A move of a bishop of the side to move along a line, in terms of the
/// board.
proof fn lemma_bishop_lines(
    state: GameBoard,
    my_bishops: u64,
    occ: u64,
    other_pieces: u64,
    m: PieceMove,
)
    requires
        forall|i: int| #[trigger]
            bit(my_bishops, i) == (state.bishops.has(i) && state.colour.has(i) == state.playing),
        forall|i: int| #[trigger] bit(occ, i) == state.occupied(i),
        forall|i: int| #[trigger] bit(other_pieces, i) == state.enemy_at(i),
    ensures
        line_move(my_bishops, occ, other_pieces, true, m) == bishop_move(state, m),
{
    let from = m.from_square() as int;
    let to = m.to_square() as int;
    assert(bit(my_bishops, from) == (state.bishops.has(from) && state.colour.has(from)
        == state.playing));
    assert(bit(occ, to) == state.occupied(to));
    assert(bit(other_pieces, to) == state.enemy_at(to));
    assert(state.path_clear(from, to) == (forall|q: int|
        between(from, to, q) ==> !#[trigger] bit(occ, q))) by {
        if state.path_clear(from, to) {
            assert forall|q: int| between(from, to, q) implies !#[trigger] bit(occ, q) by {
                assert(!state.occupied(q));
            }
        }
        if forall|q: int| between(from, to, q) ==> !#[trigger] bit(occ, q) {
            assert forall|q: int| between(from, to, q) implies !state.occupied(q) by {
                assert(!bit(occ, q));
            }
        }
    }
}

/// The pseudo-legal bishop moves of the side to move and their number, in
/// the order of [`line_order`]: by direction (up and left, up and right, down and left, down
/// and right), then by the number of steps, then captures before quiet moves,
/// then by destination.
pub fn generate_bishop_moves(state: &GameBoard) -> (r: (Vec<PieceMove>, usize))
    ensures
        r.1 == r.0.len(),
        r.0@.no_duplicates(),
        forall|m: PieceMove| #[trigger] r.0@.contains(m) == bishop_move(*state, m),
        ascending_from(r.0@, 0, |m: PieceMove| line_order(true, m)),
{
    let all_occupied = state.combined();
    let (my_bishops, other_pieces): (u64, u64) = if state.playing {
        ((state.bishops & state.colour).raw(), (all_occupied & state.colour.not()).raw())
    } else {
        ((state.bishops & state.colour.not()).raw(), (all_occupied & state.colour).raw())
    };
    let occ = all_occupied.raw();
    let moves = slide_lines(my_bishops, occ, other_pieces, true);
    proof {
        assert forall|m: PieceMove| #[trigger] moves@.contains(m) == bishop_move(*state, m) by {
            lemma_bishop_lines(*state, my_bishops, occ, other_pieces, m);
        }
        lemma_ascending_distinct(moves@, |m: PieceMove| line_order(true, m));
    }
    let count = moves.len();
    (moves, count)
}

} // verus!
