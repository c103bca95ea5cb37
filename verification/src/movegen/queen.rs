//! Queen moves.

use crate::bits::bit;
use crate::geometry::{between, same_diagonal, same_line};
use crate::model::gameboard::GameBoard;
use crate::model::piecemove::PieceMove;
use crate::movegen::list::{append_moves, ascending_from, lemma_add_block, lemma_ascending_distinct};
use crate::movegen::slider::{line_move, line_order, slide_lines};
use core::ops::Not;
use vstd::prelude::*;

verus! {

pub const MAX_QUEEN_MOVES: usize = 56;

/// A pseudo-legal queen move: a queen of the side to move goes along a rank, a file or a
/// diagonal
/// over empty squares to a square that is empty (a quiet move) or holds a
/// piece of the other side (a capture).
pub open spec fn queen_move(board: GameBoard, m: PieceMove) -> bool {
    let from = m.from_square() as int;
    let to = m.to_square() as int;
    &&& m.well_formed()
    &&& !m.is_promotion()
    &&& board.queens.has(from)
    &&& board.colour.has(from) == board.playing
    &&& from != to
    &&& (same_line(from, to) || same_diagonal(from, to))
    &&& board.path_clear(from, to)
    &&& if m.is_capture() {
        board.enemy_at(to)
    } else {
        !board.occupied(to)
    }
}

/// Where a move stands among the queen moves: the moves along ranks and
/// files before the moves along diagonals, each in the order of
/// [`line_order`].
pub open spec fn queen_order(m: PieceMove) -> int {
    if same_line(m.from_square() as int, m.to_square() as int) {
        line_order(false, m)
    } else {
        16384 + line_order(true, m)
    }
}

/// A move of a queen of the side to move along a line, in terms of the
/// board.
proof fn lemma_queen_lines(
    state: GameBoard,
    my_queens: u64,
    occ: u64,
    other_pieces: u64,
    m: PieceMove,
)
    requires
        forall|i: int| #[trigger]
            bit(my_queens, i) == (state.queens.has(i) && state.colour.has(i) == state.playing),
        forall|i: int| #[trigger] bit(occ, i) == state.occupied(i),
        forall|i: int| #[trigger] bit(other_pieces, i) == state.enemy_at(i),
    ensures
        (line_move(my_queens, occ, other_pieces, false, m) || line_move(
            my_queens,
            occ,
            other_pieces,
            true,
            m,
        )) == queen_move(state, m),
        line_move(my_queens, occ, other_pieces, false, m) ==> same_line(
            m.from_square() as int,
            m.to_square() as int,
        ),
        line_move(my_queens, occ, other_pieces, true, m) ==> !same_line(
            m.from_square() as int,
            m.to_square() as int,
        ),
{
    let from = m.from_square() as int;
    let to = m.to_square() as int;
    assert(bit(my_queens, from) == (state.queens.has(from) && state.colour.has(from)
        == state.playing));
    assert(bit(occ, to) == state.occupied(to));
    assert(bit(other_pieces, to) == state.enemy_at(to));
    assert(state.path_clear(from, to) == (forall|q: int|
        between(from, to, q) ==> !#[trigger] bit(occ, q))) by {
        if state.path_clear(from, to) {
            assert forall|q: int| between(from, to, q) implies !#[trigger] bit(occ, q) by {
                assert(!state.occupied(q));
            }
        }
        if forall|q: int| between(from, to, q) ==> !#[trigger] bit(occ, q) {
            assert forall|q: int| between(from, to, q) implies !state.occupied(q) by {
                assert(!bit(occ, q));
            }
        }
    }
}

/// The pseudo-legal queen moves of the side to move and their number, in
/// the order of [`queen_order`]: the moves along ranks and files first, then the moves along
/// diagonals.
pub fn generate_queen_moves(state: &GameBoard) -> (r: (Vec<PieceMove>, usize))
    ensures
        r.1 == r.0.len(),
        r.0@.no_duplicates(),
        forall|m: PieceMove| #[trigger] r.0@.contains(m) == queen_move(*state, m),
        ascending_from(r.0@, 0, |m: PieceMove| queen_order(m)),
{
    let all_occupied = state.combined();
    let (my_queens, other_pieces): (u64, u64) = if state.playing {
        ((state.queens & state.colour).raw(), (all_occupied & state.colour.not()).raw())
    } else {
        ((state.queens & state.colour.not()).raw(), (all_occupied & state.colour).raw())
    };
    let occ = all_occupied.raw();
    let mut moves = slide_lines(my_queens, occ, other_pieces, false);
    let ghost straight = moves@;
    let diagonal = slide_lines(my_queens, occ, other_pieces, true);
    let count = diagonal.len();
    append_moves(&mut moves, diagonal, count);
    proof {
        let key = |m: PieceMove| queen_order(m);
        assert forall|m: PieceMove| #[trigger] moves@.contains(m) == queen_move(*state, m) by {
            lemma_queen_lines(*state, my_queens, occ, other_pieces, m);
        }
        assert forall|i: int| 0 <= i < straight.len() implies key(#[trigger] straight[i])
            == line_order(false, straight[i]) by {
            assert(straight.contains(straight[i]));
        }
        assert forall|j: int| straight.len() <= j < moves@.len() implies key(#[trigger] moves@[j])
            == 16384 + line_order(true, moves@[j]) by {
            assert(moves@[j] == diagonal@[j - straight.len()]);
            assert(diagonal@.contains(diagonal@[j - straight.len()]));
        }
        assert(ascending_from(straight, 0, key)) by {
            assert forall|i: int, j: int| 0 <= i < j < straight.len() implies key(
                #[trigger] straight[i],
            ) < key(#[trigger] straight[j]) by {
                assert(line_order(false, straight[i]) < line_order(false, straight[j]));
            }
        }
        assert(ascending_from(moves@, straight.len() as int, key)) by {
            assert forall|i: int, j: int| straight.len() <= i < j < moves@.len() implies key(
                #[trigger] moves@[i],
            ) < key(#[trigger] moves@[j]) by {
                assert(line_order(true, diagonal@[i - straight.len()]) < line_order(
                    true,
                    diagonal@[j - straight.len()],
                ));
            }
        }
        assert(moves@.subrange(0, straight.len() as int) =~= straight);
        lemma_add_block(straight, moves@, key, 16384, 32768);
        lemma_ascending_distinct(moves@, key);
    }
    let total = moves.len();
    (moves, total)
}

} // verus!
