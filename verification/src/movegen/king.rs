//! King moves, castling included.

use crate::bits::{bit, lemma_masks};
use crate::constants::{E1, E8, FILE_A, FILE_H};
use crate::geometry::{between, king_step};
use crate::legal::attack::{is_square_attacked, square_attacked};
use crate::model::gameboard::GameBoard;
use crate::model::piecemove::PieceMove;
use crate::movegen::leaper::{block_order, leap, leap_move, lemma_jump_block};
use crate::movegen::list::{add_move_to_list, ascending_from, lemma_add_block};
use core::ops::Not;
use vstd::prelude::*;

verus! {

pub const MAX_KING_MOVES: usize = 8;

/// A king of the side to move steps to a neighbouring square that is empty
/// (a quiet move) or holds a piece of the other side (a capture).
pub open spec fn king_step_move(board: GameBoard, m: PieceMove) -> bool {
    let from = m.from_square() as int;
    let to = m.to_square() as int;
    &&& board.kings.has(from)
    &&& board.colour.has(from) == board.playing
    &&& king_step(from, to)
    &&& if m.is_capture() {
        board.enemy_at(to)
    } else {
        !board.occupied(to)
    }
}

/// What castling needs on the board: the king and a rook of the side to
/// move on their squares, nothing between them, and neither the king's
/// square nor the square it crosses nor the one it lands on attacked.
pub open spec fn castling_ready(board: GameBoard, king_from: int, rook_from: int, king_to: int)
    -> bool {
    &&& board.kings.has(king_from) && board.colour.has(king_from) == board.playing
    &&& board.rooks.has(rook_from) && board.colour.has(rook_from) == board.playing
    &&& board.path_clear(king_from, rook_from)
    &&& !square_attacked(board, king_from)
    &&& !square_attacked(board, king_to)
    &&& forall|q: int| between(king_from, king_to, q) ==> !#[trigger] square_attacked(board, q)
}

/// Whether the side to move holds the right to castle to the given side.
pub open spec fn castling_right(board: GameBoard, kingside: bool) -> bool {
    if board.playing {
        if kingside {
            board.white_kingside_right()
        } else {
            board.white_queenside_right()
        }
    } else {
        if kingside {
            board.black_kingside_right()
        } else {
            board.black_queenside_right()
        }
    }
}

/// The king's square before castling: e1 for White, e8 for Black.
pub open spec fn castling_king_from(white: bool) -> int {
    if white {
        4
    } else {
        60
    }
}

/// The king's square after castling: g1 or c1 for White, g8 or c8 for
/// Black.
pub open spec fn castling_king_to(white: bool, kingside: bool) -> int {
    castling_king_from(white) + if kingside {
        2int
    } else {
        -2
    }
}

/// The rook's square before castling: h1 or a1 for White, h8 or a8 for
/// Black.
pub open spec fn castling_rook_from(white: bool, kingside: bool) -> int {
    castling_king_from(white) + if kingside {
        3int
    } else {
        -4
    }
}

/// A castling move of the side to move to the given side: the king goes two
/// files towards the rook, the right is held and the board is ready.
pub open spec fn castle_move(board: GameBoard, kingside: bool, m: PieceMove) -> bool {
    &&& !m.is_capture()
    &&& m.from_square() == castling_king_from(board.playing)
    &&& m.to_square() == castling_king_to(board.playing, kingside)
    &&& castling_right(board, kingside)
    &&& castling_ready(
        board,
        castling_king_from(board.playing),
        castling_rook_from(board.playing, kingside),
        castling_king_to(board.playing, kingside),
    )
}

/// A pseudo-legal king move: a step to a neighbouring square, or castling.
pub open spec fn king_move(board: GameBoard, m: PieceMove) -> bool {
    &&& m.well_formed()
    &&& !m.is_promotion()
    &&& (king_step_move(board, m) || castle_move(board, true, m) || castle_move(board, false, m))
}

/// Whether the board is ready for the side to move to castle with the king
/// on `king_from` and the rook on `rook_from`, two files apart or more on
/// one rank, the king landing on `king_to`, two files towards the rook.
fn castling_allowed(state: &GameBoard, kingside: bool) -> (r: bool)
    ensures
        r == castling_ready(
            *state,
            castling_king_from(state.playing),
            castling_rook_from(state.playing, kingside),
            castling_king_to(state.playing, kingside),
        ),
{
    let king_from: u8 = if state.playing {
        E1
    } else {
        E8
    };
    let (rook_from, transit, king_to): (u8, u8, u8) = if kingside {
        (king_from + 3, king_from + 1, king_from + 2)
    } else {
        (king_from - 4, king_from - 1, king_from - 2)
    };
    let occupied = state.combined();
    if !(state.kings.get_bit(king_from) && state.colour.get_bit(king_from) == state.playing) {
        return false;
    }
    if !(state.rooks.get_bit(rook_from) && state.colour.get_bit(rook_from) == state.playing) {
        return false;
    }
    // Nothing may stand between the king and the rook.
    let clear = if kingside {
        !occupied.get_bit(king_from + 1) && !occupied.get_bit(king_from + 2)
    } else {
        !occupied.get_bit(king_from - 1) && !occupied.get_bit(king_from - 2) && !occupied.get_bit(
            king_from - 3,
        )
    };
    proof {
        let kf = king_from as int;
        let rf = rook_from as int;
        if clear {
            assert forall|q: int| between(kf, rf, q) implies !state.occupied(q) by {
                assert(q == kf + 1 || q == kf + 2 || q == kf - 1 || q == kf - 2 || q == kf - 3);
            }
        } else {
            if kingside {
                assert(between(kf, rf, kf + 1) && between(kf, rf, kf + 2));
            } else {
                assert(between(kf, rf, kf - 1) && between(kf, rf, kf - 2) && between(
                    kf,
                    rf,
                    kf - 3,
                ));
            }
        }
    }
    if !clear {
        return false;
    }
    // The king may not castle out of, through or into an attack.
    let safe = !is_square_attacked(state, king_from) && !is_square_attacked(state, transit)
        && !is_square_attacked(state, king_to);
    proof {
        let kf = king_from as int;
        let kt = king_to as int;
        assert(between(kf, kt, transit as int));
        assert forall|q: int| between(kf, kt, q) implies q == transit by {
        }
    }
    safe
}

/// The place of a king's move among the king moves by its index offset:
/// the steps down, down and right, right, up and right, up, up and left,
/// left, down and left, then castling to the queen's side and to the king's
/// side.
pub open spec fn king_rank(offset: int) -> int {
    if offset == -8 {
        0
    } else if offset == -7 {
        1
    } else if offset == 1 {
        2
    } else if offset == 9 {
        3
    } else if offset == 8 {
        4
    } else if offset == 7 {
        5
    } else if offset == -1 {
        6
    } else if offset == -9 {
        7
    } else if offset == -2 {
        8
    } else {
        9
    }
}

/// Where a move stands among the king moves: by the place of its index
/// offset, then captures before quiet moves, then by destination.
pub open spec fn king_order(m: PieceMove) -> int {
    512 * king_rank(m.to_square() - m.from_square()) + block_order(m)
}

/// The eight jumps of a king, each kept from wrapping around the edge of
/// the board, are the steps to the neighbouring squares.
proof fn lemma_king_jumps(
    state: GameBoard,
    my_king: u64,
    occ: u64,
    other_pieces: u64,
    m: PieceMove,
)
    requires
        forall|i: int| #[trigger]
            bit(my_king, i) == (state.kings.has(i) && state.colour.has(i) == state.playing),
        forall|i: int| #[trigger] bit(occ, i) == state.occupied(i),
        forall|i: int| #[trigger] bit(other_pieces, i) == state.enemy_at(i),
    ensures
        (leap_move(my_king, occ, other_pieces, -8, 0, m) || leap_move(
            my_king,
            occ,
            other_pieces,
            -7,
            FILE_H,
            m,
        ) || leap_move(my_king, occ, other_pieces, 1, FILE_H, m) || leap_move(
            my_king,
            occ,
            other_pieces,
            9,
            FILE_H,
            m,
        ) || leap_move(my_king, occ, other_pieces, 8, 0, m) || leap_move(
            my_king,
            occ,
            other_pieces,
            7,
            FILE_A,
            m,
        ) || leap_move(my_king, occ, other_pieces, -1, FILE_A, m) || leap_move(
            my_king,
            occ,
            other_pieces,
            -9,
            FILE_A,
            m,
        )) == (m.well_formed() && !m.is_promotion() && king_step_move(state, m)),
{
    lemma_masks();
    crate::bits::lemma_constants();
    let from = m.from_square() as int;
    let to = m.to_square() as int;
    assert(bit(my_king, from) == (state.kings.has(from) && state.colour.has(from)
        == state.playing));
    assert(bit(occ, to) == state.occupied(to));
    assert(bit(other_pieces, to) == state.enemy_at(to));
}

/// The steps of the kings of the side to move to neighbouring squares, in
/// the order of [`king_order`].
fn generate_king_steps(state: &GameBoard) -> (moves: Vec<PieceMove>)
    ensures
        moves@.no_duplicates(),
        forall|m: PieceMove| #[trigger]
            moves@.contains(m) == (m.well_formed() && !m.is_promotion() && king_step_move(
                *state,
                m,
            )),
        ascending_from(moves@, 0, |m: PieceMove| king_order(m)),
        forall|i: int| 0 <= i < moves.len() ==> king_order(#[trigger] moves[i]) < 512 * 8,
{
    let mut moves: Vec<PieceMove> = Vec::new();
    let all_occupied = state.combined();
    let (my_king, other_pieces): (u64, u64) = if state.playing {
        ((state.kings & state.colour).raw(), (all_occupied & state.colour.not()).raw())
    } else {
        ((state.kings & state.colour.not()).raw(), (all_occupied & state.colour).raw())
    };
    let occ = all_occupied.raw();
    let ghost key = |m: PieceMove| king_order(m);
    let ghost s0 = moves@;
    leap(&mut moves, my_king, occ, other_pieces, -8, 0);
    let ghost s1 = moves@;
    proof {
        lemma_jump_block(s0, s1, my_king, occ, other_pieces, -8, 0, key, 0);
    }
    leap(&mut moves, my_king, occ, other_pieces, -7, FILE_H);
    let ghost s2 = moves@;
    proof {
        lemma_jump_block(s1, s2, my_king, occ, other_pieces, -7, FILE_H, key, 1);
    }
    leap(&mut moves, my_king, occ, other_pieces, 1, FILE_H);
    let ghost s3 = moves@;
    proof {
        lemma_jump_block(s2, s3, my_king, occ, other_pieces, 1, FILE_H, key, 2);
    }
    leap(&mut moves, my_king, occ, other_pieces, 9, FILE_H);
    let ghost s4 = moves@;
    proof {
        lemma_jump_block(s3, s4, my_king, occ, other_pieces, 9, FILE_H, key, 3);
    }
    leap(&mut moves, my_king, occ, other_pieces, 8, 0);
    let ghost s5 = moves@;
    proof {
        lemma_jump_block(s4, s5, my_king, occ, other_pieces, 8, 0, key, 4);
    }
    leap(&mut moves, my_king, occ, other_pieces, 7, FILE_A);
    let ghost s6 = moves@;
    proof {
        lemma_jump_block(s5, s6, my_king, occ, other_pieces, 7, FILE_A, key, 5);
    }
    leap(&mut moves, my_king, occ, other_pieces, -1, FILE_A);
    let ghost s7 = moves@;
    proof {
        lemma_jump_block(s6, s7, my_king, occ, other_pieces, -1, FILE_A, key, 6);
    }
    leap(&mut moves, my_king, occ, other_pieces, -9, FILE_A);
    proof {
        lemma_jump_block(s7, moves@, my_king, occ, other_pieces, -9, FILE_A, key, 7);
        assert forall|m: PieceMove| #[trigger]
            moves@.contains(m) == (m.well_formed() && !m.is_promotion() && king_step_move(
                *state,
                m,
            )) by {
            lemma_king_jumps(*state, my_king, occ, other_pieces, m);
            assert(!s0.contains(m));
            assert(s2.contains(m) == (s1.contains(m) || leap_move(
                my_king,
                occ,
                other_pieces,
                -7,
                FILE_H,
                m,
            )));
            assert(s4.contains(m) == (s3.contains(m) || leap_move(
                my_king,
                occ,
                other_pieces,
                9,
                FILE_H,
                m,
            )));
            assert(s6.contains(m) == (s5.contains(m) || leap_move(
                my_king,
                occ,
                other_pieces,
                7,
                FILE_A,
                m,
            )));
        }
    }
    moves
}

/// The pseudo-legal king moves of the side to move, each once, and their
/// number: the steps to neighbouring squares, then castling to the queen's
/// side and to the king's side where the right is held and the board is
/// ready.
pub fn generate_king_moves(state: &GameBoard) -> (r: (Vec<PieceMove>, usize))
    ensures
        r.1 == r.0.len(),
        r.0@.no_duplicates(),
        forall|m: PieceMove| #[trigger] r.0@.contains(m) == king_move(*state, m),
        ascending_from(r.0@, 0, |m: PieceMove| king_order(m)),
{
    let mut moves = generate_king_steps(state);
    let ghost steps = moves@;
    let ghost key = |m: PieceMove| king_order(m);
    let (king_side, queen_side) = if state.playing {
        state.casling_right_white()
    } else {
        state.casling_right_black()
    };
    let king_pos: u8 = if state.playing {
        E1
    } else {
        E8
    };
    if queen_side && castling_allowed(state, false) {
        let castle = PieceMove::new_castling(king_pos, king_pos - 2);
        proof {
            assert(castle_move(*state, false, castle));
            assert forall|m: PieceMove|
                m.well_formed() && !m.is_promotion() && castle_move(
                    *state,
                    false,
                    m,
                ) implies m == castle by {
                PieceMove::lemma_same_reading(m, castle);
            }
        }
        add_move_to_list(&mut moves, castle);
        proof {
            assert(key(castle) == 512 * 8 + block_order(castle));
            assert(moves@.subrange(0, steps.len() as int) =~= steps);
            lemma_add_block(steps, moves@, key, 4096int, 4608int);
        }
    }
    let ghost mid = moves@;
    proof {
        assert forall|i: int| 0 <= i < mid.len() implies key(#[trigger] mid[i]) < 512 * 9 by {
            if mid.len() == steps.len() {
                assert(mid[i] == steps[i]);
            }
        }
    }
    if king_side && castling_allowed(state, true) {
        let castle = PieceMove::new_castling(king_pos, king_pos + 2);
        proof {
            assert(castle_move(*state, true, castle));
            assert forall|m: PieceMove|
                m.well_formed() && !m.is_promotion() && castle_move(
                    *state,
                    true,
                    m,
                ) implies m == castle by {
                PieceMove::lemma_same_reading(m, castle);
            }
        }
        add_move_to_list(&mut moves, castle);
        proof {
            assert(key(castle) == 512 * 9 + block_order(castle));
            assert(moves@.subrange(0, mid.len() as int) =~= mid);
            lemma_add_block(mid, moves@, key, 4608int, 5120int);
        }
    }
    proof {
        assert forall|m: PieceMove| #[trigger] moves@.contains(m) == king_move(*state, m) by {
            assert(mid.contains(m) == (steps.contains(m) || (m.well_formed() && !m.is_promotion()
                && castle_move(*state, false, m))));
        }
    }
    let count = moves.len();
    (moves, count)
}

} // verus!
