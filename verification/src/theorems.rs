//! What holds of the move generator, the legality check and the making of
//! moves taken together.

use crate::bits::{bit, lemma_and, lemma_lowest, lemma_not, lemma_zero};
use crate::geometry::{abs, between, file_diff, last_rank, rank_diff, rank_of, same_line};
use crate::legal::attack::{attacks, bishop_attacker, rook_attacker, square_attacked};
use crate::model::gameboard::{GameBoard, lemma_clear_square, lemma_set_square, PieceType};
use crate::model::piecemove::{PieceMove, PromotionType};
use crate::movegen::king::{castle_move, castling_rook_from, king_move, king_step_move};
use crate::movegen::pawn::{pawn_en_passant, pawn_move};
use crate::movegen::pseudo_legal;
use vstd::prelude::*;
use vstd::std_specs::bits::u64_trailing_zeros;

verus! {

/// The capture flag of a pseudo-legal move says whether the move takes a
/// piece: it is set exactly when the destination holds a piece of the other
/// side, or when the move is a pawn's capture onto the en passant target,
/// whose destination may be empty.
pub proof fn lemma_capture_flag(board: GameBoard, m: PieceMove)
    requires
        pseudo_legal(board, m),
    ensures
        m.is_capture() == (board.enemy_at(m.to_square() as int) || (pawn_move(board, m)
            && pawn_en_passant(board, m))),
{
    let to = m.to_square() as int;
    if king_move(board, m) && !king_step_move(board, m) {
        assert(between(4, 7, 6) && between(4, 0, 2) && between(60, 63, 62) && between(60, 56, 58));
        assert(!board.occupied(to));
    }
}

/// Promotion is mandatory: in a well-formed position a pseudo-legal pawn
/// move onto the last rank carries the promotion flag, and the same move
/// with each of the four promotion pieces is pseudo-legal as well.
pub proof fn lemma_promotion_mandatory(board: GameBoard, m: PieceMove, piece: PromotionType)
    requires
        board.wf(),
        pawn_move(board, m),
        rank_of(m.to_square() as int) == last_rank(board.playing),
    ensures
        m.is_promotion(),
        pawn_move(
            board,
            PieceMove::spec_new(m.from_square(), m.to_square(), m.is_capture(), Some(piece)),
        ),
{
    PieceMove::lemma_spec_new(m.from_square(), m.to_square(), m.is_capture(), Some(piece));
}

/// The legality check is sound for the king's safety: a move after which
/// the mover's king stands attacked, or after which the mover has no king
/// left, is not legal.
pub proof fn lemma_king_safety(board: GameBoard, m: PieceMove)
    requires
        match board.spec_apply(m).king_square(board.playing) {
            Some(k) => square_attacked(board.spec_apply(m), k as int),
            None => true,
        },
    ensures
        !board.legal(m),
{
}

/// In a position in which no square holds two kinds of piece, a square is
/// in the bitboard of a piece type exactly when the piece on it is of that
/// type.
pub proof fn lemma_piece_at(board: GameBoard, j: int)
    requires
        board.pieces_disjoint(),
    ensures
        board.pawns.has(j) == (board.piece_at(j) == Some(PieceType::Pawn)),
        board.knights.has(j) == (board.piece_at(j) == Some(PieceType::Knight)),
        board.bishops.has(j) == (board.piece_at(j) == Some(PieceType::Bishop)),
        board.rooks.has(j) == (board.piece_at(j) == Some(PieceType::Rook)),
        board.queens.has(j) == (board.piece_at(j) == Some(PieceType::Queen)),
        board.kings.has(j) == (board.piece_at(j) == Some(PieceType::King)),
        board.occupied(j) == board.piece_at(j).is_some(),
{
    assert(board.kinds_at(j) <= 1);
}

/// The king square of a side is the lowest square that holds a king of its
/// colour.
pub proof fn lemma_king_square(board: GameBoard, white: bool, k: int)
    requires
        board.kings.has(k),
        board.colour.has(k) == white,
        forall|j: int| board.kings.has(j) && board.colour.has(j) == white ==> k <= j,
    ensures
        board.king_square(white) == Some(k as u8),
{
    let kings = if white {
        board.kings@ & board.colour@
    } else {
        board.kings@ & !board.colour@
    };
    lemma_not(board.colour@);
    lemma_and(board.kings@, board.colour@);
    lemma_and(board.kings@, !board.colour@);
    assert(bit(kings, k));
    lemma_zero(kings);
    lemma_lowest(kings);
    let t = u64_trailing_zeros(kings) as int;
    assert(bit(kings, t));
    assert(board.kings.has(t) && board.colour.has(t) == white);
}

/// What the board holds after a king has gone to an empty square.
proof fn lemma_king_moved(board: GameBoard, m: PieceMove)
    requires
        board.pieces_disjoint(),
        board.piece_at(m.from_square() as int) == Some(PieceType::King),
        m.promotion_type().is_none(),
        !board.occupied(m.to_square() as int),
    ensures
        board.spec_apply(m).playing == board.playing,
        board.spec_apply(m).pieces_disjoint(),
        forall|j: int| #[trigger]
            board.spec_apply(m).piece_at(j) == (if j == m.to_square() {
                Some(PieceType::King)
            } else if j == m.from_square() {
                None
            } else {
                board.piece_at(j)
            }),
        forall|j: int|
            j != m.from_square() ==> #[trigger] board.spec_apply(m).colour.has(j) == (if j
                == m.to_square() {
                board.playing
            } else {
                board.colour.has(j)
            }),
{
    let from = m.from_square() as int;
    let to = m.to_square() as int;
    lemma_clear_square(board, from);
    let lifted = board.spec_clear_square(from);
    lemma_set_square(lifted, to, PieceType::King, board.playing);
    let after = board.spec_apply(m);
    assert(after == lifted.spec_set_square(to, PieceType::King, board.playing));
    assert forall|j: int| #[trigger] after.piece_at(j) == (if j == to {
        Some(PieceType::King)
    } else if j == from {
        None
    } else {
        board.piece_at(j)
    }) by {
        assert(lifted.piece_at(j) == if j == from {
            None
        } else {
            board.piece_at(j)
        });
    }
    assert forall|j: int| j != from implies #[trigger] after.colour.has(j) == (if j == to {
        board.playing
    } else {
        board.colour.has(j)
    }) by {
        assert(lifted.colour.has(j) == board.colour.has(j));
    }
}

/// A piece that attacks the king's landing square once the king has gone
/// two files along its rank attacked that square, or the square the king
/// came from, before.
proof fn lemma_attack_before(board: GameBoard, m: PieceMove, p: int)
    requires
        board.pieces_disjoint(),
        board.piece_at(m.from_square() as int) == Some(PieceType::King),
        board.colour.has(m.from_square() as int) == board.playing,
        m.promotion_type().is_none(),
        !board.occupied(m.to_square() as int),
        rank_diff(m.from_square() as int, m.to_square() as int) == 0,
        abs(file_diff(m.from_square() as int, m.to_square() as int)) == 2,
        attacks(board.spec_apply(m), p, m.to_square() as int),
    ensures
        attacks(board, p, m.to_square() as int) || attacks(board, p, m.from_square() as int),
{
    let from = m.from_square() as int;
    let to = m.to_square() as int;
    let after = board.spec_apply(m);
    lemma_king_moved(board, m);
    lemma_piece_at(board, p);
    lemma_piece_at(after, p);
    lemma_piece_at(board, from);
    lemma_piece_at(after, from);
    assert(after.piece_at(p) == if p == to {
        Some(PieceType::King)
    } else if p == from {
        None
    } else {
        board.piece_at(p)
    });
    assert(after.enemy_at(p));
    assert(p != from);
    assert(p != to) by {
        assert(after.colour.has(to) == board.playing);
    }
    assert(after.colour.has(p) == board.colour.has(p));
    assert(board.enemy_at(p));
    if rook_attacker(after, p, to) || bishop_attacker(after, p, to) {
        if between(p, to, from) {
            // The line from the attacker through the king's old square is
            // the king's rank, on which the attacker saw the king before.
            assert(rank_diff(p, to) == 0);
            assert(same_line(p, from));
            assert forall|q: int| between(p, from, q) implies !board.occupied(q) by {
                assert(between(p, to, q));
                assert(!after.occupied(q));
                lemma_piece_at(board, q);
                lemma_piece_at(after, q);
                assert(after.piece_at(q) == board.piece_at(q));
            }
            assert(board.path_clear(p, from));
            assert(rook_attacker(after, p, to));
            assert(rook_attacker(board, p, from));
        } else {
            assert forall|q: int| between(p, to, q) implies !board.occupied(q) by {
                assert(!after.occupied(q));
                lemma_piece_at(board, q);
                lemma_piece_at(after, q);
                assert(after.piece_at(q) == board.piece_at(q));
            }
            assert(board.path_clear(p, to));
        }
    }
}

/// Castling is legal exactly when the right is held, the squares on the
/// way are empty and the king's square, the square it crosses and the
/// square it lands on are not attacked: for the only king of the side to
/// move, in a position in which no square holds two kinds of piece, a move
/// of two files along the rank without promotion is legal if and only if
/// these three conditions hold.
pub proof fn lemma_castling_gating(board: GameBoard, m: PieceMove)
    requires
        board.pieces_disjoint(),
        board.piece_at(m.from_square() as int) == Some(PieceType::King),
        board.colour.has(m.from_square() as int) == board.playing,
        forall|j: int|
            board.kings.has(j) && board.colour.has(j) == board.playing ==> j == m.from_square(),
        rank_diff(m.from_square() as int, m.to_square() as int) == 0,
        abs(file_diff(m.from_square() as int, m.to_square() as int)) == 2,
        m.promotion_type().is_none(),
    ensures
        board.legal(m) == board.castling_valid(m),
{
    let from = m.from_square() as int;
    let to = m.to_square() as int;
    if board.castling_valid(m) {
        let after = board.spec_apply(m);
        assert(to == from + 2 || to == from - 2);
        assert(!board.occupied(to));
        lemma_piece_at(board, to);
        assert(board.destination_valid(m));
        assert(board.special_moves_valid(m));
        lemma_king_moved(board, m);
        lemma_piece_at(after, to);
        assert(after.kings.has(to) && after.colour.has(to) == board.playing);
        assert forall|j: int|
            after.kings.has(j) && after.colour.has(j) == board.playing implies to <= j by {
            lemma_piece_at(after, j);
            lemma_piece_at(board, j);
            if j != to {
                assert(j != from);
                assert(after.piece_at(j) == board.piece_at(j));
                assert(after.colour.has(j) == board.colour.has(j));
            }
        }
        lemma_king_square(after, board.playing, to);
        assert(!square_attacked(after, to)) by {
            if square_attacked(after, to) {
                let p = choose|p: int| attacks(after, p, to);
                lemma_attack_before(board, m, p);
            }
        }
        assert(board.king_safe_after(m));
    }
}

/// A castling move that the generator makes for the only king of the side
/// to move is legal.
pub proof fn lemma_generated_castling_is_legal(board: GameBoard, kingside: bool, m: PieceMove)
    requires
        board.pieces_disjoint(),
        forall|j: int|
            board.kings.has(j) && board.colour.has(j) == board.playing ==> j == m.from_square(),
        m.well_formed(),
        !m.is_promotion(),
        castle_move(board, kingside, m),
    ensures
        king_move(board, m),
        board.legal(m),
{
    let from = m.from_square() as int;
    let to = m.to_square() as int;
    let rook = castling_rook_from(board.playing, kingside);
    lemma_piece_at(board, from);
    assert(between(from, rook, from + 1) || between(from, rook, from - 1));
    assert(between(from, rook, from + 2) || between(from, rook, from - 2));
    assert(kingside || between(from, rook, from - 3));
    assert(between(from, to, from + 1) || between(from, to, from - 1));
    assert(board.castling_valid(m));
    lemma_castling_gating(board, m);
}

} // verus!
