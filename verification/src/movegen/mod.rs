//! Generation of the pseudo-legal moves of a position: the moves that obey
//! how each piece moves and what stands on the board, whether or not they
//! leave the mover's king attacked.


use crate::model::gameboard::{GameBoard, PieceType};
use crate::model::piecemove::PieceMove;
use crate::movegen::list::{append_moves, ascending_from, lemma_add_block, lemma_ascending_distinct};
use crate::movegen::slider::line_order;
use vstd::prelude::*;

pub mod bishop;
pub mod king;
pub mod knight;
pub mod leaper;
pub mod list;
pub mod pawn;
pub mod queen;
pub mod rook;
pub mod slider;

verus! {

pub const MAX_MOVES: usize = 192;

/// A pseudo-legal move of the side to move: a move that obeys how its
/// piece moves and what stands on the board, whether or not it leaves the
/// mover's king attacked.
pub open spec fn pseudo_legal(board: GameBoard, m: PieceMove) -> bool {
    pawn::pawn_move(board, m) || bishop::bishop_move(board, m) || knight::knight_move(board, m)
        || rook::rook_move(board, m) || queen::queen_move(board, m) || king::king_move(board, m)
}

/// Two moves with the same origin, destination and promotion piece.
pub open spec fn same_triple(a: PieceMove, b: PieceMove) -> bool {
    a.from_square() == b.from_square() && a.to_square() == b.to_square() && a.promotion_type()
        == b.promotion_type()
}

/// In a well-formed position two pseudo-legal moves with the same origin,
/// destination and promotion piece are the same move: the capture flag of a
/// pseudo-legal move follows from the board.
pub proof fn lemma_triple_determines(board: GameBoard, a: PieceMove, b: PieceMove)
    requires
        board.wf(),
        pseudo_legal(board, a),
        pseudo_legal(board, b),
        same_triple(a, b),
    ensures
        a == b,
{
    let from = a.from_square() as int;
    assert(board.kinds_at(from) <= 1);
    assert(a.is_capture() == b.is_capture());
    PieceMove::lemma_same_reading(a, b);
}

/// Where a move stands among all moves of a position: by the kind of the
/// piece that moves, in the order pawn, bishop, knight, rook, queen, king,
/// and among the moves of one kind in the order of that kind.
pub open spec fn move_order(board: GameBoard, m: PieceMove) -> int {
    match board.piece_at(m.from_square() as int) {
        Some(PieceType::Pawn) => pawn::pawn_order(board, m),
        Some(PieceType::Bishop) => 65536 + line_order(true, m),
        Some(PieceType::Knight) => 2 * 65536 + knight::knight_order(m),
        Some(PieceType::Rook) => 3 * 65536 + line_order(false, m),
        Some(PieceType::Queen) => 4 * 65536 + queen::queen_order(m),
        _ => 5 * 65536 + king::king_order(m),
    }
}

/// The moves of one more kind of piece keep a list in order.
proof fn lemma_kind_block(
    earlier: Seq<PieceMove>,
    list: Seq<PieceMove>,
    key: spec_fn(PieceMove) -> int,
    inner: spec_fn(PieceMove) -> int,
    rank: int,
)
    requires
        ascending_from(earlier, 0, key),
        forall|i: int| 0 <= i < earlier.len() ==> key(#[trigger] earlier[i]) < 65536 * rank,
        ascending_from(list, 0, inner),
        forall|i: int|
            0 <= i < list.len() ==> 0 <= inner(#[trigger] list[i]) < 65536 && key(list[i]) == 65536
                * rank + inner(list[i]),
    ensures
        ascending_from(earlier + list, 0, key),
        forall|i: int|
            0 <= i < (earlier + list).len() ==> key(#[trigger] (earlier + list)[i]) < 65536 * (rank
                + 1),
{
    let later = earlier + list;
    assert(later.subrange(0, earlier.len() as int) =~= earlier);
    assert forall|j: int| earlier.len() <= j < later.len() implies 65536 * rank <= key(
        #[trigger] later[j],
    ) < 65536 * (rank + 1) by {
        assert(later[j] == list[j - earlier.len()]);
    }
    assert forall|a: int, b: int| earlier.len() <= a < b < later.len() implies key(
        #[trigger] later[a],
    ) < key(#[trigger] later[b]) by {
        assert(later[a] == list[a - earlier.len()]);
        assert(later[b] == list[b - earlier.len()]);
        assert(inner(list[a - earlier.len()]) < inner(list[b - earlier.len()]));
    }
    lemma_add_block(earlier, later, key, 65536 * rank, 65536 * (rank + 1));
}

/// The lists of the six kinds of moves, each in its order, make a list in
/// the order of [`move_order`] when they are put one after another.
proof fn lemma_kinds_in_order(
    state: GameBoard,
    pawns: Seq<PieceMove>,
    bishops: Seq<PieceMove>,
    knights: Seq<PieceMove>,
    rooks: Seq<PieceMove>,
    queens: Seq<PieceMove>,
    kings: Seq<PieceMove>,
)
    requires
        state.wf(),
        forall|m: PieceMove| #[trigger] pawns.contains(m) == pawn::pawn_move(state, m),
        forall|m: PieceMove| #[trigger] bishops.contains(m) == bishop::bishop_move(state, m),
        forall|m: PieceMove| #[trigger] knights.contains(m) == knight::knight_move(state, m),
        forall|m: PieceMove| #[trigger] rooks.contains(m) == rook::rook_move(state, m),
        forall|m: PieceMove| #[trigger] queens.contains(m) == queen::queen_move(state, m),
        forall|m: PieceMove| #[trigger] kings.contains(m) == king::king_move(state, m),
        ascending_from(pawns, 0, |m: PieceMove| pawn::pawn_order(state, m)),
        ascending_from(bishops, 0, |m: PieceMove| line_order(true, m)),
        ascending_from(knights, 0, |m: PieceMove| knight::knight_order(m)),
        ascending_from(rooks, 0, |m: PieceMove| line_order(false, m)),
        ascending_from(queens, 0, |m: PieceMove| queen::queen_order(m)),
        ascending_from(kings, 0, |m: PieceMove| king::king_order(m)),
    ensures
        ascending_from(
            Seq::<PieceMove>::empty() + pawns + bishops + knights + rooks + queens + kings,
            0,
            |m: PieceMove| move_order(state, m),
        ),
{
    let key = |m: PieceMove| move_order(state, m);
    let s0 = Seq::<PieceMove>::empty();
    assert forall|i: int| 0 <= i < pawns.len() implies 0 <= pawn::pawn_order(
        state,
        #[trigger] pawns[i],
    ) < 65536 && key(pawns[i]) == 65536 * 0 + pawn::pawn_order(state, pawns[i]) by {
        let m = pawns[i];
        assert(pawns.contains(m));
        assert(state.kinds_at(m.from_square() as int) <= 1);
    }
    lemma_kind_block(s0, pawns, key, |m: PieceMove| pawn::pawn_order(state, m), 0);
    let s1 = s0 + pawns;
    assert forall|i: int| 0 <= i < bishops.len() implies 0 <= line_order(
        true,
        #[trigger] bishops[i],
    ) < 65536 && key(bishops[i]) == 65536 * 1 + line_order(true, bishops[i]) by {
        let m = bishops[i];
        assert(bishops.contains(m));
        assert(state.kinds_at(m.from_square() as int) <= 1);
    }
    lemma_kind_block(s1, bishops, key, |m: PieceMove| line_order(true, m), 1);
    let s2 = s1 + bishops;
    assert forall|i: int| 0 <= i < knights.len() implies 0 <= knight::knight_order(
        #[trigger] knights[i],
    ) < 65536 && key(knights[i]) == 65536 * 2 + knight::knight_order(knights[i]) by {
        let m = knights[i];
        assert(knights.contains(m));
        assert(state.kinds_at(m.from_square() as int) <= 1);
    }
    lemma_kind_block(s2, knights, key, |m: PieceMove| knight::knight_order(m), 2);
    let s3 = s2 + knights;
    assert forall|i: int| 0 <= i < rooks.len() implies 0 <= line_order(
        false,
        #[trigger] rooks[i],
    ) < 65536 && key(rooks[i]) == 65536 * 3 + line_order(false, rooks[i]) by {
        let m = rooks[i];
        assert(rooks.contains(m));
        assert(state.kinds_at(m.from_square() as int) <= 1);
    }
    lemma_kind_block(s3, rooks, key, |m: PieceMove| line_order(false, m), 3);
    let s4 = s3 + rooks;
    assert forall|i: int| 0 <= i < queens.len() implies 0 <= queen::queen_order(
        #[trigger] queens[i],
    ) < 65536 && key(queens[i]) == 65536 * 4 + queen::queen_order(queens[i]) by {
        let m = queens[i];
        assert(queens.contains(m));
        assert(state.kinds_at(m.from_square() as int) <= 1);
    }
    lemma_kind_block(s4, queens, key, |m: PieceMove| queen::queen_order(m), 4);
    let s5 = s4 + queens;
    assert forall|i: int| 0 <= i < kings.len() implies 0 <= king::king_order(
        #[trigger] kings[i],
    ) < 65536 && key(kings[i]) == 65536 * 5 + king::king_order(kings[i]) by {
        let m = kings[i];
        assert(kings.contains(m));
        assert(state.kinds_at(m.from_square() as int) <= 1);
    }
    lemma_kind_block(s5, kings, key, |m: PieceMove| king::king_order(m), 5);
}

/// All pseudo-legal moves of the side to move and their number: the pawn
/// moves first, then those of the bishops, knights, rooks, queens and
/// kings. In a well-formed position the moves come in the order of
/// [`move_order`]: no move comes twice, and no two moves share origin,
/// destination and promotion piece.
pub fn generate_moves(state: &GameBoard) -> (r: (Vec<PieceMove>, usize))
    ensures
        r.1 == r.0.len(),
        forall|m: PieceMove| #[trigger] r.0@.contains(m) == pseudo_legal(*state, m),
        state.wf() ==> ascending_from(r.0@, 0, |m: PieceMove| move_order(*state, m)),
        state.wf() ==> r.0@.no_duplicates(),
        state.wf() ==> forall|i: int, j: int|
            0 <= i < j < r.0.len() ==> !same_triple(#[trigger] r.0[i], #[trigger] r.0[j]),
{
    let mut moves: Vec<PieceMove> = Vec::new();
    let ghost s0 = moves@;
    let (pawn_moves, pawn_count) = pawn::generate_pawn_moves(state);
    let ghost pawns = pawn_moves@;
    append_moves(&mut moves, pawn_moves, pawn_count);
    let ghost s1 = moves@;
    let (bishop_moves, bishop_count) = bishop::generate_bishop_moves(state);
    let ghost bishops = bishop_moves@;
    append_moves(&mut moves, bishop_moves, bishop_count);
    let ghost s2 = moves@;
    let (knight_moves, knight_count) = knight::generate_knight_moves(state);
    let ghost knights = knight_moves@;
    append_moves(&mut moves, knight_moves, knight_count);
    let ghost s3 = moves@;
    let (rook_moves, rook_count) = rook::generate_rook_moves(state);
    let ghost rooks = rook_moves@;
    append_moves(&mut moves, rook_moves, rook_count);
    let ghost s4 = moves@;
    let (queen_moves, queen_count) = queen::generate_queen_moves(state);
    let ghost queens = queen_moves@;
    append_moves(&mut moves, queen_moves, queen_count);
    let ghost s5 = moves@;
    let (king_moves, king_count) = king::generate_king_moves(state);
    let ghost kings = king_moves@;
    append_moves(&mut moves, king_moves, king_count);
    proof {
        assert forall|m: PieceMove| #[trigger] moves@.contains(m) == pseudo_legal(*state, m) by {
            assert(!s0.contains(m));
            assert(s2.contains(m) == (s1.contains(m) || bishops.contains(m)));
            assert(s3.contains(m) == (s2.contains(m) || knights.contains(m)));
            assert(s4.contains(m) == (s3.contains(m) || rooks.contains(m)));
            assert(s5.contains(m) == (s4.contains(m) || queens.contains(m)));
        }
        if state.wf() {
            let key = |m: PieceMove| move_order(*state, m);
            lemma_kinds_in_order(*state, pawns, bishops, knights, rooks, queens, kings);
            assert(s0 + pawns =~= s1);
            lemma_ascending_distinct(moves@, key);
            assert forall|i: int, j: int| 0 <= i < j < moves.len() implies !same_triple(
                #[trigger] moves[i],
                #[trigger] moves[j],
            ) by {
                assert(moves@.contains(moves[i]));
                assert(moves@.contains(moves[j]));
                if same_triple(moves[i], moves[j]) {
                    lemma_triple_determines(*state, moves[i], moves[j]);
                }
            }
        }
    }
    let count = moves.len();
    (moves, count)
}

} // verus!
