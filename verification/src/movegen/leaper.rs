//! Moves of the pieces that jump by fixed offsets, whatever stands between.

use crate::bits::{bit, lemma_and, lemma_not, lemma_zero};
use crate::model::piecemove::PieceMove;
use crate::movegen::list::{
    ascending_from, lemma_add_block, push_targets, shifted, target_move, target_order,
};
use vstd::prelude::*;

verus! {

/// A well-formed move without promotion of one of `pieces` that stands
/// outside `guard`, to the square `delta` indices up (down if negative):
/// a capture if that square is in `others`, a quiet move if it is not in
/// `occupied`, and no move at all if it holds anything else.
pub open spec fn leap_move(
    pieces: u64,
    occupied: u64,
    others: u64,
    delta: int,
    guard: u64,
    m: PieceMove,
) -> bool {
    let from = m.from_square() as int;
    let to = m.to_square() as int;
    &&& m.well_formed()
    &&& !m.is_promotion()
    &&& bit(pieces, from)
    &&& !bit(guard, from)
    &&& to == from + delta
    &&& if m.is_capture() {
        bit(occupied, to) && bit(others, to)
    } else {
        !bit(occupied, to)
    }
}

/// Where a move stands among the moves of one jump or of one step of a ray:
/// captures before quiet moves, and each by ascending destination.
pub open spec fn block_order(m: PieceMove) -> int {
    (if m.is_capture() {
        0int
    } else {
        256
    }) + target_order(m)
}

/// Appends the moves of all `pieces` outside `guard` by one jump of `delta`
/// indices: first the captures, then the quiet moves, each by ascending
/// destination.
pub(crate) fn leap(
    moves: &mut Vec<PieceMove>,
    pieces: u64,
    occupied: u64,
    others: u64,
    delta: i8,
    guard: u64,
)
    requires
        delta != 0,
        -64 < delta < 64,
    ensures
        final(moves)@.len() >= old(moves)@.len(),
        final(moves)@.subrange(0, old(moves)@.len() as int) == old(moves)@,
        forall|j: int|
            old(moves)@.len() <= j < final(moves)@.len() ==> leap_move(
                pieces,
                occupied,
                others,
                delta as int,
                guard,
                #[trigger] final(moves)@[j],
            ),
        forall|i: int, j: int|
            old(moves)@.len() <= i < j < final(moves)@.len() ==> block_order(
                #[trigger] final(moves)@[i],
            ) < block_order(#[trigger] final(moves)@[j]),
        forall|m: PieceMove| #[trigger]
            final(moves)@.contains(m) == (old(moves)@.contains(m) || leap_move(
                pieces,
                occupied,
                others,
                delta as int,
                guard,
                m,
            )),
        old(moves)@.no_duplicates() && (forall|m: PieceMove|
            leap_move(pieces, occupied, others, delta as int, guard, m) ==> !old(moves)@.contains(
                m,
            )) ==> final(moves)@.no_duplicates(),
{
    proof {
        lemma_not(guard);
        lemma_and(pieces, !guard);
        lemma_not(occupied);
    }
    let new_pos = shifted(pieces & !guard, delta);
    proof {
        lemma_and(new_pos, occupied);
        lemma_and(new_pos & occupied, others);
        lemma_and(new_pos, !occupied);
        lemma_zero(0);
    }
    let attackers = new_pos & occupied & others;
    let quiet_moves = new_pos & !occupied;
    let ghost start = moves@;
    push_targets(moves, attackers, delta, true, 0);
    let ghost mid = moves@;
    push_targets(moves, quiet_moves, delta, false, 0);
    proof {
        crate::bits::lemma_constants();
        assert(moves@.subrange(0, start.len() as int) =~= start) by {
            assert(mid.subrange(0, start.len() as int) == start);
            assert(moves@.subrange(0, mid.len() as int) == mid);
            assert forall|i: int| 0 <= i < start.len() implies moves@[i] == start[i] by {
                assert(moves@.subrange(0, mid.len() as int)[i] == moves@[i]);
                assert(mid.subrange(0, start.len() as int)[i] == mid[i]);
            }
        }
        assert forall|j: int| start.len() <= j < moves@.len() implies leap_move(
            pieces,
            occupied,
            others,
            delta as int,
            guard,
            #[trigger] moves@[j],
        ) && (moves@[j].is_capture() == (j < mid.len())) by {
            let m = moves@[j];
            let to = m.to_square() as int;
            assert(bit(new_pos, to) == bit(pieces & !guard, to - delta));
            if j < mid.len() {
                assert(moves@.subrange(0, mid.len() as int)[j] == moves@[j]);
                assert(target_move(attackers, delta as int, true, 0, mid[j]));
            } else {
                assert(target_move(quiet_moves, delta as int, false, 0, moves@[j]));
            }
        }
        assert forall|i: int, j: int| start.len() <= i < j < moves@.len() implies block_order(
            #[trigger] moves@[i],
        ) < block_order(#[trigger] moves@[j]) by {
            if j < mid.len() {
                assert(moves@.subrange(0, mid.len() as int)[i] == moves@[i]);
                assert(moves@.subrange(0, mid.len() as int)[j] == moves@[j]);
                assert(target_order(mid[i]) < target_order(mid[j]));
            }
        }
        assert forall|m: PieceMove| #[trigger]
            moves@.contains(m) == (start.contains(m) || leap_move(
                pieces,
                occupied,
                others,
                delta as int,
                guard,
                m,
            )) by {
            let to = m.to_square() as int;
            assert(bit(new_pos, to) == bit(pieces & !guard, to - delta));
        }
        if start.no_duplicates() && (forall|m: PieceMove|
            leap_move(pieces, occupied, others, delta as int, guard, m) ==> !start.contains(m)) {
            assert forall|m: PieceMove|
                target_move(attackers, delta as int, true, 0, m) implies !start.contains(m) by {
                let to = m.to_square() as int;
                assert(bit(new_pos, to) == bit(pieces & !guard, to - delta));
            }
            assert forall|m: PieceMove|
                target_move(quiet_moves, delta as int, false, 0, m) implies !mid.contains(m) by {
                let to = m.to_square() as int;
                assert(bit(new_pos, to) == bit(pieces & !guard, to - delta));
            }
        }
    }
}

/// The moves of one more jump keep a list of jumps in order of a key that
/// ranks the jumps and follows [`block_order`] within each.
pub proof fn lemma_jump_block(
    earlier: Seq<PieceMove>,
    later: Seq<PieceMove>,
    pieces: u64,
    occupied: u64,
    others: u64,
    delta: int,
    guard: u64,
    key: spec_fn(PieceMove) -> int,
    rank: int,
)
    requires
        earlier.len() <= later.len(),
        later.subrange(0, earlier.len() as int) == earlier,
        ascending_from(earlier, 0, key),
        forall|i: int| 0 <= i < earlier.len() ==> key(#[trigger] earlier[i]) < 512 * rank,
        forall|j: int|
            earlier.len() <= j < later.len() ==> leap_move(
                pieces,
                occupied,
                others,
                delta,
                guard,
                #[trigger] later[j],
            ),
        forall|a: int, b: int|
            earlier.len() <= a < b < later.len() ==> block_order(#[trigger] later[a])
                < block_order(#[trigger] later[b]),
        forall|m: PieceMove|
            leap_move(pieces, occupied, others, delta, guard, m) ==> #[trigger] key(m) == 512
                * rank + block_order(m),
    ensures
        ascending_from(later, 0, key),
        forall|i: int| 0 <= i < later.len() ==> key(#[trigger] later[i]) < 512 * (rank + 1),
{
    assert forall|j: int| earlier.len() <= j < later.len() implies 512 * rank <= key(
        #[trigger] later[j],
    ) < 512 * (rank + 1) by {
        assert(leap_move(pieces, occupied, others, delta, guard, later[j]));
    }
    assert forall|a: int, b: int| earlier.len() <= a < b < later.len() implies key(
        #[trigger] later[a],
    ) < key(#[trigger] later[b]) by {
        assert(leap_move(pieces, occupied, others, delta, guard, later[a]));
        assert(leap_move(pieces, occupied, others, delta, guard, later[b]));
        assert(block_order(later[a]) < block_order(later[b]));
    }
    lemma_add_block(earlier, later, key, 512 * rank, 512 * (rank + 1));
}

} // verus!
