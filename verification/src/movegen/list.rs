//! Move lists: appending moves, the order of a list under a key, and the
//! moves of a set of pieces that all shift by one fixed offset.

use crate::bits::{bit, lemma_lowest, lemma_shl, lemma_shr, lemma_zero};
use crate::model::piecemove::{PieceMove, PromotionType};
use vstd::prelude::*;

verus! {

/// What a list holds after one more move.
pub proof fn lemma_push(s: Seq<PieceMove>, x: PieceMove)
    ensures
        forall|m: PieceMove| #[trigger] s.push(x).contains(m) == (s.contains(m) || m == x),
        s.no_duplicates() && !s.contains(x) ==> s.push(x).no_duplicates(),
{
    let t = s.push(x);
    assert forall|m: PieceMove| #[trigger] t.contains(m) == (s.contains(m) || m == x) by {
        if s.contains(m) {
            let i = choose|i: int| 0 <= i < s.len() && s[i] == m;
            assert(t[i] == m);
        }
        if m == x {
            assert(t[s.len() as int] == m);
        }
        if t.contains(m) {
            let i = choose|i: int| 0 <= i < t.len() && t[i] == m;
            if i < s.len() {
                assert(s[i] == m);
            }
        }
    }
    if s.no_duplicates() && !s.contains(x) {
        assert forall|i: int, j: int| 0 <= i < t.len() && 0 <= j < t.len() && i != j implies t[i]
            != t[j] by {
            if i < s.len() && j < s.len() {
                assert(s[i] != s[j]);
            } else if i < s.len() {
                assert(s.contains(s[i]));
            } else {
                assert(s.contains(s[j]));
            }
        }
    }
}

/// What a list holds after another has been added to its end.
pub proof fn lemma_concat(s: Seq<PieceMove>, t: Seq<PieceMove>)
    ensures
        forall|m: PieceMove| #[trigger] (s + t).contains(m) == (s.contains(m) || t.contains(m)),
        s.no_duplicates() && t.no_duplicates() && (forall|m: PieceMove|
            !(s.contains(m) && t.contains(m))) ==> (s + t).no_duplicates(),
{
    let u = s + t;
    assert forall|m: PieceMove| #[trigger] u.contains(m) == (s.contains(m) || t.contains(m)) by {
        if s.contains(m) {
            let i = choose|i: int| 0 <= i < s.len() && s[i] == m;
            assert(u[i] == m);
        }
        if t.contains(m) {
            let i = choose|i: int| 0 <= i < t.len() && t[i] == m;
            assert(u[s.len() + i] == m);
        }
        if u.contains(m) {
            let i = choose|i: int| 0 <= i < u.len() && u[i] == m;
            if i < s.len() {
                assert(s[i] == m);
            } else {
                assert(t[i - s.len()] == m);
            }
        }
    }
    if s.no_duplicates() && t.no_duplicates() && (forall|m: PieceMove|
        !(s.contains(m) && t.contains(m))) {
        assert forall|i: int, j: int| 0 <= i < s.len() && 0 <= j < t.len() implies s[i]
            != t[j] by {
            assert(s.contains(s[i]));
            assert(t.contains(t[j]));
        }
        vstd::seq_lib::lemma_no_dup_in_concat(s, t);
    }
}

/// Whether the moves of a list from index `from_index` on stand in strictly
/// ascending order of `key`.
pub open spec fn ascending_from(
    s: Seq<PieceMove>,
    from_index: int,
    key: spec_fn(PieceMove) -> int,
) -> bool {
    forall|i: int, j: int|
        from_index <= i < j < s.len() ==> key(#[trigger] s[i]) < key(#[trigger] s[j])
}

/// A list in ascending order stays so when moves in ascending order, with
/// keys above those of the list, are added at its end.
pub proof fn lemma_add_block(
    earlier: Seq<PieceMove>,
    later: Seq<PieceMove>,
    key: spec_fn(PieceMove) -> int,
    lo: int,
    hi: int,
)
    requires
        earlier.len() <= later.len(),
        later.subrange(0, earlier.len() as int) == earlier,
        ascending_from(earlier, 0, key),
        forall|i: int| 0 <= i < earlier.len() ==> key(#[trigger] earlier[i]) < lo,
        forall|j: int| earlier.len() <= j < later.len() ==> lo <= key(#[trigger] later[j]) < hi,
        ascending_from(later, earlier.len() as int, key),
        lo <= hi,
    ensures
        ascending_from(later, 0, key),
        forall|i: int| 0 <= i < later.len() ==> key(#[trigger] later[i]) < hi,
{
    assert forall|i: int| 0 <= i < earlier.len() implies #[trigger] later[i] == earlier[i] by {
        assert(later.subrange(0, earlier.len() as int)[i] == later[i]);
    }
    assert forall|i: int, j: int| 0 <= i < j < later.len() implies key(#[trigger] later[i]) < key(
        #[trigger] later[j],
    ) by {
        if j < earlier.len() {
            assert(key(earlier[i]) < key(earlier[j]));
        } else if i < earlier.len() {
            assert(key(earlier[i]) < lo);
        }
    }
    assert forall|i: int| 0 <= i < later.len() implies key(#[trigger] later[i]) < hi by {
        if i < earlier.len() {
            assert(key(earlier[i]) < lo);
        }
    }
}

/// A list in strictly ascending order of a key holds no move twice.
pub proof fn lemma_ascending_distinct(s: Seq<PieceMove>, key: spec_fn(PieceMove) -> int)
    requires
        ascending_from(s, 0, key),
    ensures
        s.no_duplicates(),
{
    assert forall|i: int, j: int| 0 <= i < s.len() && 0 <= j < s.len() && i != j implies s[i]
        != s[j] by {
        if i < j {
            assert(key(s[i]) < key(s[j]));
        } else {
            assert(key(s[j]) < key(s[i]));
        }
    }
}

/// Appends one move to the list.
pub(crate) fn add_move_to_list(moves: &mut Vec<PieceMove>, piece_move: PieceMove)
    ensures
        final(moves)@ == old(moves)@.push(piece_move),
        forall|m: PieceMove| #[trigger]
            final(moves)@.contains(m) == (old(moves)@.contains(m) || m == piece_move),
        old(moves)@.no_duplicates() && !old(moves)@.contains(piece_move) ==> final(moves)@.no_duplicates(),
{
    proof {
        lemma_push(moves@, piece_move);
    }
    moves.push(piece_move);
}

/// Adds the moves of `list`, `count` in number, to the end of `moves`.
pub(crate) fn append_moves(moves: &mut Vec<PieceMove>, list: Vec<PieceMove>, count: usize)
    requires
        count == list.len(),
    ensures
        final(moves)@ == old(moves)@ + list@,
        forall|m: PieceMove| #[trigger]
            final(moves)@.contains(m) == (old(moves)@.contains(m) || list@.contains(m)),
        old(moves)@.no_duplicates() && list@.no_duplicates() && (forall|m: PieceMove|
            !(old(moves)@.contains(m) && list@.contains(m))) ==> final(moves)@.no_duplicates(),
{
    let mut i: usize = 0;
    let ghost start = moves@;
    while i < count
        invariant
            count == list.len(),
            0 <= i <= count,
            moves@ == start + list@.subrange(0, i as int),
        decreases count - i,
    {
        let piece_move = list[i];
        add_move_to_list(moves, piece_move);
        i = i + 1;
        proof {
            assert(moves@ =~= start + list@.subrange(0, i as int));
        }
    }
    proof {
        assert(list@.subrange(0, count as int) =~= list@);
        lemma_concat(start, list@);
    }
}

/// A well-formed move to a square of `targets` that comes from `delta`
/// indices below its destination, with the given capture flag, and that
/// promotes exactly when its destination is in `promo_mask`.
pub open spec fn target_move(
    targets: u64,
    delta: int,
    capture: bool,
    promo_mask: u64,
    m: PieceMove,
) -> bool {
    &&& m.well_formed()
    &&& bit(targets, m.to_square() as int)
    &&& m.from_square() == m.to_square() - delta
    &&& m.is_capture() == capture
    &&& m.is_promotion() == bit(promo_mask, m.to_square() as int)
}

/// Where a move stands among the moves that are made for a set of target
/// squares: by ascending destination, and among the promotions to one
/// destination in the order queen, rook, bishop, knight.
pub open spec fn target_order(m: PieceMove) -> int {
    4 * m.to_square() + (match m.promotion_type() {
        Some(p) => p.index(),
        None => 0,
    })
}

/// Every square of `bb` moved by `delta` indices, up for a positive
/// `delta` and down for a negative one. Squares that would leave the board
/// are lost; nothing here keeps a square from wrapping to another rank.
pub(crate) fn shifted(bb: u64, delta: i8) -> (r: u64)
    requires
        -64 < delta < 64,
    ensures
        forall|t: int| #[trigger] bit(r, t) == (0 <= t < 64 && bit(bb, t - delta)),
{
    if delta >= 0 {
        proof {
            lemma_shl(bb, delta as u64);
        }
        bb << (delta as u64)
    } else {
        proof {
            lemma_shr(bb, (-delta) as u64);
        }
        bb >> ((-delta) as u64)
    }
}

/// For each square `t` of `targets`, in ascending order, appends the move
/// from `t - delta` to `t` with the given capture flag: one move without
/// promotion, or, where `t` is in `promo_mask`, four moves, one for each
/// promotion piece.
pub(crate) fn push_targets(
    moves: &mut Vec<PieceMove>,
    targets: u64,
    delta: i8,
    capture: bool,
    promo_mask: u64,
)
    requires
        delta != 0,
        forall|t: int| bit(targets, t) ==> 0 <= t - delta < 64,
    ensures
        final(moves)@.len() >= old(moves)@.len(),
        final(moves)@.subrange(0, old(moves)@.len() as int) == old(moves)@,
        forall|j: int|
            old(moves)@.len() <= j < final(moves)@.len() ==> target_move(
                targets,
                delta as int,
                capture,
                promo_mask,
                #[trigger] final(moves)@[j],
            ),
        forall|i: int, j: int|
            old(moves)@.len() <= i < j < final(moves)@.len() ==> target_order(
                #[trigger] final(moves)@[i],
            ) < target_order(#[trigger] final(moves)@[j]),
        forall|m: PieceMove| #[trigger]
            final(moves)@.contains(m) == (old(moves)@.contains(m) || target_move(
                targets,
                delta as int,
                capture,
                promo_mask,
                m,
            )),
        old(moves)@.no_duplicates() && (forall|m: PieceMove|
            target_move(targets, delta as int, capture, promo_mask, m) ==> !old(moves)@.contains(
                m,
            )) ==> final(moves)@.no_duplicates(),
{
    let mut rem = targets;
    let ghost start = old(moves)@;
    let ghost nodup = start.no_duplicates() && (forall|m: PieceMove|
        target_move(targets, delta as int, capture, promo_mask, m) ==> !start.contains(m));
    let ghost mut bound: int = 0;
    proof {
        assert(moves@.subrange(0, start.len() as int) =~= start);
    }
    while rem != 0
        invariant
            delta != 0,
            forall|t: int| bit(targets, t) ==> 0 <= t - delta < 64,
            forall|t: int| bit(rem, t) ==> bit(targets, t),
            moves@.len() >= start.len(),
            moves@.subrange(0, start.len() as int) == start,
            forall|j: int|
                start.len() <= j < moves@.len() ==> target_move(
                    targets,
                    delta as int,
                    capture,
                    promo_mask,
                    #[trigger] moves@[j],
                ),
            forall|t: int| bit(rem, t) ==> t >= bound,
            forall|j: int|
                start.len() <= j < moves@.len() ==> (#[trigger] moves@[j]).to_square() < bound,
            forall|i: int, j: int|
                start.len() <= i < j < moves@.len() ==> target_order(#[trigger] moves@[i])
                    < target_order(#[trigger] moves@[j]),
            forall|m: PieceMove| #[trigger]
                moves@.contains(m) == (start.contains(m) || (target_move(
                    targets,
                    delta as int,
                    capture,
                    promo_mask,
                    m,
                ) && !bit(rem, m.to_square() as int))),
            nodup ==> moves@.no_duplicates(),
            nodup == (start.no_duplicates() && (forall|m: PieceMove|
                target_move(targets, delta as int, capture, promo_mask, m) ==> !start.contains(
                    m,
                ))),
        decreases rem,
    {
        proof {
            lemma_lowest(rem);
        }
        let to = rem.trailing_zeros() as u8;
        let from = (to as i8 - delta) as u8;
        let ghost before = moves@;
        let is_promo = (promo_mask >> (to as u64)) & 1u64 == 1u64;
        if is_promo {
            let q = PieceMove::new(from, to, capture, Some(PromotionType::Queen));
            let r = PieceMove::new(from, to, capture, Some(PromotionType::Rook));
            let b = PieceMove::new(from, to, capture, Some(PromotionType::Bishop));
            let n = PieceMove::new(from, to, capture, Some(PromotionType::Knight));
            add_move_to_list(moves, q);
            add_move_to_list(moves, r);
            add_move_to_list(moves, b);
            add_move_to_list(moves, n);
            proof {
                assert(moves@ =~= before.push(q).push(r).push(b).push(n));
                assert forall|m: PieceMove|
                    target_move(targets, delta as int, capture, promo_mask, m) && m.to_square()
                        == to implies m == q || m == r || m == b || m == n by {
                    match m.promotion_type() {
                        Some(PromotionType::Queen) => PieceMove::lemma_same_reading(m, q),
                        Some(PromotionType::Rook) => PieceMove::lemma_same_reading(m, r),
                        Some(PromotionType::Bishop) => PieceMove::lemma_same_reading(m, b),
                        Some(PromotionType::Knight) => PieceMove::lemma_same_reading(m, n),
                        None => {},
                    }
                }
            }
        } else {
            let x = PieceMove::new(from, to, capture, None);
            add_move_to_list(moves, x);
            proof {
                assert(moves@ =~= before.push(x));
                assert forall|m: PieceMove|
                    target_move(targets, delta as int, capture, promo_mask, m) && m.to_square()
                        == to implies m == x by {
                    PieceMove::lemma_same_reading(m, x);
                }
            }
        }
        proof {
            assert(moves@.subrange(0, start.len() as int) =~= start);
            assert forall|j: int| before.len() <= j < moves@.len() implies (#[trigger] moves@[j]).to_square()
                == to && target_move(targets, delta as int, capture, promo_mask, moves@[j]) by {
            }
            assert forall|j: int| start.len() <= j < before.len() implies #[trigger] moves@[j]
                == before[j] by {
            }
            bound = to + 1;
        }
        rem = rem & (rem - 1);
    }
    proof {
        lemma_zero(rem);
    }
}

/// The moves to one more set of targets keep a list in order of a key that
/// ranks the sets and follows [`target_order`] within each.
pub proof fn lemma_target_block(
    earlier: Seq<PieceMove>,
    later: Seq<PieceMove>,
    targets: u64,
    delta: int,
    capture: bool,
    promo_mask: u64,
    key: spec_fn(PieceMove) -> int,
    rank: int,
)
    requires
        earlier.len() <= later.len(),
        later.subrange(0, earlier.len() as int) == earlier,
        ascending_from(earlier, 0, key),
        forall|i: int| 0 <= i < earlier.len() ==> key(#[trigger] earlier[i]) < 256 * rank,
        forall|j: int|
            earlier.len() <= j < later.len() ==> target_move(
                targets,
                delta,
                capture,
                promo_mask,
                #[trigger] later[j],
            ),
        forall|a: int, b: int|
            earlier.len() <= a < b < later.len() ==> target_order(#[trigger] later[a])
                < target_order(#[trigger] later[b]),
        forall|m: PieceMove|
            target_move(targets, delta, capture, promo_mask, m) ==> #[trigger] key(m) == 256 * rank
                + target_order(m),
    ensures
        ascending_from(later, 0, key),
        forall|i: int| 0 <= i < later.len() ==> key(#[trigger] later[i]) < 256 * (rank + 1),
{
    assert forall|j: int| earlier.len() <= j < later.len() implies 256 * rank <= key(
        #[trigger] later[j],
    ) < 256 * (rank + 1) by {
        assert(target_move(targets, delta, capture, promo_mask, later[j]));
    }
    assert forall|a: int, b: int| earlier.len() <= a < b < later.len() implies key(
        #[trigger] later[a],
    ) < key(#[trigger] later[b]) by {
        assert(target_move(targets, delta, capture, promo_mask, later[a]));
        assert(target_move(targets, delta, capture, promo_mask, later[b]));
        assert(target_order(later[a]) < target_order(later[b]));
    }
    lemma_add_block(earlier, later, key, 256 * rank, 256 * (rank + 1));
}

} // verus!
