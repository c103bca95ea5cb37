//! Moves of the pieces that slide along a line until something blocks them.

use crate::bits::{bit, lemma_and, lemma_not, lemma_zero};
use crate::constants::{FILE_A, FILE_H};
use crate::geometry::{
    between, distance, file_diff, in_direction, on_board, rank_diff, same_diagonal, same_line,
    scaled,
};
use crate::model::piecemove::PieceMove;
use crate::movegen::leaper::block_order;
use crate::movegen::list::{
    ascending_from, lemma_add_block, push_targets, shifted, target_move, target_order,
};
use vstd::prelude::*;

verus! {

/// A well-formed move without promotion of one of `pieces` along the
/// direction of `dr` ranks and `df` files per step, over squares that are
/// not in `occupied`: a capture if the destination is in `others`, a quiet
/// move if it is not in `occupied`.
pub open spec fn ray_move(
    pieces: u64,
    occupied: u64,
    others: u64,
    dr: int,
    df: int,
    m: PieceMove,
) -> bool {
    let from = m.from_square() as int;
    let to = m.to_square() as int;
    &&& m.well_formed()
    &&& !m.is_promotion()
    &&& bit(pieces, from)
    &&& in_direction(from, to, dr, df)
    &&& forall|q: int| between(from, to, q) ==> !#[trigger] bit(occupied, q)
    &&& if m.is_capture() {
        bit(others, to)
    } else {
        !bit(occupied, to)
    }
}

/// The index offset of `i` steps of `dr` ranks and `df` files each.
pub open spec fn span(dr: int, df: int, i: int) -> int {
    8 * scaled(dr, i) + scaled(df, i)
}

/// A step onto `t` in a direction with `df` files per step does not cross
/// the edge of the board: going right it does not land on file a, going
/// left not on file h.
pub open spec fn no_wrap(df: int, t: int) -> bool {
    (df > 0 ==> t % 8 != 0) && (df < 0 ==> t % 8 != 7)
}

/// The square `t` is reached after exactly `i` steps from one of `pieces`
/// over squares that are not in `occupied`; `t` itself may hold anything.
#[verifier::opaque]
pub open spec fn lands(pieces: u64, occupied: u64, dr: int, df: int, i: int, t: int) -> bool {
    let s = t - span(dr, df, i);
    &&& on_board(t)
    &&& on_board(s)
    &&& bit(pieces, s)
    &&& rank_diff(s, t) == scaled(dr, i)
    &&& file_diff(s, t) == scaled(df, i)
    &&& forall|q: int| between(s, t, q) ==> !#[trigger] bit(occupied, q)
}

/// A ray lands on `t` after `i + 1` steps exactly when `t` is one step,
/// without wrapping, from where it stood after `i` steps: on a piece for
/// `i == 0`, on an empty square it landed on otherwise.
proof fn lemma_lands_step(pieces: u64, occupied: u64, dr: int, df: int, i: int, t: int)
    requires
        -1 <= dr <= 1,
        -1 <= df <= 1,
        dr != 0 || df != 0,
        0 <= i < 7,
    ensures
        lands(pieces, occupied, dr, df, i + 1, t) == (on_board(t) && no_wrap(df, t) && on_board(
            t - (8 * dr + df),
        ) && (if i == 0 {
            bit(pieces, t - (8 * dr + df))
        } else {
            lands(pieces, occupied, dr, df, i, t - (8 * dr + df)) && !bit(
                occupied,
                t - (8 * dr + df),
            )
        })),
{
    reveal(lands);
    let p = t - (8 * dr + df);
    let s = t - span(dr, df, i + 1);
    assert(s == p - span(dr, df, i));
    if on_board(t) && on_board(p) && no_wrap(df, t) {
        assert(rank_diff(p, t) == dr && file_diff(p, t) == df);
        if on_board(s) && rank_diff(s, p) == scaled(dr, i) && file_diff(s, p) == scaled(df, i) {
            assert forall|q: int| between(s, t, q) == (between(s, p, q) || (i >= 1 && q == p)) by {
            }
        }
    }
    if on_board(t) && on_board(s) && rank_diff(s, t) == scaled(dr, i + 1) && file_diff(s, t)
        == scaled(df, i + 1) {
        assert(on_board(p));
        assert(no_wrap(df, t));
        assert(rank_diff(p, t) == dr && file_diff(p, t) == df);
        assert forall|q: int| between(s, t, q) == (between(s, p, q) || (i >= 1 && q == p)) by {
        }
    }
}

/// A ray move over a distance of `i` is a move onto a square on which the
/// ray from the move's origin lands after `i` steps.
proof fn lemma_ray_lands(
    pieces: u64,
    occupied: u64,
    others: u64,
    dr: int,
    df: int,
    i: int,
    m: PieceMove,
)
    requires
        -1 <= dr <= 1,
        -1 <= df <= 1,
        dr != 0 || df != 0,
        1 <= i <= 7,
    ensures
        (ray_move(pieces, occupied, others, dr, df, m) && distance(
            m.from_square() as int,
            m.to_square() as int,
        ) == i) == {
            &&& m.well_formed()
            &&& !m.is_promotion()
            &&& lands(pieces, occupied, dr, df, i, m.to_square() as int)
            &&& m.from_square() == m.to_square() - span(dr, df, i)
            &&& if m.is_capture() {
                bit(others, m.to_square() as int)
            } else {
                !bit(occupied, m.to_square() as int)
            }
        },
{
    reveal(lands);
}

/// A ray move over a distance of more than `i` passes the empty square on
/// which the ray from its origin lands after `i` steps.
proof fn lemma_ray_passes(
    pieces: u64,
    occupied: u64,
    others: u64,
    dr: int,
    df: int,
    i: int,
    m: PieceMove,
)
    requires
        -1 <= dr <= 1,
        -1 <= df <= 1,
        dr != 0 || df != 0,
        1 <= i <= 7,
        ray_move(pieces, occupied, others, dr, df, m),
        distance(m.from_square() as int, m.to_square() as int) > i,
    ensures
        lands(pieces, occupied, dr, df, i, m.from_square() + span(dr, df, i)),
        !bit(occupied, m.from_square() + span(dr, df, i)),
{
    reveal(lands);
    let from = m.from_square() as int;
    let to = m.to_square() as int;
    let q = from + span(dr, df, i);
    assert(on_board(q));
    assert(rank_diff(from, q) == scaled(dr, i));
    assert(file_diff(from, q) == scaled(df, i));
    assert(between(from, to, q));
    assert forall|x: int| between(from, q, x) implies !#[trigger] bit(occupied, x) by {
        assert(between(from, to, x));
    }
}

/// Where a move stands among the moves along one direction: by the number
/// of steps, then captures before quiet moves, then by destination.
pub open spec fn slide_order(m: PieceMove) -> int {
    512 * distance(m.from_square() as int, m.to_square() as int) + block_order(m)
}

/// The captures and the quiet moves of one more step of the rays keep a
/// list of ray moves in order.
proof fn lemma_blocks_of_step(
    start: Seq<PieceMove>,
    before: Seq<PieceMove>,
    mid: Seq<PieceMove>,
    after: Seq<PieceMove>,
    pieces: u64,
    occupied: u64,
    others: u64,
    dr: int,
    df: int,
    i: int,
    captures: u64,
    quiet: u64,
)
    requires
        -1 <= dr <= 1,
        -1 <= df <= 1,
        dr != 0 || df != 0,
        1 <= i <= 7,
        start.len() <= before.len() <= mid.len() <= after.len(),
        before.subrange(0, start.len() as int) == start,
        mid.subrange(0, before.len() as int) == before,
        after.subrange(0, mid.len() as int) == mid,
        forall|j: int|
            start.len() <= j < before.len() ==> ray_move(
                pieces,
                occupied,
                others,
                dr,
                df,
                #[trigger] before[j],
            ) && distance(before[j].from_square() as int, before[j].to_square() as int) < i,
        forall|a: int, b: int|
            start.len() <= a < b < before.len() ==> slide_order(#[trigger] before[a])
                < slide_order(#[trigger] before[b]),
        forall|j: int|
            before.len() <= j < mid.len() ==> target_move(
                captures,
                span(dr, df, i),
                true,
                0,
                #[trigger] mid[j],
            ),
        forall|j: int|
            mid.len() <= j < after.len() ==> target_move(
                quiet,
                span(dr, df, i),
                false,
                0,
                #[trigger] after[j],
            ),
        forall|a: int, b: int|
            before.len() <= a < b < mid.len() ==> target_order(#[trigger] mid[a]) < target_order(
                #[trigger] mid[b],
            ),
        forall|a: int, b: int|
            mid.len() <= a < b < after.len() ==> target_order(#[trigger] after[a])
                < target_order(#[trigger] after[b]),
        forall|m: PieceMove|
            target_move(captures, span(dr, df, i), true, 0, m) ==> ray_move(
                pieces,
                occupied,
                others,
                dr,
                df,
                m,
            ) && distance(m.from_square() as int, m.to_square() as int) == i,
        forall|m: PieceMove|
            target_move(quiet, span(dr, df, i), false, 0, m) ==> ray_move(
                pieces,
                occupied,
                others,
                dr,
                df,
                m,
            ) && distance(m.from_square() as int, m.to_square() as int) == i,
    ensures
        after.subrange(0, start.len() as int) == start,
        forall|j: int|
            start.len() <= j < after.len() ==> ray_move(
                pieces,
                occupied,
                others,
                dr,
                df,
                #[trigger] after[j],
            ) && distance(after[j].from_square() as int, after[j].to_square() as int) <= i,
        forall|a: int, b: int|
            start.len() <= a < b < after.len() ==> slide_order(#[trigger] after[a]) < slide_order(
                #[trigger] after[b],
            ),
{
    crate::bits::lemma_constants();
    assert forall|j: int| 0 <= j < mid.len() implies #[trigger] after[j] == mid[j] by {
        assert(after.subrange(0, mid.len() as int)[j] == after[j]);
    }
    assert forall|j: int| 0 <= j < before.len() implies #[trigger] mid[j] == before[j] by {
        assert(mid.subrange(0, before.len() as int)[j] == mid[j]);
    }
    assert forall|j: int| 0 <= j < start.len() implies #[trigger] before[j] == start[j] by {
        assert(before.subrange(0, start.len() as int)[j] == before[j]);
    }
    assert(after.subrange(0, start.len() as int) =~= start);
    assert forall|j: int| start.len() <= j < after.len() implies ray_move(
        pieces,
        occupied,
        others,
        dr,
        df,
        #[trigger] after[j],
    ) && distance(after[j].from_square() as int, after[j].to_square() as int) <= i
        && (j >= before.len() ==> distance(
        after[j].from_square() as int,
        after[j].to_square() as int,
    ) == i && after[j].is_capture() == (j < mid.len()) && !after[j].is_promotion()) by {
        if j < before.len() {
            assert(after[j] == before[j]);
        } else if j < mid.len() {
            assert(after[j] == mid[j]);
            assert(target_move(captures, span(dr, df, i), true, 0, mid[j]));
        } else {
            assert(target_move(quiet, span(dr, df, i), false, 0, after[j]));
        }
    }
    assert forall|a: int, b: int| start.len() <= a < b < after.len() implies slide_order(
        #[trigger] after[a],
    ) < slide_order(#[trigger] after[b]) by {
        if b < before.len() {
            assert(after[a] == before[a] && after[b] == before[b]);
        } else if a < before.len() {
            assert(after[a] == before[a]);
            assert(distance(before[a].from_square() as int, before[a].to_square() as int) < i);
        } else if b < mid.len() {
            assert(after[a] == mid[a] && after[b] == mid[b]);
            assert(target_order(mid[a]) < target_order(mid[b]));
        } else if a >= mid.len() {
            assert(target_order(after[a]) < target_order(after[b]));
        } else {
            assert(after[a] == mid[a]);
        }
    }
}

/// Appends the moves of all `pieces` along one direction, step by step
/// outward: at each distance first the captures, then the quiet moves, each
/// by ascending destination. A ray ends on the first occupied square, which
/// is captured if it is in `others`.
#[verifier::rlimit(60)]
pub(crate) fn slide(
    moves: &mut Vec<PieceMove>,
    pieces: u64,
    occupied: u64,
    others: u64,
    dr: i8,
    df: i8,
)
    requires
        -1 <= dr <= 1,
        -1 <= df <= 1,
        dr != 0 || df != 0,
        forall|t: int| bit(others, t) ==> bit(occupied, t),
    ensures
        final(moves)@.len() >= old(moves)@.len(),
        final(moves)@.subrange(0, old(moves)@.len() as int) == old(moves)@,
        forall|j: int|
            old(moves)@.len() <= j < final(moves)@.len() ==> ray_move(
                pieces,
                occupied,
                others,
                dr as int,
                df as int,
                #[trigger] final(moves)@[j],
            ),
        forall|i: int, j: int|
            old(moves)@.len() <= i < j < final(moves)@.len() ==> slide_order(
                #[trigger] final(moves)@[i],
            ) < slide_order(#[trigger] final(moves)@[j]),
        forall|m: PieceMove| #[trigger]
            final(moves)@.contains(m) == (old(moves)@.contains(m) || ray_move(
                pieces,
                occupied,
                others,
                dr as int,
                df as int,
                m,
            )),
        old(moves)@.no_duplicates() && (forall|m: PieceMove|
            ray_move(pieces, occupied, others, dr as int, df as int, m) ==> !old(moves)@.contains(
                m,
            )) ==> final(moves)@.no_duplicates(),
{
    let off: i8 = 8 * dr + df;
    let guard: u64 = if df > 0 {
        FILE_A
    } else if df < 0 {
        FILE_H
    } else {
        0
    };
    let ghost nodup = old(moves)@.no_duplicates() && (forall|m: PieceMove|
        ray_move(pieces, occupied, others, dr as int, df as int, m) ==> !old(moves)@.contains(m));
    let mut ray = pieces;
    let mut delta: i8 = 0;
    let mut i: u8 = 0;
    let ghost start = old(moves)@;
    proof {
        crate::bits::lemma_masks();
        crate::bits::lemma_constants();
        lemma_not(guard);
        lemma_not(occupied);
        assert(moves@.subrange(0, start.len() as int) =~= start);
    }
    while i < 7 && ray != 0
        invariant
            start == old(moves)@,
            moves@.len() >= start.len(),
            moves@.subrange(0, start.len() as int) == start,
            forall|j: int|
                start.len() <= j < moves@.len() ==> ray_move(
                    pieces,
                    occupied,
                    others,
                    dr as int,
                    df as int,
                    #[trigger] moves@[j],
                ) && distance(moves@[j].from_square() as int, moves@[j].to_square() as int) <= i,
            forall|a: int, b: int|
                start.len() <= a < b < moves@.len() ==> slide_order(#[trigger] moves@[a])
                    < slide_order(#[trigger] moves@[b]),
            -1 <= dr <= 1,
            -1 <= df <= 1,
            dr != 0 || df != 0,
            off == 8 * dr + df,
            forall|t: int| bit(others, t) ==> bit(occupied, t),
            0 <= i <= 7,
            delta == span(dr as int, df as int, i as int),
            i == 0 ==> ray == pieces,
            i >= 1 ==> forall|t: int| #[trigger]
                bit(ray, t) == (lands(pieces, occupied, dr as int, df as int, i as int, t) && !bit(
                    occupied,
                    t,
                )),
            forall|m: PieceMove| #[trigger]
                moves@.contains(m) == (old(moves)@.contains(m) || (ray_move(
                    pieces,
                    occupied,
                    others,
                    dr as int,
                    df as int,
                    m,
                ) && distance(m.from_square() as int, m.to_square() as int) <= i)),
            nodup ==> moves@.no_duplicates(),
            nodup == (old(moves)@.no_duplicates() && (forall|m: PieceMove|
                ray_move(pieces, occupied, others, dr as int, df as int, m) ==> !old(
                    moves,
                )@.contains(m))),
            forall|t: int| #[trigger] bit(!guard, t) == (0 <= t < 64 && no_wrap(df as int, t)),
            forall|t: int| #[trigger] bit(!occupied, t) == (0 <= t < 64 && !bit(occupied, t)),
        decreases 7 - i,
    {
        let ghost prev = ray;
        let ghost before = moves@;
        let ghost i0 = i as int;
        let moved = shifted(ray, off);
        proof {
            lemma_and(moved, !guard);
        }
        let landed = moved & !guard;
        proof {
            lemma_and(landed, others);
            lemma_and(landed, !occupied);
            assert forall|t: int| #[trigger]
                bit(landed, t) == lands(pieces, occupied, dr as int, df as int, i0 + 1, t) by {
                lemma_lands_step(pieces, occupied, dr as int, df as int, i0, t);
                assert(bit(moved, t) == (0 <= t < 64 && bit(prev, t - off)));
            }
            assert forall|t: int| bit(landed, t) implies 0 <= t - (delta + off) < 64 by {
                reveal(lands);
            }
        }
        delta = delta + off;
        i = i + 1;
        let captures = landed & others;
        let quiet = landed & !occupied;
        push_targets(moves, captures, delta, true, 0);
        let ghost mid = moves@;
        push_targets(moves, quiet, delta, false, 0);
        ray = quiet;
        proof {
            crate::bits::lemma_constants();
            assert forall|m: PieceMove|
                target_move(captures, span(dr as int, df as int, i as int), true, 0, m) implies ray_move(
                pieces,
                occupied,
                others,
                dr as int,
                df as int,
                m,
            ) && distance(m.from_square() as int, m.to_square() as int) == i by {
                lemma_ray_lands(pieces, occupied, others, dr as int, df as int, i as int, m);
            }
            assert forall|m: PieceMove|
                target_move(quiet, span(dr as int, df as int, i as int), false, 0, m) implies ray_move(
                pieces,
                occupied,
                others,
                dr as int,
                df as int,
                m,
            ) && distance(m.from_square() as int, m.to_square() as int) == i by {
                lemma_ray_lands(pieces, occupied, others, dr as int, df as int, i as int, m);
            }
            lemma_blocks_of_step(
                start,
                before,
                mid,
                moves@,
                pieces,
                occupied,
                others,
                dr as int,
                df as int,
                i as int,
                captures,
                quiet,
            );
            assert forall|m: PieceMove| #[trigger]
                moves@.contains(m) == (old(moves)@.contains(m) || (ray_move(
                    pieces,
                    occupied,
                    others,
                    dr as int,
                    df as int,
                    m,
                ) && distance(m.from_square() as int, m.to_square() as int) <= i)) by {
                lemma_ray_lands(pieces, occupied, others, dr as int, df as int, i as int, m);
                assert(moves@.contains(m) == (mid.contains(m) || target_move(
                    quiet,
                    delta as int,
                    false,
                    0,
                    m,
                )));
                assert(mid.contains(m) == (before.contains(m) || target_move(
                    captures,
                    delta as int,
                    true,
                    0,
                    m,
                )));
            }
            if nodup {
                assert forall|m: PieceMove|
                    target_move(captures, delta as int, true, 0, m) implies !before.contains(m) by {
                    lemma_ray_lands(pieces, occupied, others, dr as int, df as int, i as int, m);
                }
                assert forall|m: PieceMove|
                    target_move(quiet, delta as int, false, 0, m) implies !mid.contains(m) by {
                    lemma_ray_lands(pieces, occupied, others, dr as int, df as int, i as int, m);
                }
            }
        }
    }
    proof {
        assert forall|m: PieceMove|
            ray_move(
                pieces,
                occupied,
                others,
                dr as int,
                df as int,
                m,
            ) implies distance(m.from_square() as int, m.to_square() as int) <= i by {
            let from = m.from_square() as int;
            let to = m.to_square() as int;
            if distance(from, to) > i {
                lemma_zero(ray);
                if i == 0 {
                    assert(bit(ray, from));
                } else {
                    lemma_ray_passes(pieces, occupied, others, dr as int, df as int, i as int, m);
                    assert(bit(ray, from + delta));
                }
            }
        }
    }
}

/// A well-formed move without promotion of one of `pieces` along a rank or
/// file (`diagonal` false) or along a diagonal (`diagonal` true), over
/// squares that are not in `occupied`: a capture if the destination is in
/// `others`, a quiet move if it is not in `occupied`.
pub open spec fn line_move(
    pieces: u64,
    occupied: u64,
    others: u64,
    diagonal: bool,
    m: PieceMove,
) -> bool {
    let from = m.from_square() as int;
    let to = m.to_square() as int;
    &&& m.well_formed()
    &&& !m.is_promotion()
    &&& bit(pieces, from)
    &&& from != to
    &&& if diagonal {
        same_diagonal(from, to)
    } else {
        same_line(from, to)
    }
    &&& forall|q: int| between(from, to, q) ==> !#[trigger] bit(occupied, q)
    &&& if m.is_capture() {
        bit(others, to)
    } else {
        !bit(occupied, to)
    }
}

/// The place of the direction from `from` to `to` among the four straight
/// directions: up, right, down, left.
pub open spec fn straight_rank(from: int, to: int) -> int {
    if rank_diff(from, to) > 0 {
        0
    } else if file_diff(from, to) > 0 {
        1
    } else if rank_diff(from, to) < 0 {
        2
    } else {
        3
    }
}

/// The place of the direction from `from` to `to` among the four diagonal
/// directions: up and left, up and right, down and left, down and right.
pub open spec fn diagonal_rank(from: int, to: int) -> int {
    if rank_diff(from, to) > 0 {
        if file_diff(from, to) < 0 {
            0
        } else {
            1
        }
    } else {
        if file_diff(from, to) < 0 {
            2
        } else {
            3
        }
    }
}

/// Where a move stands among the moves along ranks and files
/// (`diagonal` false) or along diagonals (`diagonal` true): by direction,
/// then by the number of steps, then captures before quiet moves, then by
/// destination.
pub open spec fn line_order(diagonal: bool, m: PieceMove) -> int {
    4096 * (if diagonal {
        diagonal_rank(m.from_square() as int, m.to_square() as int)
    } else {
        straight_rank(m.from_square() as int, m.to_square() as int)
    }) + slide_order(m)
}

/// The ranks and files of one step in the direction with the given place.
pub open spec fn line_direction(diagonal: bool, rank: int) -> (int, int) {
    if diagonal {
        if rank == 0 {
            (1, -1)
        } else if rank == 1 {
            (1, 1)
        } else if rank == 2 {
            (-1, -1)
        } else {
            (-1, 1)
        }
    } else {
        if rank == 0 {
            (1, 0)
        } else if rank == 1 {
            (0, 1)
        } else if rank == 2 {
            (-1, 0)
        } else {
            (0, -1)
        }
    }
}

/// A move along a line is a move along the ray of one of the four
/// directions, whose place is the place of the move's direction.
proof fn lemma_line_rays(
    pieces: u64,
    occupied: u64,
    others: u64,
    diagonal: bool,
    m: PieceMove,
)
    ensures
        line_move(pieces, occupied, others, diagonal, m) == (exists|rank: int|
            0 <= rank < 4 && #[trigger] ray_move(
                pieces,
                occupied,
                others,
                line_direction(diagonal, rank).0,
                line_direction(diagonal, rank).1,
                m,
            )),
        forall|rank: int|
            0 <= rank < 4 && #[trigger] ray_move(
                pieces,
                occupied,
                others,
                line_direction(diagonal, rank).0,
                line_direction(diagonal, rank).1,
                m,
            ) ==> line_order(diagonal, m) == 4096 * rank + slide_order(m) && 0 <= slide_order(m)
                < 4096,
{
    let from = m.from_square() as int;
    let to = m.to_square() as int;
    if line_move(pieces, occupied, others, diagonal, m) {
        let rank = if diagonal {
            diagonal_rank(from, to)
        } else {
            straight_rank(from, to)
        };
        assert(ray_move(
            pieces,
            occupied,
            others,
            line_direction(diagonal, rank).0,
            line_direction(diagonal, rank).1,
            m,
        ));
    }
}

/// The moves along the ray of one more direction keep a list of line moves
/// in order.
proof fn lemma_ray_block(
    earlier: Seq<PieceMove>,
    later: Seq<PieceMove>,
    pieces: u64,
    occupied: u64,
    others: u64,
    diagonal: bool,
    rank: int,
)
    requires
        0 <= rank < 4,
        earlier.len() <= later.len(),
        later.subrange(0, earlier.len() as int) == earlier,
        ascending_from(earlier, 0, |m: PieceMove| line_order(diagonal, m)),
        forall|i: int|
            0 <= i < earlier.len() ==> line_order(diagonal, #[trigger] earlier[i]) < 4096 * rank,
        forall|j: int|
            earlier.len() <= j < later.len() ==> ray_move(
                pieces,
                occupied,
                others,
                line_direction(diagonal, rank).0,
                line_direction(diagonal, rank).1,
                #[trigger] later[j],
            ),
        forall|a: int, b: int|
            earlier.len() <= a < b < later.len() ==> slide_order(#[trigger] later[a])
                < slide_order(#[trigger] later[b]),
    ensures
        ascending_from(later, 0, |m: PieceMove| line_order(diagonal, m)),
        forall|i: int|
            0 <= i < later.len() ==> line_order(diagonal, #[trigger] later[i]) < 4096 * (rank + 1),
{
    let key = |m: PieceMove| line_order(diagonal, m);
    assert forall|j: int| earlier.len() <= j < later.len() implies 4096 * rank <= key(
        #[trigger] later[j],
    ) < 4096 * (rank + 1) by {
        lemma_line_rays(pieces, occupied, others, diagonal, later[j]);
    }
    assert forall|a: int, b: int| earlier.len() <= a < b < later.len() implies key(
        #[trigger] later[a],
    ) < key(#[trigger] later[b]) by {
        lemma_line_rays(pieces, occupied, others, diagonal, later[a]);
        lemma_line_rays(pieces, occupied, others, diagonal, later[b]);
    }
    assert forall|i: int| 0 <= i < earlier.len() implies key(#[trigger] earlier[i]) < 4096
        * rank by {
    }
    lemma_add_block(earlier, later, key, 4096 * rank, 4096 * (rank + 1));
}

/// Appends the moves of all `pieces` along the four straight directions
/// (`diagonal` false: up, right, down, left) or along the four diagonal
/// directions (`diagonal` true: up and left, up and right, down and left,
/// down and right), direction by direction, to an empty list.
pub(crate) fn slide_lines(pieces: u64, occupied: u64, others: u64, diagonal: bool) -> (moves: Vec<
    PieceMove,
>)
    requires
        forall|t: int| bit(others, t) ==> bit(occupied, t),
    ensures
        forall|m: PieceMove| #[trigger]
            moves@.contains(m) == line_move(pieces, occupied, others, diagonal, m),
        ascending_from(moves@, 0, |m: PieceMove| line_order(diagonal, m)),
        forall|i: int| 0 <= i < moves.len() ==> 0 <= line_order(diagonal, #[trigger] moves[i])
            < 16384,
{
    let mut moves: Vec<PieceMove> = Vec::new();
    let ghost s0 = moves@;
    let (r0, f0): (i8, i8) = if diagonal {
        (1, -1)
    } else {
        (1, 0)
    };
    let (r1, f1): (i8, i8) = if diagonal {
        (1, 1)
    } else {
        (0, 1)
    };
    let (r2, f2): (i8, i8) = if diagonal {
        (-1, -1)
    } else {
        (-1, 0)
    };
    let (r3, f3): (i8, i8) = if diagonal {
        (-1, 1)
    } else {
        (0, -1)
    };
    slide(&mut moves, pieces, occupied, others, r0, f0);
    let ghost s1 = moves@;
    proof {
        lemma_ray_block(s0, s1, pieces, occupied, others, diagonal, 0);
    }
    slide(&mut moves, pieces, occupied, others, r1, f1);
    let ghost s2 = moves@;
    proof {
        lemma_ray_block(s1, s2, pieces, occupied, others, diagonal, 1);
    }
    slide(&mut moves, pieces, occupied, others, r2, f2);
    let ghost s3 = moves@;
    proof {
        lemma_ray_block(s2, s3, pieces, occupied, others, diagonal, 2);
    }
    slide(&mut moves, pieces, occupied, others, r3, f3);
    proof {
        lemma_ray_block(s3, moves@, pieces, occupied, others, diagonal, 3);
        assert forall|m: PieceMove| #[trigger]
            moves@.contains(m) == line_move(pieces, occupied, others, diagonal, m) by {
            lemma_line_rays(pieces, occupied, others, diagonal, m);
            assert(!s0.contains(m));
            assert(s2.contains(m) == (s1.contains(m) || ray_move(
                pieces,
                occupied,
                others,
                r1 as int,
                f1 as int,
                m,
            )));
            assert(s3.contains(m) == (s2.contains(m) || ray_move(
                pieces,
                occupied,
                others,
                r2 as int,
                f2 as int,
                m,
            )));
            if line_move(pieces, occupied, others, diagonal, m) {
                let rank = choose|rank: int|
                    0 <= rank < 4 && #[trigger] ray_move(
                        pieces,
                        occupied,
                        others,
                        line_direction(diagonal, rank).0,
                        line_direction(diagonal, rank).1,
                        m,
                    );
                assert(rank == 0 || rank == 1 || rank == 2 || rank == 3);
            }
            assert(line_direction(diagonal, 0) == (r0 as int, f0 as int));
            assert(line_direction(diagonal, 1) == (r1 as int, f1 as int));
            assert(line_direction(diagonal, 2) == (r2 as int, f2 as int));
            assert(line_direction(diagonal, 3) == (r3 as int, f3 as int));
        }
        assert forall|i: int| 0 <= i < moves.len() implies 0 <= line_order(
            diagonal,
            #[trigger] moves[i],
        ) by {
            assert(moves@.contains(moves[i]));
        }
    }
    moves
}

} // verus!
