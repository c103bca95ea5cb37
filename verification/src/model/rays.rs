//! Directional rays: for a square and one of the eight directions, the
//! squares from the next one out to the edge of the board.

use crate::bits::{bit, lemma_constants, lemma_or, lemma_single};
use crate::geometry::{
    between, distance, file_diff, in_direction, king_step, knight_jump, lemma_toward, pawn_attack,
    rank_diff, same_diagonal, same_line, scaled, sign, toward,
};
use crate::legal::attack::{king_attacks, knight_attacks};
use vstd::prelude::*;

verus! {

/// The index offsets of one step in each of the eight directions, in the
/// order in which [`rays`] numbers them.
pub const DIR_OFFSETS: [i8; 8] = [1, -1, -8, 8, -7, -9, 9, 7];

/// The ranks and files of one step with the index offset `dir`, if `dir` is
/// the offset of one of the eight directions.
pub open spec fn spec_direction_of(dir: i8) -> Option<(i8, i8)> {
    if dir == 1 {
        Some((0i8, 1i8))
    } else if dir == -1 {
        Some((0i8, -1i8))
    } else if dir == 8 {
        Some((1i8, 0i8))
    } else if dir == -8 {
        Some((-1i8, 0i8))
    } else if dir == 9 {
        Some((1i8, 1i8))
    } else if dir == -9 {
        Some((-1i8, -1i8))
    } else if dir == 7 {
        Some((1i8, -1i8))
    } else if dir == -7 {
        Some((-1i8, 1i8))
    } else {
        None
    }
}

#[verifier::when_used_as_spec(spec_direction_of)]
pub fn direction_of(dir: i8) -> (r: Option<(i8, i8)>)
    ensures
        r == spec_direction_of(dir),
        r matches Some((dr, df)) ==> -1 <= dr <= 1 && -1 <= df <= 1 && (dr != 0 || df != 0) && dir
            == 8 * dr + df,
{
    if dir == 1 {
        Some((0, 1))
    } else if dir == -1 {
        Some((0, -1))
    } else if dir == 8 {
        Some((1, 0))
    } else if dir == -8 {
        Some((-1, 0))
    } else if dir == 9 {
        Some((1, 1))
    } else if dir == -9 {
        Some((-1, -1))
    } else if dir == 7 {
        Some((1, -1))
    } else if dir == -7 {
        Some((-1, 1))
    } else {
        None
    }
}

/// The squares of the ray from `square` in the direction of `dr` ranks and
/// `df` files per step, `square` itself left out.
pub fn ray_mask(square: u8, dr: i8, df: i8) -> (mask: u64)
    requires
        square < 64,
        -1 <= dr <= 1,
        -1 <= df <= 1,
        dr != 0 || df != 0,
    ensures
        forall|t: int| #[trigger] bit(mask, t) == in_direction(square as int, t, dr as int, df as int),
{
    let mut mask: u64 = 0;
    let mut r: i8 = (square / 8) as i8 + dr;
    let mut f: i8 = (square % 8) as i8 + df;
    let mut k: u8 = 0;
    proof {
        lemma_constants();
    }
    while 0 <= r && r < 8 && 0 <= f && f < 8
        invariant
            square < 64,
            -1 <= dr <= 1,
            -1 <= df <= 1,
            dr != 0 || df != 0,
            0 <= k <= 7,
            r == square / 8 + scaled(dr as int, k + 1),
            f == square % 8 + scaled(df as int, k + 1),
            forall|t: int| #[trigger]
                bit(mask, t) == (in_direction(square as int, t, dr as int, df as int) && distance(
                    square as int,
                    t,
                ) <= k),
        decreases 8 - k,
    {
        let cur = (r * 8 + f) as u8;
        proof {
            lemma_single(cur as u64);
            lemma_or(mask, 1u64 << (cur as u64));
            assert(in_direction(square as int, cur as int, dr as int, df as int));
            assert(distance(square as int, cur as int) == k + 1);
            assert forall|t: int|
                in_direction(square as int, t, dr as int, df as int) && distance(square as int, t)
                    == k + 1 implies t == cur by {
            }
        }
        mask = mask | (1u64 << (cur as u64));
        r = r + dr;
        f = f + df;
        k = k + 1;
    }
    proof {
        assert forall|t: int| in_direction(square as int, t, dr as int, df as int) implies distance(
            square as int,
            t,
        ) <= k by {
        }
    }
    mask
}

/// Build a ray mask for a single square and the index offset of one of the
/// eight directions.
pub fn build_ray_for(square: u8, dir: i8) -> (mask: u64)
    requires
        square < 64,
        spec_direction_of(dir).is_some(),
    ensures
        forall|t: int| #[trigger]
            bit(mask, t) == in_direction(
                square as int,
                t,
                spec_direction_of(dir).unwrap().0 as int,
                spec_direction_of(dir).unwrap().1 as int,
            ),
{
    match direction_of(dir) {
        Some((dr, df)) => ray_mask(square, dr, df),
        None => 0,
    }
}

/// The ray from `square` in the direction numbered `index` in
/// [`DIR_OFFSETS`].
pub fn rays(square: u8, index: usize) -> (mask: u64)
    requires
        square < 64,
        index < 8,
    ensures
        forall|t: int| #[trigger]
            bit(mask, t) == in_direction(
                square as int,
                t,
                spec_direction_of(DIR_OFFSETS[index as int]).unwrap().0 as int,
                spec_direction_of(DIR_OFFSETS[index as int]).unwrap().1 as int,
            ),
{
    build_ray_for(square, DIR_OFFSETS[index])
}

/// The squares a knight on `square` jumps to.
pub fn knight_moves(square: u8) -> (mask: u64)
    requires
        square < 64,
    ensures
        forall|t: int| #[trigger] bit(mask, t) == knight_jump(square as int, t),
{
    proof {
        lemma_single(square as u64);
    }
    let mask = knight_attacks(1u64 << (square as u64));
    proof {
        assert forall|t: int| #[trigger] bit(mask, t) == knight_jump(square as int, t) by {
            if knight_jump(square as int, t) {
                assert(bit(1u64 << (square as u64), square as int));
            }
        }
    }
    mask
}

/// The squares next to `square`.
pub fn king_moves(square: u8) -> (mask: u64)
    requires
        square < 64,
    ensures
        forall|t: int| #[trigger] bit(mask, t) == king_step(square as int, t),
{
    proof {
        lemma_single(square as u64);
    }
    let mask = king_attacks(1u64 << (square as u64));
    proof {
        assert forall|t: int| #[trigger] bit(mask, t) == king_step(square as int, t) by {
            if king_step(square as int, t) {
                assert(bit(1u64 << (square as u64), square as int));
            }
        }
    }
    mask
}

/// The squares that a pawn of the given colour on `square` attacks.
fn pawn_attack_mask(square: u8, white: bool) -> (mask: u64)
    requires
        square < 64,
    ensures
        forall|t: int| #[trigger] bit(mask, t) == pawn_attack(white, square as int, t),
{
    let rank = square / 8;
    let file = square % 8;
    let mut mask: u64 = 0;
    proof {
        lemma_constants();
    }
    if (white && rank < 7) || (!white && rank > 0) {
        let ahead: u8 = if white {
            square + 8
        } else {
            square - 8
        };
        if file > 0 {
            proof {
                lemma_single((ahead - 1) as u64);
                lemma_or(mask, 1u64 << ((ahead - 1) as u64));
            }
            mask = mask | (1u64 << ((ahead - 1) as u64));
        }
        if file < 7 {
            proof {
                lemma_single((ahead + 1) as u64);
                lemma_or(mask, 1u64 << ((ahead + 1) as u64));
            }
            mask = mask | (1u64 << ((ahead + 1) as u64));
        }
    }
    mask
}

/// The squares that a white pawn on `square` attacks.
pub fn pawn_attack_white(square: u8) -> (mask: u64)
    requires
        square < 64,
    ensures
        forall|t: int| #[trigger] bit(mask, t) == pawn_attack(true, square as int, t),
{
    pawn_attack_mask(square, true)
}

/// The squares that a black pawn on `square` attacks.
pub fn pawn_attack_black(square: u8) -> (mask: u64)
    requires
        square < 64,
    ensures
        forall|t: int| #[trigger] bit(mask, t) == pawn_attack(false, square as int, t),
{
    pawn_attack_mask(square, false)
}

/// The square one rank ahead of a white pawn on `square`, if there is one.
pub fn pawn_push_white(square: u8) -> (mask: u64)
    requires
        square < 64,
    ensures
        forall|t: int| #[trigger] bit(mask, t) == (t == square + 8 && t < 64),
{
    proof {
        lemma_constants();
    }
    if square < 56 {
        proof {
            lemma_single((square + 8) as u64);
        }
        1u64 << ((square + 8) as u64)
    } else {
        0
    }
}

/// The square one rank ahead of a black pawn on `square`, if there is one.
pub fn pawn_push_black(square: u8) -> (mask: u64)
    requires
        square < 64,
    ensures
        forall|t: int| #[trigger] bit(mask, t) == (t == square - 8 && t >= 0),
{
    proof {
        lemma_constants();
    }
    if square >= 8 {
        proof {
            lemma_single((square - 8) as u64);
        }
        1u64 << ((square - 8) as u64)
    } else {
        0
    }
}

/// The squares strictly between `from` and `to` on the rank, file or
/// diagonal that joins them; none if no such line joins them.
pub fn between_mask(from: u8, to: u8) -> (mask: u64)
    requires
        from < 64,
        to < 64,
    ensures
        forall|q: int| #[trigger] bit(mask, q) == between(from as int, to as int, q),
{
    let from_rank = (from / 8) as i8;
    let from_file = (from % 8) as i8;
    let to_rank = (to / 8) as i8;
    let to_file = (to % 8) as i8;
    let rank_delta = to_rank - from_rank;
    let file_delta = to_file - from_file;
    let mut mask: u64 = 0;
    proof {
        lemma_constants();
    }
    if from == to || !(rank_delta == 0 || file_delta == 0 || rank_delta == file_delta || rank_delta
        == -file_delta) {
        return mask;
    }
    let dr: i8 = if rank_delta > 0 {
        1
    } else if rank_delta < 0 {
        -1
    } else {
        0
    };
    let df: i8 = if file_delta > 0 {
        1
    } else if file_delta < 0 {
        -1
    } else {
        0
    };
    let mut r = from_rank + dr;
    let mut f = from_file + df;
    let ghost a = from as int;
    let ghost b = to as int;
    let ghost mut k: int = 1;
    proof {
        lemma_toward(a, b, 1);
    }
    while r != to_rank || f != to_file
        invariant
            a == from,
            b == to,
            same_line(a, b) || same_diagonal(a, b),
            a != b,
            to_rank == b / 8,
            to_file == b % 8,
            dr == sign(rank_diff(a, b)),
            df == sign(file_diff(a, b)),
            1 <= k <= distance(a, b),
            0 <= r < 8,
            0 <= f < 8,
            8 * r + f == toward(a, b, k),
            r == toward(a, b, k) / 8,
            f == toward(a, b, k) % 8,
            forall|q: int| #[trigger] bit(mask, q) == (between(a, b, q) && distance(a, q) < k),
        decreases distance(a, b) - k,
    {
        let sq = (r * 8 + f) as u8;
        proof {
            lemma_toward(a, b, k);
            lemma_toward(a, b, k + 1);
            lemma_single(sq as u64);
            lemma_or(mask, 1u64 << (sq as u64));
        }
        mask = mask | (1u64 << (sq as u64));
        r = r + dr;
        f = f + df;
        proof {
            k = k + 1;
        }
    }
    proof {
        lemma_toward(a, b, k);
    }
    mask
}

/// The line through `from` and `to`: the squares between them with both
/// ends, where at least one square lies between them; the square itself
/// for `from == to`; nothing for neighbours and for squares that no line
/// joins.
pub fn line_mask(from: u8, to: u8) -> (mask: u64)
    requires
        from < 64,
        to < 64,
    ensures
        forall|q: int| #[trigger]
            bit(mask, q) == (if from == to {
                q == from
            } else {
                (exists|x: int| between(from as int, to as int, x)) && (q == from || q == to
                    || between(from as int, to as int, q))
            }),
{
    proof {
        lemma_constants();
        lemma_single(from as u64);
        lemma_single(to as u64);
    }
    if from == to {
        return 1u64 << (from as u64);
    }
    let between_squares = between_mask(from, to);
    proof {
        crate::bits::lemma_zero(between_squares);
        lemma_or(between_squares, 1u64 << (from as u64));
        lemma_or(between_squares | (1u64 << (from as u64)), 1u64 << (to as u64));
    }
    if between_squares != 0 {
        proof {
            let x = choose|x: int| bit(between_squares, x);
            assert(between(from as int, to as int, x));
        }
        between_squares | (1u64 << (from as u64)) | (1u64 << (to as u64))
    } else {
        proof {
            assert forall|x: int| !between(from as int, to as int, x) by {
                assert(!bit(between_squares, x));
            }
        }
        0
    }
}

} // verus!
