//! The geometry of the board over square indices: square `s` lies on file
//! `s % 8` (a = 0, ..., h = 7) and on rank `s / 8` (rank 1 = 0, ..., rank 8 = 7).

use vstd::prelude::*;

verus! {

pub open spec fn on_board(s: int) -> bool {
    0 <= s < 64
}

pub open spec fn file_of(s: int) -> int {
    s % 8
}

pub open spec fn rank_of(s: int) -> int {
    s / 8
}

pub open spec fn abs(x: int) -> int {
    if x < 0 {
        -x
    } else {
        x
    }
}

/// Ranks from `a` up to `b`; negative when `b` lies below `a`.
pub open spec fn rank_diff(a: int, b: int) -> int {
    rank_of(b) - rank_of(a)
}

/// Files from `a` right to `b`; negative when `b` lies left of `a`.
pub open spec fn file_diff(a: int, b: int) -> int {
    file_of(b) - file_of(a)
}

/// The number of king steps from `a` to `b`.
pub open spec fn distance(a: int, b: int) -> int {
    if abs(rank_diff(a, b)) >= abs(file_diff(a, b)) {
        abs(rank_diff(a, b))
    } else {
        abs(file_diff(a, b))
    }
}

/// `b` is a knight's jump away from `a`.
pub open spec fn knight_jump(a: int, b: int) -> bool {
    &&& on_board(a)
    &&& on_board(b)
    &&& (abs(rank_diff(a, b)) == 2 && abs(file_diff(a, b)) == 1) || (abs(rank_diff(a, b)) == 1
        && abs(file_diff(a, b)) == 2)
}

/// `b` is one of the up to eight squares next to `a`.
pub open spec fn king_step(a: int, b: int) -> bool {
    &&& on_board(a)
    &&& on_board(b)
    &&& a != b
    &&& abs(rank_diff(a, b)) <= 1
    &&& abs(file_diff(a, b)) <= 1
}

/// `a` and `b` lie on one rank or on one file.
pub open spec fn same_line(a: int, b: int) -> bool {
    on_board(a) && on_board(b) && (rank_diff(a, b) == 0 || file_diff(a, b) == 0)
}

/// `a` and `b` lie on one diagonal.
pub open spec fn same_diagonal(a: int, b: int) -> bool {
    on_board(a) && on_board(b) && abs(rank_diff(a, b)) == abs(file_diff(a, b))
}

/// `e` lies strictly between 0 and `d`.
pub open spec fn strictly_inside(e: int, d: int) -> bool {
    (0 < e < d) || (d < e < 0)
}

/// `s` lies strictly between `a` and `b` on the rank, file or diagonal that
/// joins them. No square does when `a` and `b` share no such line.
pub open spec fn between(a: int, b: int, s: int) -> bool {
    &&& on_board(a)
    &&& on_board(b)
    &&& on_board(s)
    &&& if rank_diff(a, b) == 0 {
        rank_diff(a, s) == 0 && strictly_inside(file_diff(a, s), file_diff(a, b))
    } else if file_diff(a, b) == 0 {
        file_diff(a, s) == 0 && strictly_inside(rank_diff(a, s), rank_diff(a, b))
    } else {
        &&& abs(rank_diff(a, b)) == abs(file_diff(a, b))
        &&& abs(rank_diff(a, s)) == abs(file_diff(a, s))
        &&& strictly_inside(rank_diff(a, s), rank_diff(a, b))
        &&& strictly_inside(file_diff(a, s), file_diff(a, b))
    }
}

/// A pawn of the given colour on `from` attacks `to`: one rank ahead (up for
/// White, down for Black) and one file to either side.
pub open spec fn pawn_attack(white: bool, from: int, to: int) -> bool {
    &&& on_board(from)
    &&& on_board(to)
    &&& rank_diff(from, to) == (if white {
        1int
    } else {
        -1
    })
    &&& abs(file_diff(from, to)) == 1
}

/// The square one rank ahead of `s` for a pawn of the given colour.
pub open spec fn ahead(white: bool, s: int) -> int {
    if white {
        s + 8
    } else {
        s - 8
    }
}

/// The last rank for a pawn of the given colour: where it promotes.
pub open spec fn last_rank(white: bool) -> int {
    if white {
        7
    } else {
        0
    }
}

/// The rank from which a pawn of the given colour may advance two squares.
pub open spec fn start_rank(white: bool) -> int {
    if white {
        1
    } else {
        6
    }
}

/// `i` steps in the direction of `sign`: `i`, `-i` or nothing.
pub open spec fn scaled(sign: int, i: int) -> int {
    if sign > 0 {
        i
    } else if sign < 0 {
        -i
    } else {
        0
    }
}

/// `to` is reached from `from` by one or more steps of `dr` ranks and `df`
/// files each, where `dr` and `df` are -1, 0 or 1 and not both 0.
pub open spec fn in_direction(from: int, to: int, dr: int, df: int) -> bool {
    &&& on_board(from)
    &&& on_board(to)
    &&& from != to
    &&& rank_diff(from, to) == scaled(dr, distance(from, to))
    &&& file_diff(from, to) == scaled(df, distance(from, to))
}

/// The sign of `x`: -1, 0 or 1.
pub open spec fn sign(x: int) -> int {
    if x > 0 {
        1
    } else if x < 0 {
        -1
    } else {
        0
    }
}

/// The square `k` steps from `from` towards `to`, for two squares on one
/// rank, file or diagonal.
pub open spec fn toward(from: int, to: int, k: int) -> int {
    8 * (rank_of(from) + scaled(sign(rank_diff(from, to)), k)) + file_of(from) + scaled(
        sign(file_diff(from, to)),
        k,
    )
}

/// Walking from `from` towards `to` on their common line, the square after
/// `k` steps is `to` itself for `k` equal to their distance and lies
/// strictly between them before; it is the only square between them at
/// that distance from `from`.
pub proof fn lemma_toward(from: int, to: int, k: int)
    requires
        same_line(from, to) || same_diagonal(from, to),
        from != to,
        1 <= k <= distance(from, to),
    ensures
        on_board(toward(from, to, k)),
        rank_of(toward(from, to, k)) == rank_of(from) + scaled(sign(rank_diff(from, to)), k),
        file_of(toward(from, to, k)) == file_of(from) + scaled(sign(file_diff(from, to)), k),
        distance(from, toward(from, to, k)) == k,
        k < distance(from, to) ==> between(from, to, toward(from, to, k)),
        k == distance(from, to) ==> toward(from, to, k) == to,
        forall|x: int|
            #![trigger between(from, to, x)]
            between(from, to, x) && distance(from, x) == k ==> x == toward(from, to, k),
        forall|x: int|
            #![trigger between(from, to, x)]
            between(from, to, x) ==> 1 <= distance(from, x) < distance(from, to),
{
}

} // verus!
