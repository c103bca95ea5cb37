//! Attack detection: whether a square is attacked by the side that is not
//! to move.

use crate::bits::{
    bit, lemma_and, lemma_highest, lemma_lowest, lemma_masks, lemma_not, lemma_or, lemma_zero,
};
use crate::constants::{FILE_A, FILE_H, NOT_A_FILE, NOT_AB_FILE, NOT_GH_FILE, NOT_H_FILE};
use crate::geometry::{
    between, distance, in_direction, king_step, knight_jump, pawn_attack, same_diagonal, same_line,
};
use crate::model::bitboard::BitBoard;
use crate::model::gameboard::GameBoard;
use crate::model::rays::{direction_of, ray_mask, spec_direction_of};
use crate::movegen::list::shifted;
use vstd::prelude::*;

verus! {

/// A pawn of the side not to move stands on `p` and attacks `sq`.
pub open spec fn pawn_attacker(board: GameBoard, p: int, sq: int) -> bool {
    board.pawns.has(p) && board.enemy_at(p) && pawn_attack(!board.playing, p, sq)
}

/// A knight of the side not to move stands on `p`, a jump away from `sq`.
pub open spec fn knight_attacker(board: GameBoard, p: int, sq: int) -> bool {
    board.knights.has(p) && board.enemy_at(p) && knight_jump(p, sq)
}

/// A king of the side not to move stands on `p`, next to `sq`.
pub open spec fn king_attacker(board: GameBoard, p: int, sq: int) -> bool {
    board.kings.has(p) && board.enemy_at(p) && king_step(p, sq)
}

/// A rook or queen of the side not to move stands on `p`, on one rank or
/// file with `sq`, with no piece between them.
pub open spec fn rook_attacker(board: GameBoard, p: int, sq: int) -> bool {
    &&& board.rooks.has(p) || board.queens.has(p)
    &&& board.enemy_at(p)
    &&& p != sq
    &&& same_line(p, sq)
    &&& board.path_clear(p, sq)
}

/// A bishop or queen of the side not to move stands on `p`, on one diagonal
/// with `sq`, with no piece between them.
pub open spec fn bishop_attacker(board: GameBoard, p: int, sq: int) -> bool {
    &&& board.bishops.has(p) || board.queens.has(p)
    &&& board.enemy_at(p)
    &&& p != sq
    &&& same_diagonal(p, sq)
    &&& board.path_clear(p, sq)
}

/// The piece on `p` belongs to the side not to move and attacks `sq`.
pub open spec fn attacks(board: GameBoard, p: int, sq: int) -> bool {
    pawn_attacker(board, p, sq) || knight_attacker(board, p, sq) || king_attacker(board, p, sq)
        || rook_attacker(board, p, sq) || bishop_attacker(board, p, sq)
}

/// Some piece of the side not to move attacks `sq`.
pub open spec fn square_attacked(board: GameBoard, sq: int) -> bool {
    exists|p: int| attacks(board, p, sq)
}

/// `b` is the first occupied square on the ray from `sq` in the direction
/// of `dr` ranks and `df` files per step.
pub open spec fn first_blocker(board: GameBoard, sq: int, dr: int, df: int, b: int) -> bool {
    in_direction(sq, b, dr, df) && board.occupied(b) && board.path_clear(sq, b)
}

/// The first occupied square along one of the directions `dirs` from `sq`
/// is `b`, which is in `pieces` and has the colour `white`. An entry of
/// `dirs` that is not the index offset of a direction counts for nothing.
pub open spec fn slider_found(
    board: GameBoard,
    sq: int,
    dirs: Seq<i8>,
    pieces: BitBoard,
    white: bool,
    k: int,
    b: int,
) -> bool {
    &&& 0 <= k < dirs.len()
    &&& spec_direction_of(dirs[k]) matches Some((dr, df))
    &&& first_blocker(board, sq, dr as int, df as int, b)
    &&& pieces.has(b)
    &&& board.colour.has(b) == white
}

pub fn is_square_attacked_pawn(board: &GameBoard, square: u8) -> (r: bool)
    requires
        square < 64,
    ensures
        r == exists|p: int| pawn_attacker(*board, p, square as int),
{
    let opponent_white = !board.playing;
    let desired_for_opponent = !opponent_white;
    let opponent_pawns = (board.pawns & board.combined_coloured(desired_for_opponent)).raw();
    proof {
        lemma_masks();
        lemma_not(FILE_A);
        lemma_not(FILE_H);
        lemma_and(opponent_pawns, !FILE_A);
        lemma_and(opponent_pawns, !FILE_H);
    }
    let (left_attacks, right_attacks) = if opponent_white {
        (shifted(opponent_pawns & !FILE_A, 7), shifted(opponent_pawns & !FILE_H, 9))
    } else {
        (shifted(opponent_pawns & !FILE_A, -9), shifted(opponent_pawns & !FILE_H, -7))
    };
    proof {
        lemma_or(left_attacks, right_attacks);
    }
    let attacks = left_attacks | right_attacks;
    let r = (attacks >> (square as u64)) & 1u64 == 1u64;
    proof {
        let sq = square as int;
        let (dl, dr) = if opponent_white {
            (7int, 9int)
        } else {
            (-9int, -7int)
        };
        assert(r == bit(attacks, sq));
        assert(bit(left_attacks, sq) == bit(opponent_pawns & !FILE_A, sq - dl));
        assert(bit(right_attacks, sq) == bit(opponent_pawns & !FILE_H, sq - dr));
        if r {
            if bit(left_attacks, sq) {
                assert(pawn_attacker(*board, sq - dl, sq));
            } else {
                assert(pawn_attacker(*board, sq - dr, sq));
            }
        } else {
            assert forall|p: int| !pawn_attacker(*board, p, sq) by {
                if pawn_attacker(*board, p, sq) {
                    assert(bit(opponent_pawns, p));
                    assert(p == sq - dl || p == sq - dr);
                }
            }
        }
    }
    r
}

/// The squares a knight's jump away from a square of `knights`: one or two
/// files aside first, with the files that a wrapped square would land on
/// taken out, then two ranks or one rank up and down.
pub open spec fn knight_attack_set(knights: u64) -> u64 {
    let l1 = (knights >> 1) & NOT_H_FILE;
    let l2 = (knights >> 2) & NOT_GH_FILE;
    let r1 = (knights << 1) & NOT_A_FILE;
    let r2 = (knights << 2) & NOT_AB_FILE;
    let h1 = l1 | r1;
    let h2 = l2 | r2;
    (h1 << 16) | (h1 >> 16) | (h2 << 8) | (h2 >> 8)
}

/// The squares next to a square of `kings`.
pub open spec fn king_attack_set(kings: u64) -> u64 {
    let east = (kings << 1) & NOT_A_FILE;
    let west = (kings >> 1) & NOT_H_FILE;
    let attacks = east | west;
    let king_set = kings | attacks;
    attacks | (king_set << 8) | (king_set >> 8)
}

proof fn bv_knight_attack_set(kn: u64, sq: u64)
    by (bit_vector)
    requires
        sq < 64,
    ensures
        ((knight_attack_set(kn) >> sq) & 1u64 == 1u64) == ((sq >= 16 && sq % 8 != 7 && (kn >> ((sq
            - 15) as u64)) & 1u64 == 1u64) || (sq >= 17 && sq % 8 != 0 && (kn >> ((sq
            - 17) as u64)) & 1u64 == 1u64) || (sq + 17 < 64 && sq % 8 != 7 && (kn >> ((sq
            + 17) as u64)) & 1u64 == 1u64) || (sq + 16 < 64 && sq % 8 != 0 && (kn >> ((sq
            + 15) as u64)) & 1u64 == 1u64) || (sq >= 8 && sq % 8 < 6 && (kn >> ((sq - 6) as u64))
            & 1u64 == 1u64) || (sq >= 10 && sq % 8 >= 2 && (kn >> ((sq - 10) as u64)) & 1u64
            == 1u64) || (sq + 10 < 64 && sq % 8 < 6 && (kn >> ((sq + 10) as u64)) & 1u64 == 1u64)
            || (sq + 8 < 64 && sq % 8 >= 2 && (kn >> ((sq + 6) as u64)) & 1u64 == 1u64)),
{
}

proof fn bv_king_attack_set(k: u64, sq: u64)
    by (bit_vector)
    requires
        sq < 64,
    ensures
        ((king_attack_set(k) >> sq) & 1u64 == 1u64) == ((sq % 8 != 0 && (k >> ((sq - 1) as u64))
            & 1u64 == 1u64) || (sq % 8 != 7 && (k >> ((sq + 1) as u64)) & 1u64 == 1u64) || (sq
            >= 8 && (k >> ((sq - 8) as u64)) & 1u64 == 1u64) || (sq + 8 < 64 && (k >> ((sq
            + 8) as u64)) & 1u64 == 1u64) || (sq >= 9 && sq % 8 != 0 && (k >> ((sq - 9) as u64))
            & 1u64 == 1u64) || (sq >= 8 && sq % 8 != 7 && (k >> ((sq - 7) as u64)) & 1u64 == 1u64)
            || (sq + 8 < 64 && sq % 8 != 0 && (k >> ((sq + 7) as u64)) & 1u64 == 1u64) || (sq + 9
            < 64 && sq % 8 != 7 && (k >> ((sq + 9) as u64)) & 1u64 == 1u64)),
{
}

/// A square is in [`knight_attack_set`] exactly when it is a knight's jump
/// away from a square of `knights`.
pub proof fn lemma_knight_attack_set(knights: u64, sq: int)
    requires
        0 <= sq < 64,
    ensures
        bit(knight_attack_set(knights), sq) == exists|p: int|
            bit(knights, p) && #[trigger] knight_jump(p, sq),
{
    bv_knight_attack_set(knights, sq as u64);
    if bit(knight_attack_set(knights), sq) {
        let p = if sq >= 16 && sq % 8 != 7 && bit(knights, sq - 15) {
            sq - 15
        } else if sq >= 17 && sq % 8 != 0 && bit(knights, sq - 17) {
            sq - 17
        } else if sq + 17 < 64 && sq % 8 != 7 && bit(knights, sq + 17) {
            sq + 17
        } else if sq + 16 < 64 && sq % 8 != 0 && bit(knights, sq + 15) {
            sq + 15
        } else if sq >= 8 && sq % 8 < 6 && bit(knights, sq - 6) {
            sq - 6
        } else if sq >= 10 && sq % 8 >= 2 && bit(knights, sq - 10) {
            sq - 10
        } else if sq + 10 < 64 && sq % 8 < 6 && bit(knights, sq + 10) {
            sq + 10
        } else {
            sq + 6
        };
        assert(bit(knights, p) && knight_jump(p, sq));
    } else {
        assert forall|p: int| !(bit(knights, p) && #[trigger] knight_jump(p, sq)) by {
            if bit(knights, p) && knight_jump(p, sq) {
                lemma_knight_offsets(p, sq);
            }
        }
    }
}

/// A square is in [`king_attack_set`] exactly when it is next to a square of
/// `kings`.
pub proof fn lemma_king_attack_set(kings: u64, sq: int)
    requires
        0 <= sq < 64,
    ensures
        bit(king_attack_set(kings), sq) == exists|p: int|
            bit(kings, p) && #[trigger] king_step(p, sq),
{
    bv_king_attack_set(kings, sq as u64);
    if bit(king_attack_set(kings), sq) {
        let p = if sq % 8 != 0 && bit(kings, sq - 1) {
            sq - 1
        } else if sq % 8 != 7 && bit(kings, sq + 1) {
            sq + 1
        } else if sq >= 8 && bit(kings, sq - 8) {
            sq - 8
        } else if sq + 8 < 64 && bit(kings, sq + 8) {
            sq + 8
        } else if sq >= 9 && sq % 8 != 0 && bit(kings, sq - 9) {
            sq - 9
        } else if sq >= 8 && sq % 8 != 7 && bit(kings, sq - 7) {
            sq - 7
        } else if sq + 8 < 64 && sq % 8 != 0 && bit(kings, sq + 7) {
            sq + 7
        } else {
            sq + 9
        };
        assert(bit(kings, p) && king_step(p, sq));
    } else {
        assert forall|p: int| !(bit(kings, p) && #[trigger] king_step(p, sq)) by {
            if bit(kings, p) && king_step(p, sq) {
                lemma_king_offsets(p, sq);
            }
        }
    }
}

/// The squares a knight's jump away from a square of `knights`.
pub fn knight_attacks(knights: u64) -> (attacks: u64)
    ensures
        attacks == knight_attack_set(knights),
        forall|t: int| #[trigger]
            bit(attacks, t) == (0 <= t < 64 && exists|p: int|
                bit(knights, p) && #[trigger] knight_jump(p, t)),
{
    let l1 = (knights >> 1) & NOT_H_FILE;
    let l2 = (knights >> 2) & NOT_GH_FILE;
    let r1 = (knights << 1) & NOT_A_FILE;
    let r2 = (knights << 2) & NOT_AB_FILE;
    let h1 = l1 | r1;
    let h2 = l2 | r2;
    let attacks = (h1 << 16) | (h1 >> 16) | (h2 << 8) | (h2 >> 8);
    proof {
        assert forall|t: int| #[trigger]
            bit(attacks, t) == (0 <= t < 64 && exists|p: int|
                bit(knights, p) && #[trigger] knight_jump(p, t)) by {
            if 0 <= t < 64 {
                lemma_knight_attack_set(knights, t);
            }
        }
    }
    attacks
}

/// The squares next to a square of `kings`.
pub fn king_attacks(kings: u64) -> (attacks: u64)
    ensures
        attacks == king_attack_set(kings),
        forall|t: int| #[trigger]
            bit(attacks, t) == (0 <= t < 64 && exists|p: int|
                bit(kings, p) && #[trigger] king_step(p, t)),
{
    let east = (kings << 1) & NOT_A_FILE;
    let west = (kings >> 1) & NOT_H_FILE;
    let attacks = east | west;
    let king_set = kings | attacks;
    let north = king_set << 8;
    let south = king_set >> 8;
    let all_attacks = attacks | north | south;
    proof {
        assert forall|t: int| #[trigger]
            bit(all_attacks, t) == (0 <= t < 64 && exists|p: int|
                bit(kings, p) && #[trigger] king_step(p, t)) by {
            if 0 <= t < 64 {
                lemma_king_attack_set(kings, t);
            }
        }
    }
    all_attacks
}

pub fn is_square_attacked_knight(board: &GameBoard, square: u8) -> (r: bool)
    requires
        square < 64,
    ensures
        r == exists|p: int| knight_attacker(*board, p, square as int),
{
    let opponent_white = !board.playing;
    let desired = !opponent_white;
    let opponent_knights = board.knights & board.combined_coloured(desired);
    let knights = opponent_knights.raw();
    let attacks = knight_attacks(knights);
    let r = (attacks >> (square as u64)) & 1u64 == 1u64;
    proof {
        let sq = square as int;
        assert(attacks == knight_attack_set(knights));
        assert(r == bit(attacks, sq));
        lemma_knight_attack_set(knights, sq);
        if r {
            let p = choose|p: int| bit(knights, p) && #[trigger] knight_jump(p, sq);
            assert(opponent_knights.has(p));
            assert(knight_attacker(*board, p, sq));
        } else {
            assert forall|p: int| !knight_attacker(*board, p, sq) by {
                if knight_attacker(*board, p, sq) {
                    assert(opponent_knights.has(p));
                    assert(bit(knights, p) && knight_jump(p, sq));
                }
            }
        }
    }
    r
}

pub fn is_square_attacked_king(board: &GameBoard, square: u8) -> (r: bool)
    requires
        square < 64,
    ensures
        r == exists|p: int| king_attacker(*board, p, square as int),
{
    let opponent_white = !board.playing;
    let desired = !opponent_white;
    let opponent_kings = board.kings & board.combined_coloured(desired);
    let kings = opponent_kings.raw();
    let all_attacks = king_attacks(kings);
    let r = (all_attacks >> (square as u64)) & 1u64 == 1u64;
    proof {
        let sq = square as int;
        assert(all_attacks == king_attack_set(kings));
        assert(r == bit(all_attacks, sq));
        lemma_king_attack_set(kings, sq);
        if r {
            let p = choose|p: int| bit(kings, p) && #[trigger] king_step(p, sq);
            assert(opponent_kings.has(p));
            assert(king_attacker(*board, p, sq));
        } else {
            assert forall|p: int| !king_attacker(*board, p, sq) by {
                if king_attacker(*board, p, sq) {
                    assert(opponent_kings.has(p));
                    assert(bit(kings, p) && king_step(p, sq));
                }
            }
        }
    }
    r
}

/// The index offsets of the knight's jumps, each with the files from which
/// it stays on the board.
proof fn lemma_knight_offsets(p: int, sq: int)
    requires
        knight_jump(p, sq),
    ensures
        (p == sq - 15 && sq % 8 != 7 && sq >= 16) || (p == sq - 17 && sq % 8 != 0 && sq >= 16) || (p
            == sq + 17 && sq % 8 != 7 && sq + 16 < 64) || (p == sq + 15 && sq % 8 != 0 && sq + 16
            < 64) || (p == sq - 6 && sq % 8 < 6 && sq >= 8) || (p == sq - 10 && sq % 8 >= 2 && sq
            >= 8) || (p == sq + 10 && sq % 8 < 6 && sq + 8 < 64) || (p == sq + 6 && sq % 8 >= 2
            && sq + 8 < 64),
{
}

/// The index offsets of the king's steps, each with the files from which it
/// stays on the board.
proof fn lemma_king_offsets(p: int, sq: int)
    requires
        king_step(p, sq),
    ensures
        (p == sq - 1 && sq % 8 != 0) || (p == sq + 1 && sq % 8 != 7) || (p == sq - 8) || (p == sq
            + 8) || (p == sq - 9 && sq % 8 != 0) || (p == sq - 7 && sq % 8 != 7) || (p == sq + 7
            && sq % 8 != 0) || (p == sq + 9 && sq % 8 != 7),
{
}

/// The squares strictly between two squares are the same from either end.
pub proof fn lemma_between_symmetric(a: int, b: int, q: int)
    ensures
        between(a, b, q) == between(b, a, q),
{
}

/// On a ray, the squares before `b` are the squares between the origin and
/// `b`, and they are the squares of the ray that lie on the near side of `b`
/// by index.
proof fn lemma_ray_order(sq: int, dr: int, df: int, b: int, q: int)
    requires
        -1 <= dr <= 1,
        -1 <= df <= 1,
        dr != 0 || df != 0,
        in_direction(sq, b, dr, df),
    ensures
        between(sq, b, q) == (in_direction(sq, q, dr, df) && distance(sq, q) < distance(sq, b)),
        in_direction(sq, q, dr, df) ==> ((distance(sq, q) < distance(sq, b)) == (if 8 * dr + df
            > 0 {
            q < b
        } else {
            q > b
        })),
{
}

/// Whether the first piece along one direction from `square` is in
/// `piece_bb` and has the colour `opponent_white`.
fn ray_hits(
    board: &GameBoard,
    square: u8,
    dr: i8,
    df: i8,
    piece_bb: BitBoard,
    opponent_white: bool,
) -> (r: bool)
    requires
        square < 64,
        -1 <= dr <= 1,
        -1 <= df <= 1,
        dr != 0 || df != 0,
    ensures
        r == exists|b: int|
            #![trigger first_blocker(*board, square as int, dr as int, df as int, b)]
            first_blocker(*board, square as int, dr as int, df as int, b) && piece_bb.has(b)
                && board.colour.has(b) == opponent_white,
{
    let occ: u64 = board.combined().raw();
    let colour_mask: u64 = board.colour.raw();
    let piece_mask: u64 = piece_bb.raw();
    let ray = ray_mask(square, dr, df);
    proof {
        lemma_and(occ, ray);
    }
    let blockers = occ & ray;
    let ghost sq = square as int;
    if blockers == 0 {
        proof {
            lemma_zero(blockers);
            assert forall|b: int| !first_blocker(*board, sq, dr as int, df as int, b) by {
                if first_blocker(*board, sq, dr as int, df as int, b) {
                    assert(bit(blockers, b));
                }
            }
        }
        return false;
    }
    let blocker_sq: u8 = if 8 * dr + df > 0 {
        proof {
            lemma_lowest(blockers);
        }
        blockers.trailing_zeros() as u8
    } else {
        proof {
            lemma_highest(blockers);
        }
        (63 - blockers.leading_zeros()) as u8
    };
    let hit = (colour_mask >> (blocker_sq as u64)) & 1u64 == 1u64;
    let is_piece = (piece_mask >> (blocker_sq as u64)) & 1u64 == 1u64;
    let square_is_opponent = hit == opponent_white;
    proof {
        let nb = blocker_sq as int;
        assert(bit(blockers, nb));
        assert(in_direction(sq, nb, dr as int, df as int));
        assert(board.occupied(nb));
        assert forall|q: int| between(sq, nb, q) implies !board.occupied(q) by {
            lemma_ray_order(sq, dr as int, df as int, nb, q);
            if board.occupied(q) {
                assert(bit(blockers, q));
            }
        }
        assert(first_blocker(*board, sq, dr as int, df as int, nb));
        assert forall|b: int| first_blocker(*board, sq, dr as int, df as int, b) implies b
            == nb by {
            lemma_ray_order(sq, dr as int, df as int, b, nb);
            lemma_ray_order(sq, dr as int, df as int, nb, b);
            assert(bit(blockers, b));
            if b != nb {
                assert(between(sq, b, nb) || between(sq, nb, b));
            }
        }
    }
    square_is_opponent && is_piece
}

/// Whether, along one of the directions given by their index offsets, the
/// first piece seen from `square` is in `piece_bb` and has the colour
/// `opponent_white`.
pub fn is_square_attacked_sliding(
    board: &GameBoard,
    square: u8,
    dirs: &[i8],
    piece_bb: BitBoard,
    opponent_white: bool,
) -> (r: bool)
    requires
        square < 64,
    ensures
        r == exists|k: int, b: int|
            slider_found(*board, square as int, dirs@, piece_bb, opponent_white, k, b),
{
    let mut idx: usize = 0;
    while idx < dirs.len()
        invariant
            square < 64,
            0 <= idx <= dirs.len(),
            forall|k: int, b: int|
                0 <= k < idx ==> !slider_found(
                    *board,
                    square as int,
                    dirs@,
                    piece_bb,
                    opponent_white,
                    k,
                    b,
                ),
        decreases dirs.len() - idx,
    {
        let dir = dirs[idx];
        match direction_of(dir) {
            None => {},
            Some((dr, df)) => {
                if ray_hits(board, square, dr, df, piece_bb, opponent_white) {
                    proof {
                        let b = choose|b: int|
                            #![trigger first_blocker(*board, square as int, dr as int, df as int, b)]
                            first_blocker(*board, square as int, dr as int, df as int, b)
                                && piece_bb.has(b) && board.colour.has(b) == opponent_white;
                        assert(slider_found(
                            *board,
                            square as int,
                            dirs@,
                            piece_bb,
                            opponent_white,
                            idx as int,
                            b,
                        ));
                    }
                    return true;
                }
            },
        }
        idx = idx + 1;
    }
    false
}

/// A square that shares a rank or file with `sq` lies in one of the four
/// straight directions from it, and only such a square does.
proof fn lemma_line_directions(sq: int, p: int)
    ensures
        (same_line(sq, p) && sq != p) == (in_direction(sq, p, 0, 1) || in_direction(sq, p, 0, -1)
            || in_direction(sq, p, 1, 0) || in_direction(sq, p, -1, 0)),
{
}

/// A square that shares a diagonal with `sq` lies in one of the four
/// diagonal directions from it, and only such a square does.
proof fn lemma_diagonal_directions(sq: int, p: int)
    ensures
        (same_diagonal(sq, p) && sq != p) == (in_direction(sq, p, 1, 1) || in_direction(
            sq,
            p,
            -1,
            -1,
        ) || in_direction(sq, p, 1, -1) || in_direction(sq, p, -1, 1)),
{
}

/// The path between two squares is clear from either end.
proof fn lemma_path_symmetric(board: GameBoard, a: int, b: int)
    ensures
        board.path_clear(a, b) == board.path_clear(b, a),
{
    if board.path_clear(a, b) {
        assert forall|q: int| between(b, a, q) implies !board.occupied(q) by {
            lemma_between_symmetric(a, b, q);
        }
    }
    if board.path_clear(b, a) {
        assert forall|q: int| between(a, b, q) implies !board.occupied(q) by {
            lemma_between_symmetric(a, b, q);
        }
    }
}

pub fn is_square_attacked_rook(board: &GameBoard, square: u8) -> (r: bool)
    requires
        square < 64,
    ensures
        r == exists|p: int| rook_attacker(*board, p, square as int),
{
    let opponent_white = !board.playing;
    let desired = !opponent_white;
    let opponent_rooks = board.rooks & board.combined_coloured(desired);
    let opponent_queens = board.queens & board.combined_coloured(desired);
    let piece_bb = opponent_rooks | opponent_queens;
    let dirs: [i8; 4] = [1, -1, 8, -8];
    let r = is_square_attacked_sliding(board, square, &dirs, piece_bb, opponent_white);
    proof {
        let sq = square as int;
        if r {
            let (k, b) = choose|k: int, b: int|
                slider_found(*board, sq, dirs@, piece_bb, opponent_white, k, b);
            lemma_line_directions(sq, b);
            lemma_path_symmetric(*board, sq, b);
            assert(rook_attacker(*board, b, sq));
        } else {
            assert forall|p: int| !rook_attacker(*board, p, sq) by {
                if rook_attacker(*board, p, sq) {
                    lemma_line_directions(sq, p);
                    lemma_path_symmetric(*board, sq, p);
                    assert(piece_bb.has(p));
                    if in_direction(sq, p, 0, 1) {
                        assert(slider_found(*board, sq, dirs@, piece_bb, opponent_white, 0, p));
                    } else if in_direction(sq, p, 0, -1) {
                        assert(slider_found(*board, sq, dirs@, piece_bb, opponent_white, 1, p));
                    } else if in_direction(sq, p, 1, 0) {
                        assert(slider_found(*board, sq, dirs@, piece_bb, opponent_white, 2, p));
                    } else {
                        assert(slider_found(*board, sq, dirs@, piece_bb, opponent_white, 3, p));
                    }
                }
            }
        }
    }
    r
}

pub fn is_square_attacked_bishop(board: &GameBoard, square: u8) -> (r: bool)
    requires
        square < 64,
    ensures
        r == exists|p: int| bishop_attacker(*board, p, square as int),
{
    let opponent_white = !board.playing;
    let desired = !opponent_white;
    let opponent_bishops = board.bishops & board.combined_coloured(desired);
    let opponent_queens = board.queens & board.combined_coloured(desired);
    let piece_bb = opponent_bishops | opponent_queens;
    let dirs: [i8; 4] = [9, -9, 7, -7];
    let r = is_square_attacked_sliding(board, square, &dirs, piece_bb, opponent_white);
    proof {
        let sq = square as int;
        if r {
            let (k, b) = choose|k: int, b: int|
                slider_found(*board, sq, dirs@, piece_bb, opponent_white, k, b);
            lemma_diagonal_directions(sq, b);
            lemma_path_symmetric(*board, sq, b);
            assert(bishop_attacker(*board, b, sq));
        } else {
            assert forall|p: int| !bishop_attacker(*board, p, sq) by {
                if bishop_attacker(*board, p, sq) {
                    lemma_diagonal_directions(sq, p);
                    lemma_path_symmetric(*board, sq, p);
                    assert(piece_bb.has(p));
                    if in_direction(sq, p, 1, 1) {
                        assert(slider_found(*board, sq, dirs@, piece_bb, opponent_white, 0, p));
                    } else if in_direction(sq, p, -1, -1) {
                        assert(slider_found(*board, sq, dirs@, piece_bb, opponent_white, 1, p));
                    } else if in_direction(sq, p, 1, -1) {
                        assert(slider_found(*board, sq, dirs@, piece_bb, opponent_white, 2, p));
                    } else {
                        assert(slider_found(*board, sq, dirs@, piece_bb, opponent_white, 3, p));
                    }
                }
            }
        }
    }
    r
}

/// Whether `square` is attacked by the side that is not to move: by one of
/// its pawns, knights or kings from where such a piece attacks, or by one of
/// its rooks, bishops or queens along a line with nothing in between.
pub fn is_square_attacked(board: &GameBoard, square: u8) -> (r: bool)
    requires
        square < 64,
    ensures
        r == square_attacked(*board, square as int),
{
    let r = is_square_attacked_pawn(board, square) || is_square_attacked_knight(board, square)
        || is_square_attacked_king(board, square) || is_square_attacked_rook(board, square)
        || is_square_attacked_bishop(board, square);
    proof {
        let sq = square as int;
        if r {
            if exists|p: int| pawn_attacker(*board, p, sq) {
                let p = choose|p: int| pawn_attacker(*board, p, sq);
                assert(attacks(*board, p, sq));
            } else if exists|p: int| knight_attacker(*board, p, sq) {
                let p = choose|p: int| knight_attacker(*board, p, sq);
                assert(attacks(*board, p, sq));
            } else if exists|p: int| king_attacker(*board, p, sq) {
                let p = choose|p: int| king_attacker(*board, p, sq);
                assert(attacks(*board, p, sq));
            } else if exists|p: int| rook_attacker(*board, p, sq) {
                let p = choose|p: int| rook_attacker(*board, p, sq);
                assert(attacks(*board, p, sq));
            } else {
                let p = choose|p: int| bishop_attacker(*board, p, sq);
                assert(attacks(*board, p, sq));
            }
        }
    }
    r
}

} // verus!
