//! Bit-level facts about 64-bit words, stated over a single predicate
//! [`bit`] so that the rest of the crate can reason about squares as
//! integers instead of about machine words.

use crate::constants::{
    FILE_A, FILE_B, FILE_C, FILE_D, FILE_E, FILE_F, FILE_G, FILE_H, NOT_A_FILE, NOT_AB_FILE,
    NOT_GH_FILE, NOT_H_FILE, RANK_1, RANK_2, RANK_3, RANK_4, RANK_5, RANK_6, RANK_7, RANK_8,
};
use vstd::prelude::*;
use vstd::std_specs::bits::*;

verus! {

/// Whether bit `i` of `b` is set. False for every `i` outside `0..64`.
pub open spec fn bit(b: u64, i: int) -> bool {
    0 <= i < 64 && (b >> (i as u64)) & 1u64 == 1u64
}

proof fn bv_logic(a: u64, b: u64, j: u64)
    by (bit_vector)
    requires
        j < 64,
    ensures
        ((a & b) >> j) & 1u64 == 1u64 <==> ((a >> j) & 1u64 == 1u64 && (b >> j) & 1u64 == 1u64),
        ((a | b) >> j) & 1u64 == 1u64 <==> ((a >> j) & 1u64 == 1u64 || (b >> j) & 1u64 == 1u64),
        ((a ^ b) >> j) & 1u64 == 1u64 <==> ((a >> j) & 1u64 == 1u64) != ((b >> j) & 1u64
            == 1u64),
        ((!a) >> j) & 1u64 == 1u64 <==> !((a >> j) & 1u64 == 1u64),
        (0u64 >> j) & 1u64 != 1u64,
        (0xFFFF_FFFF_FFFF_FFFFu64 >> j) & 1u64 == 1u64,
        (a >> j) & 1u64 != 0u64 <==> (a >> j) & 1u64 == 1u64,
{
}

proof fn bv_shift(a: u64, k: u64, j: u64)
    by (bit_vector)
    requires
        j < 64,
        k < 64,
    ensures
        ((a << k) >> j) & 1u64 == 1u64 <==> (j >= k && (a >> ((j - k) as u64)) & 1u64 == 1u64),
        ((a >> k) >> j) & 1u64 == 1u64 <==> (j + k < 64 && (a >> ((j + k) as u64)) & 1u64
            == 1u64),
        ((1u64 << k) >> j) & 1u64 == 1u64 <==> j == k,
{
}

proof fn bv_lowest(a: u64, t: u64, j: u64)
    by (bit_vector)
    requires
        j < 64,
        t < 64,
        (a >> t) & 1u64 == 1u64,
        t == 0 || a << ((64 - t) as u64) == 0,
    ensures
        ((a & ((a - 1) as u64)) >> j) & 1u64 == 1u64 <==> ((a >> j) & 1u64 == 1u64 && j != t),
        (a >> j) & 1u64 == 1u64 ==> j >= t,
        a >= 1,
        (a & ((a - 1) as u64)) < a,
{
}

proof fn bv_highest(a: u64, h: u64, j: u64)
    by (bit_vector)
    requires
        j < 64,
        h < 64,
        h == 63 || a >> ((h + 1) as u64) == 0,
    ensures
        (a >> j) & 1u64 == 1u64 ==> j <= h,
{
}

proof fn bv_masks(j: u64)
    by (bit_vector)
    requires
        j < 64,
    ensures
        (FILE_A >> j) & 1u64 == 1u64 <==> j % 8 == 0,
        (FILE_B >> j) & 1u64 == 1u64 <==> j % 8 == 1,
        (FILE_C >> j) & 1u64 == 1u64 <==> j % 8 == 2,
        (FILE_D >> j) & 1u64 == 1u64 <==> j % 8 == 3,
        (FILE_E >> j) & 1u64 == 1u64 <==> j % 8 == 4,
        (FILE_F >> j) & 1u64 == 1u64 <==> j % 8 == 5,
        (FILE_G >> j) & 1u64 == 1u64 <==> j % 8 == 6,
        (FILE_H >> j) & 1u64 == 1u64 <==> j % 8 == 7,
        (RANK_1 >> j) & 1u64 == 1u64 <==> j / 8 == 0,
        (RANK_2 >> j) & 1u64 == 1u64 <==> j / 8 == 1,
        (RANK_3 >> j) & 1u64 == 1u64 <==> j / 8 == 2,
        (RANK_4 >> j) & 1u64 == 1u64 <==> j / 8 == 3,
        (RANK_5 >> j) & 1u64 == 1u64 <==> j / 8 == 4,
        (RANK_6 >> j) & 1u64 == 1u64 <==> j / 8 == 5,
        (RANK_7 >> j) & 1u64 == 1u64 <==> j / 8 == 6,
        (RANK_8 >> j) & 1u64 == 1u64 <==> j / 8 == 7,
        (NOT_A_FILE >> j) & 1u64 == 1u64 <==> j % 8 != 0,
        (NOT_AB_FILE >> j) & 1u64 == 1u64 <==> j % 8 >= 2,
        (NOT_H_FILE >> j) & 1u64 == 1u64 <==> j % 8 != 7,
        (NOT_GH_FILE >> j) & 1u64 == 1u64 <==> j % 8 < 6,
{
}

/// Intersection of two words, bit by bit.
pub proof fn lemma_and(a: u64, b: u64)
    ensures
        forall|i: int| #[trigger] bit(a & b, i) == (bit(a, i) && bit(b, i)),
{
    assert forall|i: int| #[trigger] bit(a & b, i) == (bit(a, i) && bit(b, i)) by {
        if 0 <= i < 64 {
            bv_logic(a, b, i as u64);
        }
    }
}

/// Union of two words, bit by bit.
pub proof fn lemma_or(a: u64, b: u64)
    ensures
        forall|i: int| #[trigger] bit(a | b, i) == (bit(a, i) || bit(b, i)),
{
    assert forall|i: int| #[trigger] bit(a | b, i) == (bit(a, i) || bit(b, i)) by {
        if 0 <= i < 64 {
            bv_logic(a, b, i as u64);
        }
    }
}

/// Symmetric difference of two words, bit by bit.
pub proof fn lemma_xor(a: u64, b: u64)
    ensures
        forall|i: int| #[trigger] bit(a ^ b, i) == (0 <= i < 64 && bit(a, i) != bit(b, i)),
{
    assert forall|i: int| #[trigger] bit(a ^ b, i) == (0 <= i < 64 && bit(a, i) != bit(b, i)) by {
        if 0 <= i < 64 {
            bv_logic(a, b, i as u64);
        }
    }
}

/// Complement of a word, bit by bit.
pub proof fn lemma_not(a: u64)
    ensures
        forall|i: int| #[trigger] bit(!a, i) == (0 <= i < 64 && !bit(a, i)),
{
    assert forall|i: int| #[trigger] bit(!a, i) == (0 <= i < 64 && !bit(a, i)) by {
        if 0 <= i < 64 {
            bv_logic(a, a, i as u64);
        }
    }
}

/// The empty word has no bit and the full word has all of them.
pub proof fn lemma_constants()
    ensures
        forall|i: int| !#[trigger] bit(0u64, i),
        forall|i: int| #[trigger] bit(u64::MAX, i) == (0 <= i < 64),
{
    assert forall|i: int| !#[trigger] bit(0u64, i) by {
        if 0 <= i < 64 {
            bv_logic(0, 0, i as u64);
        }
    }
    assert forall|i: int| #[trigger] bit(u64::MAX, i) == (0 <= i < 64) by {
        if 0 <= i < 64 {
            bv_logic(0, 0, i as u64);
        }
    }
}

/// A left shift by `k` moves every bit `k` places up; bits that leave the
/// word are lost.
pub proof fn lemma_shl(a: u64, k: u64)
    requires
        k < 64,
    ensures
        forall|i: int| #[trigger] bit(a << k, i) == (i < 64 && bit(a, i - k)),
{
    assert forall|i: int| #[trigger] bit(a << k, i) == (i < 64 && bit(a, i - k)) by {
        if 0 <= i < 64 {
            bv_shift(a, k, i as u64);
        }
    }
}

/// A right shift by `k` moves every bit `k` places down; bits that leave
/// the word are lost.
pub proof fn lemma_shr(a: u64, k: u64)
    requires
        k < 64,
    ensures
        forall|i: int| #[trigger] bit(a >> k, i) == (0 <= i && bit(a, i + k)),
{
    assert forall|i: int| #[trigger] bit(a >> k, i) == (0 <= i && bit(a, i + k)) by {
        if 0 <= i < 64 {
            bv_shift(a, k, i as u64);
        }
    }
}

/// The word `1 << k` has exactly bit `k`.
pub proof fn lemma_single(k: u64)
    requires
        k < 64,
    ensures
        forall|i: int| #[trigger] bit(1u64 << k, i) == (i == k),
{
    assert forall|i: int| #[trigger] bit(1u64 << k, i) == (i == k) by {
        if 0 <= i < 64 {
            bv_shift(0, k, i as u64);
        }
    }
}

/// A non-zero word has a lowest set bit, found by counting trailing zeros,
/// and `a & (a - 1)` is the word without it.
pub proof fn lemma_lowest(a: u64)
    requires
        a != 0,
    ensures
        a >= 1,
        u64_trailing_zeros(a) < 64,
        bit(a, u64_trailing_zeros(a) as int),
        forall|i: int| bit(a, i) ==> i >= u64_trailing_zeros(a),
        forall|i: int| #[trigger]
            bit((a & ((a - 1) as u64)), i) == (bit(a, i) && i != u64_trailing_zeros(a)),
        (a & ((a - 1) as u64)) < a,
{
    axiom_u64_trailing_zeros(a);
    let t = u64_trailing_zeros(a) as u64;
    assert forall|i: int| bit(a, i) implies i >= t by {
        bv_lowest(a, t, i as u64);
    }
    bv_lowest(a, t, 0);
    assert forall|i: int| #[trigger]
        bit((a & ((a - 1) as u64)), i) == (bit(a, i) && i != t) by {
        if 0 <= i < 64 {
            bv_lowest(a, t, i as u64);
        }
    }
}

/// A non-zero word has a highest set bit, found by counting leading zeros.
pub proof fn lemma_highest(a: u64)
    requires
        a != 0,
    ensures
        0 <= u64_leading_zeros(a) < 64,
        bit(a, 63 - u64_leading_zeros(a)),
        forall|i: int| bit(a, i) ==> i <= 63 - u64_leading_zeros(a),
{
    axiom_u64_leading_zeros(a);
    let h = (63 - u64_leading_zeros(a)) as u64;
    bv_logic(a, a, h);
    assert forall|i: int| bit(a, i) implies i <= h by {
        bv_highest(a, h, i as u64);
    }
}

/// A word is zero exactly when it has no bit.
pub proof fn lemma_zero(a: u64)
    ensures
        (a == 0) == (forall|i: int| !#[trigger] bit(a, i)),
{
    if a != 0 {
        lemma_lowest(a);
    } else {
        lemma_constants();
    }
}

/// Two words with the same bits are equal.
pub proof fn lemma_ext(a: u64, b: u64)
    requires
        forall|i: int| 0 <= i < 64 ==> bit(a, i) == bit(b, i),
    ensures
        a == b,
{
    let x = a ^ b;
    lemma_xor(a, b);
    if x != 0 {
        lemma_lowest(x);
        assert(bit(x, u64_trailing_zeros(x) as int));
    } else {
        assert(a == b) by (bit_vector)
            requires
                a ^ b == 0,
        ;
    }
}

/// What the file and rank masks hold: a square `i` lies on file `i % 8`
/// and on rank `i / 8`.
pub proof fn lemma_masks()
    ensures
        forall|i: int| #[trigger] bit(FILE_A, i) == (0 <= i < 64 && i % 8 == 0),
        forall|i: int| #[trigger] bit(FILE_B, i) == (0 <= i < 64 && i % 8 == 1),
        forall|i: int| #[trigger] bit(FILE_C, i) == (0 <= i < 64 && i % 8 == 2),
        forall|i: int| #[trigger] bit(FILE_D, i) == (0 <= i < 64 && i % 8 == 3),
        forall|i: int| #[trigger] bit(FILE_E, i) == (0 <= i < 64 && i % 8 == 4),
        forall|i: int| #[trigger] bit(FILE_F, i) == (0 <= i < 64 && i % 8 == 5),
        forall|i: int| #[trigger] bit(FILE_G, i) == (0 <= i < 64 && i % 8 == 6),
        forall|i: int| #[trigger] bit(FILE_H, i) == (0 <= i < 64 && i % 8 == 7),
        forall|i: int| #[trigger] bit(RANK_1, i) == (0 <= i < 64 && i / 8 == 0),
        forall|i: int| #[trigger] bit(RANK_2, i) == (0 <= i < 64 && i / 8 == 1),
        forall|i: int| #[trigger] bit(RANK_3, i) == (0 <= i < 64 && i / 8 == 2),
        forall|i: int| #[trigger] bit(RANK_4, i) == (0 <= i < 64 && i / 8 == 3),
        forall|i: int| #[trigger] bit(RANK_5, i) == (0 <= i < 64 && i / 8 == 4),
        forall|i: int| #[trigger] bit(RANK_6, i) == (0 <= i < 64 && i / 8 == 5),
        forall|i: int| #[trigger] bit(RANK_7, i) == (0 <= i < 64 && i / 8 == 6),
        forall|i: int| #[trigger] bit(RANK_8, i) == (0 <= i < 64 && i / 8 == 7),
        forall|i: int| #[trigger] bit(NOT_A_FILE, i) == (0 <= i < 64 && i % 8 != 0),
        forall|i: int| #[trigger] bit(NOT_AB_FILE, i) == (0 <= i < 64 && i % 8 >= 2),
        forall|i: int| #[trigger] bit(NOT_H_FILE, i) == (0 <= i < 64 && i % 8 != 7),
        forall|i: int| #[trigger] bit(NOT_GH_FILE, i) == (0 <= i < 64 && i % 8 < 6),
{
    assert forall|i: int| #[trigger] bit(FILE_A, i) == (0 <= i < 64 && i % 8 == 0) by {
        if 0 <= i < 64 {
            bv_masks(i as u64);
        }
    }
    assert forall|i: int| #[trigger] bit(FILE_B, i) == (0 <= i < 64 && i % 8 == 1) by {
        if 0 <= i < 64 {
            bv_masks(i as u64);
        }
    }
    assert forall|i: int| #[trigger] bit(FILE_C, i) == (0 <= i < 64 && i % 8 == 2) by {
        if 0 <= i < 64 {
            bv_masks(i as u64);
        }
    }
    assert forall|i: int| #[trigger] bit(FILE_D, i) == (0 <= i < 64 && i % 8 == 3) by {
        if 0 <= i < 64 {
            bv_masks(i as u64);
        }
    }
    assert forall|i: int| #[trigger] bit(FILE_E, i) == (0 <= i < 64 && i % 8 == 4) by {
        if 0 <= i < 64 {
            bv_masks(i as u64);
        }
    }
    assert forall|i: int| #[trigger] bit(FILE_F, i) == (0 <= i < 64 && i % 8 == 5) by {
        if 0 <= i < 64 {
            bv_masks(i as u64);
        }
    }
    assert forall|i: int| #[trigger] bit(FILE_G, i) == (0 <= i < 64 && i % 8 == 6) by {
        if 0 <= i < 64 {
            bv_masks(i as u64);
        }
    }
    assert forall|i: int| #[trigger] bit(FILE_H, i) == (0 <= i < 64 && i % 8 == 7) by {
        if 0 <= i < 64 {
            bv_masks(i as u64);
        }
    }
    assert forall|i: int| #[trigger] bit(RANK_1, i) == (0 <= i < 64 && i / 8 == 0) by {
        if 0 <= i < 64 {
            bv_masks(i as u64);
        }
    }
    assert forall|i: int| #[trigger] bit(RANK_2, i) == (0 <= i < 64 && i / 8 == 1) by {
        if 0 <= i < 64 {
            bv_masks(i as u64);
        }
    }
    assert forall|i: int| #[trigger] bit(RANK_3, i) == (0 <= i < 64 && i / 8 == 2) by {
        if 0 <= i < 64 {
            bv_masks(i as u64);
        }
    }
    assert forall|i: int| #[trigger] bit(RANK_4, i) == (0 <= i < 64 && i / 8 == 3) by {
        if 0 <= i < 64 {
            bv_masks(i as u64);
        }
    }
    assert forall|i: int| #[trigger] bit(RANK_5, i) == (0 <= i < 64 && i / 8 == 4) by {
        if 0 <= i < 64 {
            bv_masks(i as u64);
        }
    }
    assert forall|i: int| #[trigger] bit(RANK_6, i) == (0 <= i < 64 && i / 8 == 5) by {
        if 0 <= i < 64 {
            bv_masks(i as u64);
        }
    }
    assert forall|i: int| #[trigger] bit(RANK_7, i) == (0 <= i < 64 && i / 8 == 6) by {
        if 0 <= i < 64 {
            bv_masks(i as u64);
        }
    }
    assert forall|i: int| #[trigger] bit(RANK_8, i) == (0 <= i < 64 && i / 8 == 7) by {
        if 0 <= i < 64 {
            bv_masks(i as u64);
        }
    }
    assert forall|i: int| #[trigger] bit(NOT_A_FILE, i) == (0 <= i < 64 && i % 8 != 0) by {
        if 0 <= i < 64 {
            bv_masks(i as u64);
        }
    }
    assert forall|i: int| #[trigger] bit(NOT_AB_FILE, i) == (0 <= i < 64 && i % 8 >= 2) by {
        if 0 <= i < 64 {
            bv_masks(i as u64);
        }
    }
    assert forall|i: int| #[trigger] bit(NOT_H_FILE, i) == (0 <= i < 64 && i % 8 != 7) by {
        if 0 <= i < 64 {
            bv_masks(i as u64);
        }
    }
    assert forall|i: int| #[trigger] bit(NOT_GH_FILE, i) == (0 <= i < 64 && i % 8 < 6) by {
        if 0 <= i < 64 {
            bv_masks(i as u64);
        }
    }
}

} // verus!
