//! A 64-bit set over the squares of the board: bit `i` stands for square
//! `i`, with a1 = 0, b1 = 1, ..., h8 = 63.

use crate::bits::{
    bit, lemma_and, lemma_constants, lemma_lowest, lemma_not, lemma_or, lemma_shl, lemma_shr,
    lemma_single, lemma_xor,
};
use vstd::prelude::*;
use vstd::std_specs::bits::u64_trailing_zeros;
use vstd::std_specs::convert::FromSpecImpl;
use vstd::std_specs::ops::{
    BitAndSpecImpl, BitOrSpecImpl, BitXorSpecImpl, NotSpecImpl, ShlSpecImpl, ShrSpecImpl,
};

verus! {

#[derive(Clone, Copy, Debug)]
pub struct BitBoard {
    pub data: u64,
}

impl View for BitBoard {
    type V = u64;

    /// The raw 64 bits.
    open spec fn view(&self) -> u64 {
        self.data
    }
}

impl BitBoard {
    /// The set with square `i` added.
    pub open spec fn with(self, i: int) -> BitBoard {
        BitBoard { data: self.data | (1u64 << (i as u64)) }
    }

    /// The set with square `i` taken out.
    pub open spec fn without(self, i: int) -> BitBoard {
        BitBoard { data: self.data & !(1u64 << (i as u64)) }
    }

    /// What [`Self::with`] and [`Self::without`] hold.
    pub proof fn lemma_with_without(self, i: int)
        requires
            0 <= i < 64,
        ensures
            forall|j: int| #[trigger] self.with(i).has(j) == (self.has(j) || j == i),
            forall|j: int| #[trigger] self.without(i).has(j) == (self.has(j) && j != i),
    {
        lemma_single(i as u64);
        lemma_or(self.data, 1u64 << (i as u64));
        lemma_not(1u64 << (i as u64));
        lemma_and(self.data, !(1u64 << (i as u64)));
    }

    /// Whether square `i` is in the set. No square outside `0..64` is.
    #[verifier::inline]
    pub open spec fn has(self, i: int) -> bool {
        bit(self.data, i)
    }

    /// Create a new bitboard
    pub fn new(data: u64) -> (r: Self)
        ensures
            r@ == data,
    {
        Self { data }
    }

    /// Get the raw bits value
    pub fn raw(&self) -> (r: u64)
        ensures
            r == self@,
    {
        self.data
    }

    /// The board with no square.
    pub fn empty() -> (r: Self)
        ensures
            r@ == 0,
            forall|i: int| !#[trigger] r.has(i),
    {
        proof {
            lemma_constants();
        }
        Self { data: 0 }
    }

    /// The board with all 64 squares.
    pub fn all_squares() -> (r: Self)
        ensures
            r@ == u64::MAX,
            forall|i: int| #[trigger] r.has(i) == (0 <= i < 64),
    {
        proof {
            lemma_constants();
        }
        Self { data: u64::MAX }
    }

    pub fn set_bit(&mut self, index: u8)
        requires
            index < 64,
        ensures
            *final(self) == old(self).with(index as int),
            forall|i: int| #[trigger] final(self).has(i) == (old(self).has(i) || i == index),
    {
        proof {
            lemma_single(index as u64);
            lemma_or(self.data, 1u64 << (index as u64));
        }
        self.data = self.data | (1u64 << (index as u64));
    }

    pub fn unset_bit(&mut self, index: u8)
        requires
            index < 64,
        ensures
            *final(self) == old(self).without(index as int),
            forall|i: int| #[trigger] final(self).has(i) == (old(self).has(i) && i != index),
    {
        proof {
            lemma_single(index as u64);
            lemma_not(1u64 << (index as u64));
            lemma_and(self.data, !(1u64 << (index as u64)));
        }
        self.data = self.data & !(1u64 << (index as u64));
    }

    /// Put square `index` in the set or take it out, as `value` says.
    pub fn update_bit(&mut self, index: u8, value: bool)
        requires
            index < 64,
        ensures
            *final(self) == (if value {
                old(self).with(index as int)
            } else {
                old(self).without(index as int)
            }),
            forall|i: int| #[trigger]
                final(self).has(i) == (if i == index {
                    value
                } else {
                    old(self).has(i)
                }),
    {
        if value {
            self.set_bit(index);
        } else {
            self.unset_bit(index);
        }
    }

    pub fn get_bit(&self, index: u8) -> (r: bool)
        requires
            index < 64,
        ensures
            r == self.has(index as int),
    {
        (self.data >> (index as u64)) & 1u64 == 1u64
    }

    /// Whether no square is in the set.
    pub fn is_empty(&self) -> (r: bool)
        ensures
            r == (self@ == 0),
            r == (forall|i: int| !self.has(i)),
    {
        proof {
            crate::bits::lemma_zero(self.data);
            if self.data == 0 {
                assert forall|i: int| !self.has(i) by {
                    assert(!bit(self.data, i));
                }
            } else {
                let i = choose|i: int| bit(self.data, i);
                assert(self.has(i));
            }
        }
        self.data == 0
    }

    /// The squares of the set in ascending order, one for each step of
    /// "find the lowest set bit, clear it".
    pub fn into_iter(self) -> (r: BitBoardIter)
        ensures
            r@ == self@,
    {
        BitBoardIter { data: self.data }
    }

    /// The squares of the set, in ascending order.
    pub fn to_squares(&self) -> (r: Vec<u8>)
        ensures
            forall|k: int| 0 <= k < r.len() ==> self.has(#[trigger] r[k] as int),
            forall|i: int| #[trigger]
                self.has(i) ==> exists|k: int| 0 <= k < r.len() && #[trigger] r[k] == i,
            forall|j: int, k: int| 0 <= j < k < r.len() ==> r[j] < r[k],
    {
        let mut out: Vec<u8> = Vec::new();
        let mut iter = self.into_iter();
        loop
            invariant
                forall|k: int| 0 <= k < out.len() ==> self.has(#[trigger] out[k] as int),
                forall|i: int| iter.holds(i) ==> self.has(i),
                forall|i: int| #[trigger]
                    self.has(i) ==> iter.holds(i) || exists|k: int|
                        0 <= k < out.len() && #[trigger] out[k] == i,
                forall|j: int, k: int| 0 <= j < k < out.len() ==> out[j] < out[k],
                forall|k: int, i: int| 0 <= k < out.len() && iter.holds(i) ==> out[k] < i,
            ensures
                forall|i: int| !iter.holds(i),
            decreases iter@,
        {
            let ghost before = iter;
            let ghost prev = out@;
            match iter.next() {
                None => {
                    assert(forall|i: int| !iter.holds(i)) by {
                        lemma_constants();
                    }
                    break ;
                },
                Some(sq) => {
                    out.push(sq);
                    assert(out[prev.len() as int] == sq);
                    assert forall|i: int| #[trigger] self.has(i) implies iter.holds(i)
                        || exists|k: int| 0 <= k < out.len() && #[trigger] out[k] == i by {
                        if before.holds(i) {
                            if i == sq {
                                assert(out[prev.len() as int] == i);
                            }
                        } else {
                            let k = choose|k: int| 0 <= k < prev.len() && #[trigger] prev[k] == i;
                            assert(out[k] == i);
                        }
                    }
                },
            }
        }
        out
    }
}

impl BitOrSpecImpl for BitBoard {
    open spec fn obeys_bitor_spec() -> bool {
        true
    }

    open spec fn bitor_req(self, rhs: Self) -> bool {
        true
    }

    open spec fn bitor_spec(self, rhs: Self) -> Self {
        BitBoard { data: self.data | rhs.data }
    }
}

impl core::ops::BitOr for BitBoard {
    type Output = Self;

    /// Union.
    fn bitor(self, rhs: Self) -> (r: Self)
        ensures
            r@ == self@ | rhs@,
            forall|i: int|
                #![trigger r.has(i)]
                #![trigger self.has(i), rhs.has(i)]
                r.has(i) == (self.has(i) || rhs.has(i)),
    {
        proof {
            lemma_or(self.data, rhs.data);
            assert forall|i: int| #![trigger self.has(i), rhs.has(i)]
                bit(self.data | rhs.data, i) == (self.has(i) || rhs.has(i)) by {
                assert(bit(self.data | rhs.data, i) == (bit(self.data, i) || bit(rhs.data, i)));
            }
        }
        BitBoard { data: self.data | rhs.data }
    }
}

impl BitAndSpecImpl for BitBoard {
    open spec fn obeys_bitand_spec() -> bool {
        true
    }

    open spec fn bitand_req(self, rhs: Self) -> bool {
        true
    }

    open spec fn bitand_spec(self, rhs: Self) -> Self {
        BitBoard { data: self.data & rhs.data }
    }
}

impl core::ops::BitAnd for BitBoard {
    type Output = Self;

    /// Intersection.
    fn bitand(self, rhs: Self) -> (r: Self)
        ensures
            r@ == self@ & rhs@,
            forall|i: int|
                #![trigger r.has(i)]
                #![trigger self.has(i), rhs.has(i)]
                r.has(i) == (self.has(i) && rhs.has(i)),
    {
        proof {
            lemma_and(self.data, rhs.data);
            assert forall|i: int| #![trigger self.has(i), rhs.has(i)]
                bit(self.data & rhs.data, i) == (self.has(i) && rhs.has(i)) by {
                assert(bit(self.data & rhs.data, i) == (bit(self.data, i) && bit(rhs.data, i)));
            }
        }
        BitBoard { data: self.data & rhs.data }
    }
}

impl BitAndSpecImpl<u64> for BitBoard {
    open spec fn obeys_bitand_spec() -> bool {
        true
    }

    open spec fn bitand_req(self, rhs: u64) -> bool {
        true
    }

    open spec fn bitand_spec(self, rhs: u64) -> Self {
        BitBoard { data: self.data & rhs }
    }
}

impl core::ops::BitAnd<u64> for BitBoard {
    type Output = Self;

    /// Intersection with a raw mask.
    fn bitand(self, rhs: u64) -> (r: Self)
        ensures
            r@ == self@ & rhs,
            forall|i: int|
                #![trigger r.has(i)]
                #![trigger self.has(i), bit(rhs, i)]
                r.has(i) == (self.has(i) && bit(rhs, i)),
    {
        proof {
            lemma_and(self.data, rhs);
            assert forall|i: int| #![trigger self.has(i), bit(rhs, i)]
                bit(self.data & rhs, i) == (self.has(i) && bit(rhs, i)) by {
                assert(bit(self.data & rhs, i) == (bit(self.data, i) && bit(rhs, i)));
            }
        }
        BitBoard { data: self.data & rhs }
    }
}

impl BitXorSpecImpl<bool> for BitBoard {
    open spec fn obeys_bitxor_spec() -> bool {
        true
    }

    open spec fn bitxor_req(self, rhs: bool) -> bool {
        true
    }

    open spec fn bitxor_spec(self, rhs: bool) -> Self {
        if rhs {
            BitBoard { data: self.data ^ u64::MAX }
        } else {
            self
        }
    }
}

impl core::ops::BitXor<bool> for BitBoard {
    type Output = Self;

    /// The complement if `rhs` holds, the board itself if not.
    fn bitxor(self, rhs: bool) -> (r: Self)
        ensures
            r@ == (if rhs {
                self@ ^ u64::MAX
            } else {
                self@
            }),
            forall|i: int|
                #![trigger r.has(i)]
                #![trigger self.has(i)]
                r.has(i) == (0 <= i < 64 && self.has(i) != rhs),
    {
        proof {
            lemma_xor(self.data, u64::MAX);
            lemma_constants();
            assert forall|i: int| #![trigger self.has(i)]
                bit(self.data ^ u64::MAX, i) == (0 <= i < 64 && !self.has(i)) by {
                assert(bit(self.data ^ u64::MAX, i) == (0 <= i < 64 && bit(self.data, i) != bit(
                    u64::MAX,
                    i,
                )));
            }
        }
        if rhs {
            BitBoard { data: self.data ^ u64::MAX }
        } else {
            self
        }
    }
}

impl NotSpecImpl for BitBoard {
    open spec fn obeys_not_spec() -> bool {
        true
    }

    open spec fn not_req(self) -> bool {
        true
    }

    open spec fn not_spec(self) -> Self {
        BitBoard { data: !self.data }
    }
}

impl core::ops::Not for BitBoard {
    type Output = Self;

    /// Complement within the 64 squares.
    fn not(self) -> (r: Self)
        ensures
            r@ == !self@,
            forall|i: int|
                #![trigger r.has(i)]
                #![trigger self.has(i)]
                r.has(i) == (0 <= i < 64 && !self.has(i)),
    {
        proof {
            lemma_not(self.data);
            assert forall|i: int| #![trigger self.has(i)]
                bit(!self.data, i) == (0 <= i < 64 && !self.has(i)) by {
                assert(bit(!self.data, i) == (0 <= i < 64 && !bit(self.data, i)));
            }
        }
        let inverted = !self.data;
        BitBoard { data: inverted }
    }
}

impl ShlSpecImpl<u8> for BitBoard {
    open spec fn obeys_shl_spec() -> bool {
        true
    }

    /// A shift by 64 or more is not accepted.
    open spec fn shl_req(self, rhs: u8) -> bool {
        rhs <= 63
    }

    open spec fn shl_spec(self, rhs: u8) -> Self {
        BitBoard { data: self.data << (rhs as u64) }
    }
}

impl core::ops::Shl<u8> for BitBoard {
    type Output = Self;

    /// Every square moves `rhs` indices up; what would pass h8 is lost.
    /// Nothing here keeps a square from wrapping to the next rank: the
    /// caller masks with file guards.
    fn shl(self, rhs: u8) -> (r: Self)
        ensures
            r@ == self@ << (rhs as u64),
            forall|i: int| #[trigger] r.has(i) == (i < 64 && self.has(i - rhs)),
    {
        proof {
            lemma_shl(self.data, rhs as u64);
        }
        BitBoard { data: self.data << (rhs as u64) }
    }
}

impl ShrSpecImpl<u8> for BitBoard {
    open spec fn obeys_shr_spec() -> bool {
        true
    }

    /// A shift by 64 or more is not accepted.
    open spec fn shr_req(self, rhs: u8) -> bool {
        rhs <= 63
    }

    open spec fn shr_spec(self, rhs: u8) -> Self {
        BitBoard { data: self.data >> (rhs as u64) }
    }
}

impl core::ops::Shr<u8> for BitBoard {
    type Output = Self;

    /// Every square moves `rhs` indices down; what would pass a1 is lost.
    fn shr(self, rhs: u8) -> (r: Self)
        ensures
            r@ == self@ >> (rhs as u64),
            forall|i: int| #[trigger] r.has(i) == (0 <= i && self.has(i + rhs)),
    {
        proof {
            lemma_shr(self.data, rhs as u64);
        }
        BitBoard { data: self.data >> (rhs as u64) }
    }
}

impl FromSpecImpl<BitBoard> for u64 {
    open spec fn obeys_from_spec() -> bool {
        true
    }

    open spec fn from_spec(val: BitBoard) -> u64 {
        val@
    }
}

impl From<BitBoard> for u64 {
    fn from(val: BitBoard) -> (r: u64) {
        val.data
    }
}

/// What is left of a board while its squares are handed out in ascending
/// order.
pub struct BitBoardIter {
    data: u64,
}

impl View for BitBoardIter {
    type V = u64;

    /// The squares not handed out yet, as raw bits.
    closed spec fn view(&self) -> u64 {
        self.data
    }
}

impl BitBoardIter {
    /// Whether square `i` is still to come.
    #[verifier::inline]
    pub open spec fn holds(self, i: int) -> bool {
        bit(self@, i)
    }

    /// The lowest square still to come, which then is no longer held; `None`
    /// once none is left.
    pub fn next(&mut self) -> (r: Option<u8>)
        ensures
            old(self)@ == 0 ==> r.is_none() && final(self)@ == 0,
            old(self)@ != 0 ==> r == Some(u64_trailing_zeros(old(self)@) as u8) && final(self)@
                < old(self)@,
            r matches Some(sq) ==> {
                &&& sq < 64
                &&& old(self).holds(sq as int)
                &&& forall|i: int| old(self).holds(i) ==> sq <= i
                &&& forall|i: int| #[trigger] final(self).holds(i) == (old(self).holds(i) && i != sq)
            },
            r.is_none() ==> forall|i: int| !old(self).holds(i),
    {
        if self.data == 0 {
            proof {
                lemma_constants();
            }
            None
        } else {
            proof {
                lemma_lowest(self.data);
            }
            let square = self.data.trailing_zeros() as u8;
            self.data = self.data & (self.data - 1);
            Some(square)
        }
    }
}

/// Directions for shifting bitboards on the 8x8 board, each with the
/// index offset it stands for.
#[derive(Debug, Clone, Copy, PartialEq, Eq, Structural)]
pub enum Direction {
    Up,
    Down,
    Left,
    Right,
    UpLeft,
    UpRight,
    DownLeft,
    DownRight,
}

impl FromSpecImpl<Direction> for i8 {
    open spec fn obeys_from_spec() -> bool {
        true
    }

    open spec fn from_spec(val: Direction) -> i8 {
        match val {
            Direction::Up => -8i8,
            Direction::Down => 8i8,
            Direction::Left => -1i8,
            Direction::Right => 1i8,
            Direction::UpLeft => -9i8,
            Direction::UpRight => -7i8,
            Direction::DownLeft => 7i8,
            Direction::DownRight => 9i8,
        }
    }
}

impl From<Direction> for i8 {
    fn from(val: Direction) -> (r: i8) {
        match val {
            Direction::Up => -8,
            Direction::Down => 8,
            Direction::Left => -1,
            Direction::Right => 1,
            Direction::UpLeft => -9,
            Direction::UpRight => -7,
            Direction::DownLeft => 7,
            Direction::DownRight => 9,
        }
    }
}

} // verus!
