//! Casting rays over a set of occupied squares by plain index steps.

use crate::bits::bit;
use crate::model::bitboard::BitBoard;
use crate::model::board::Board;
use vstd::prelude::*;

verus! {

/// Directions by their index offsets, each standing for one step: up is -8,
/// down is 8, left is -1, right is 1.
#[derive(Debug, Clone, Copy, PartialEq, Eq, Structural)]
pub enum Direction {
    Up,
    Down,
    Left,
    Right,
    UpLeft,
    UpRight,
    DownLeft,
    DownRight,
}

impl Direction {
    /// The step of a direction as an unsigned byte: the index offset for
    /// the four directions with a positive offset, and the offset plus 256
    /// for the four with a negative one.
    pub open spec fn spec_step(self) -> u8 {
        match self {
            Direction::Up => 248,
            Direction::Down => 8,
            Direction::Left => 255,
            Direction::Right => 1,
            Direction::UpLeft => 247,
            Direction::UpRight => 249,
            Direction::DownLeft => 7,
            Direction::DownRight => 9,
        }
    }

    #[verifier::when_used_as_spec(spec_step)]
    pub fn step(self) -> (r: u8)
        ensures
            r == self.spec_step(),
            r >= 1,
    {
        match self {
            Direction::Up => 248,
            Direction::Down => 8,
            Direction::Left => 255,
            Direction::Right => 1,
            Direction::UpLeft => 247,
            Direction::UpRight => 249,
            Direction::DownLeft => 7,
            Direction::DownRight => 9,
        }
    }
}

/// The squares that a ray passes from `from` on, in steps of `step`
/// indices, up to the last square of the board or to the square before the
/// first occupied one. The ray does not stop at the edge of a rank, and a
/// step that stands for a negative offset leads off the board at once.
pub open spec fn ray_squares(occupied: u64, from: int, step: int) -> Seq<u8>
    decreases 64 - from,
{
    if step < 1 || from < 0 || from + step > 63 || bit(occupied, from + step) {
        Seq::empty()
    } else {
        seq![(from + step) as u8] + ray_squares(occupied, from + step, step)
    }
}

/// The last square of [`ray_squares`], or `from` if the ray passes no
/// square.
pub open spec fn ray_end(occupied: u64, from: int, step: int) -> int {
    if ray_squares(occupied, from, step).len() == 0 {
        from
    } else {
        ray_squares(occupied, from, step).last() as int
    }
}

pub trait RayCast {
    /// The occupied squares over which rays are cast.
    spec fn occupied(&self) -> u64;

    /// The squares that a ray from `from` passes before it meets an
    /// occupied square or leaves the board.
    fn ray_cast(&self, from: u8, shift: Direction) -> (r: Vec<u8>)
        ensures
            r@ == ray_squares(self.occupied(), from as int, shift.step() as int),
    ;

    /// The last square that a ray from `from` passes, or `from` itself.
    fn ray_attack(&self, from: u8, shift: Direction) -> (r: u8)
        ensures
            r == ray_end(self.occupied(), from as int, shift.step() as int),
    ;
}

/// The squares of a ray from `from` over `occupied`.
fn cast(occupied: u64, from: u8, shift: Direction) -> (r: Vec<u8>)
    ensures
        r@ == ray_squares(occupied, from as int, shift.step() as int),
        r.len() > 0 ==> r@.last() <= 63,
{
    let mut actions: Vec<u8> = Vec::new();
    let mut current = from;
    let step = shift.step();
    proof {
        assert(actions@ + ray_squares(occupied, from as int, step as int) =~= ray_squares(
            occupied,
            from as int,
            step as int,
        ));
    }
    loop
        invariant
            step == shift.step(),
            step >= 1,
            actions@ + ray_squares(occupied, current as int, step as int) == ray_squares(
                occupied,
                from as int,
                step as int,
            ),
            actions.len() > 0 ==> actions@.last() == current && current <= 63,
        ensures
            actions@ == ray_squares(occupied, from as int, step as int),
            actions.len() > 0 ==> actions@.last() <= 63,
        decreases 255 - current,
    {
        let next = match current.checked_add(step) {
            Some(n) => n,
            None => {
                proof {
                    assert(actions@ + Seq::<u8>::empty() =~= actions@);
                }
                break ;
            },
        };
        if next > 63 || (occupied >> (next as u64)) & 1u64 == 1u64 {
            proof {
                assert(actions@ + Seq::<u8>::empty() =~= actions@);
            }
            break ;
        }
        let ghost before = actions@;
        actions.push(next);
        proof {
            assert(actions@ + ray_squares(occupied, next as int, step as int) =~= before + (
            seq![next] + ray_squares(occupied, next as int, step as int)));
        }
        current = next;
    }
    actions
}

impl RayCast for BitBoard {
    open spec fn occupied(&self) -> u64 {
        self@
    }

    fn ray_cast(&self, from: u8, shift: Direction) -> (r: Vec<u8>) {
        cast(self.raw(), from, shift)
    }

    fn ray_attack(&self, from: u8, shift: Direction) -> (r: u8) {
        let squares = cast(self.raw(), from, shift);
        if squares.len() == 0 {
            from
        } else {
            squares[squares.len() - 1]
        }
    }
}

impl RayCast for Board {
    /// A board casts rays over its occupancy bitboard.
    open spec fn occupied(&self) -> u64 {
        self.combined@
    }

    fn ray_cast(&self, from: u8, shift: Direction) -> (r: Vec<u8>) {
        cast(self.combined.raw(), from, shift)
    }

    fn ray_attack(&self, from: u8, shift: Direction) -> (r: u8) {
        let squares = cast(self.combined.raw(), from, shift);
        if squares.len() == 0 {
            from
        } else {
            squares[squares.len() - 1]
        }
    }
}

} // verus!
