//! Helpers for square and move literals and for writing ranks.

use crate::model::gamedata::run_text;
use crate::model::text::{chars_of, push_number};
use vstd::prelude::*;

verus! {

/// Whether the two characters name a square: a file from `a` to `h` and a
/// rank from `1` to `8`.
pub open spec fn names_square(file: char, rank: char) -> bool {
    'a' <= file <= 'h' && '1' <= rank <= '8'
}

/// The index of the square that a file letter and a rank digit name.
pub open spec fn index_of(file: char, rank: char) -> u8 {
    ((rank as u32 - '1' as u32) * 8 + (file as u32 - 'a' as u32)) as u8
}

/// Converts square notation to its index: `a1` is 0, `h8` is 63.
pub fn square_to_index(square: &str) -> (r: u8)
    requires
        square@.len() == 2,
        names_square(square@[0], square@[1]),
    ensures
        r == index_of(square@[0], square@[1]),
        r < 64,
{
    let s = chars_of(square);
    let file_idx = (s[0] as u32 - 'a' as u32) as u8;
    let rank_idx = (s[1] as u32 - '1' as u32) as u8;
    rank_idx * 8 + file_idx
}

/// The selector of the promotion piece that a letter names, in either
/// case: 0 queen, 1 rook, 2 bishop, 3 knight.
pub open spec fn promotion_selector(c: char) -> Option<u8> {
    if c == 'q' || c == 'Q' {
        Some(0u8)
    } else if c == 'r' || c == 'R' {
        Some(1u8)
    } else if c == 'b' || c == 'B' {
        Some(2u8)
    } else if c == 'n' || c == 'N' {
        Some(3u8)
    } else {
        None
    }
}

/// Whether the text has `x` between its two squares, as in `e4xd5`.
pub open spec fn is_capture_notation(s: Seq<char>) -> bool {
    s.len() >= 5 && s[2] == 'x'
}

/// Where the destination square starts in the text.
pub open spec fn destination_at(s: Seq<char>) -> int {
    if is_capture_notation(s) {
        3
    } else {
        2
    }
}

/// Whether the text is a move literal: two squares, with an `x` between
/// them for a capture, and after them nothing or the letter of a promotion
/// piece followed by anything.
pub open spec fn is_move_literal(s: Seq<char>) -> bool {
    let d = destination_at(s);
    &&& s.len() >= 4
    &&& names_square(s[0], s[1])
    &&& names_square(s[d], s[d + 1])
    &&& s.len() > d + 2 ==> promotion_selector(s[d + 2]).is_some()
}

/// Reads a move literal: origin, destination, whether the text marks a
/// capture, and the selector of the promotion piece if one is named.
pub fn parse_uci_move(uci: &str) -> (r: (u8, u8, bool, Option<u8>))
    requires
        is_move_literal(uci@),
    ensures
        r.0 == index_of(uci@[0], uci@[1]),
        r.1 == index_of(uci@[destination_at(uci@)], uci@[destination_at(uci@) + 1]),
        r.2 == is_capture_notation(uci@),
        r.3 == (if uci@.len() > destination_at(uci@) + 2 {
            promotion_selector(uci@[destination_at(uci@) + 2])
        } else {
            None
        }),
{
    let s = chars_of(uci);
    let is_capture = s.len() >= 5 && s[2] == 'x';
    let d: usize = if is_capture {
        3
    } else {
        2
    };
    let from = ((s[1] as u32 - '1' as u32) * 8 + (s[0] as u32 - 'a' as u32)) as u8;
    let to = ((s[d + 1] as u32 - '1' as u32) * 8 + (s[d] as u32 - 'a' as u32)) as u8;
    let promotion = if s.len() > d + 2 {
        let c = s[d + 2];
        if c == 'q' || c == 'Q' {
            Some(0u8)
        } else if c == 'r' || c == 'R' {
            Some(1u8)
        } else if c == 'b' || c == 'B' {
            Some(2u8)
        } else {
            Some(3u8)
        }
    } else {
        None
    };
    (from, to, is_capture, promotion)
}

/// A rank as it is written: unchanged.
pub fn compress_rank(rank: &str) -> (r: &str)
    ensures
        r@ == rank@,
{
    rank
}

/// The rank text in which every run of dots and spaces has been replaced
/// by its length, after a run of `empty` such characters.
pub open spec fn compressed(s: Seq<char>, empty: int) -> Seq<char>
    decreases s.len(),
{
    if s.len() == 0 {
        run_text(empty)
    } else if s[0] == '.' || s[0] == ' ' {
        compressed(s.drop_first(), empty + 1)
    } else {
        run_text(empty) + seq![s[0]] + compressed(s.drop_first(), 0)
    }
}

/// Writes a rank with its runs of empty squares, drawn as dots or spaces,
/// replaced by their lengths.
pub fn compress_rank_runtime(rank: &str) -> (r: String)
    ensures
        r@ == compressed(rank@, 0),
{
    let s = chars_of(rank);
    let n = s.len();
    let mut result = String::new();
    let mut empty_count: usize = 0;
    let mut i: usize = 0;
    proof {
        assert(s@.subrange(0, n as int) =~= s@);
        assert(result@ + compressed(s@, 0) =~= compressed(s@, 0));
    }
    while i < n
        invariant
            n == s.len(),
            0 <= i <= n,
            0 <= empty_count <= i,
            result@ + compressed(s@.subrange(i as int, n as int), empty_count as int)
                == compressed(s@, 0),
        decreases n - i,
    {
        let ch = s[i];
        let ghost rest = s@.subrange(i as int, n as int);
        let ghost before = result@;
        let ghost run = empty_count as int;
        proof {
            assert(rest[0] == ch);
            assert(rest.drop_first() =~= s@.subrange(i + 1, n as int));
        }
        if ch == '.' || ch == ' ' {
            empty_count = empty_count + 1;
        } else {
            if empty_count > 0 {
                push_number(&mut result, empty_count);
                empty_count = 0;
            }
            result.push(ch);
            proof {
                assert(result@ + compressed(s@.subrange(i + 1, n as int), 0) =~= before + (
                run_text(run) + seq![ch] + compressed(s@.subrange(i + 1, n as int), 0)));
            }
        }
        i = i + 1;
    }
    let ghost before = result@;
    if empty_count > 0 {
        push_number(&mut result, empty_count);
    }
    proof {
        assert(s@.subrange(n as int, n as int) =~= Seq::<char>::empty());
        assert(result@ =~= before + run_text(empty_count as int));
    }
    result
}

} // verus!
