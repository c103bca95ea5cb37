//! Reading back what was written: the text form of a position that was
//! read from text reads as the same position.

use crate::bits::{bit, lemma_and, lemma_constants, lemma_ext, lemma_not, lemma_or, lemma_single};
use crate::errors::FenParseError;
use crate::model::bitboard::BitBoard;
use crate::model::gameboard::{GameBoard, PieceType};
use crate::model::gamedata::{
    active_colour_of, castling_bits, castling_flag, castling_of, castling_text, char_of_piece,
    decode, decode_fields, en_passant_context, en_passant_of, en_passant_text, encode_fen,
    GameData, MAX_GAME_MOVES, piece_char_at, piece_of_char, place_all, place_char, Placement,
    placement_of, placement_square, placement_text, plies_of, rank_text, run_text, utf8_len,
    utf8_size, with_piece,
};
use crate::model::piecemove::PieceMove;
use crate::model::text::{
    decimal, digit_char, fields_of, is_digit, lemma_word_found, number_text, spec_is_space,
    spec_parse_number, unsigned_part,
};
use vstd::array::spec_array_fill_for_copy_type;
use vstd::prelude::*;

verus! {

/// The decimal text of a number consists of digits, does not start with a
/// sign, and stands for the number.
pub proof fn lemma_number_text(n: nat)
    ensures
        number_text(n).len() > 0,
        forall|i: int| 0 <= i < number_text(n).len() ==> is_digit(#[trigger] number_text(n)[i]),
        decimal(number_text(n)) == n,
    decreases n,
{
    if n < 10 {
        let t = number_text(n);
        assert(t.drop_last() =~= Seq::<char>::empty());
        assert(decimal(t.drop_last()) == 0);
    } else {
        lemma_number_text(n / 10);
        let t = number_text(n);
        assert(t.drop_last() =~= number_text(n / 10));
        assert(t.last() == digit_char(n % 10));
    }
}

/// A number that fits is read back from its decimal text.
pub proof fn lemma_parse_number_text(n: usize)
    ensures
        spec_parse_number(number_text(n as nat)) == Some(n),
{
    lemma_number_text(n as nat);
    let t = number_text(n as nat);
    assert(is_digit(t[0]));
    assert(unsigned_part(t) == t);
}

/// A text without whitespace.
pub open spec fn is_word(w: Seq<char>) -> bool {
    w.len() > 0 && forall|i: int| 0 <= i < w.len() ==> !spec_is_space(#[trigger] w[i])
}

/// A word is its own single field.
pub proof fn lemma_fields_last(w: Seq<char>)
    requires
        is_word(w),
    ensures
        fields_of(w) == seq![w],
{
    lemma_word_found(w, w.len() as int);
    assert(w.subrange(0, w.len() as int) =~= w);
    assert(w.subrange(w.len() as int, w.len() as int) =~= Seq::<char>::empty());
    assert(fields_of(Seq::<char>::empty()) =~= Seq::<Seq<char>>::empty());
    assert(seq![w] + Seq::<Seq<char>>::empty() =~= seq![w]);
}

/// A word followed by a space is the first field of a text.
pub proof fn lemma_fields_first(w: Seq<char>, rest: Seq<char>)
    requires
        is_word(w),
    ensures
        fields_of(w + seq![' '] + rest) == seq![w] + fields_of(rest),
{
    let s = w + seq![' '] + rest;
    let n = w.len() as int;
    assert forall|i: int| 0 <= i < n implies !spec_is_space(#[trigger] s[i]) by {
        assert(s[i] == w[i]);
    }
    assert(s[n] == ' ');
    lemma_word_found(s, n);
    assert(s.subrange(0, n) =~= w);
    let tail = s.subrange(n, s.len() as int);
    assert(tail =~= seq![' '] + rest);
    assert(tail.drop_first() =~= rest);
    assert(fields_of(tail) == fields_of(rest));
}

/// Reading a text that consists of two parts is reading the first part and
/// going on with the second.
pub proof fn lemma_place_all_concat(st: Placement, a: Seq<char>, b: Seq<char>)
    ensures
        place_all(st, a + b) == (match place_all(st, a) {
            Ok(mid) => place_all(mid, b),
            Err(e) => Err(e),
        }),
    decreases a.len(),
{
    if a.len() == 0 {
        assert(a + b =~= b);
    } else {
        assert((a + b)[0] == a[0]);
        assert((a + b).drop_first() =~= a.drop_first() + b);
        match place_char(st, a[0]) {
            Ok(next) => {
                lemma_place_all_concat(next, a.drop_first(), b);
            },
            Err(e) => {},
        }
    }
}

/// A piece placement that is read without error holds no whitespace.
pub proof fn lemma_placed_is_plain(st: Placement, s: Seq<char>)
    requires
        place_all(st, s).is_ok(),
    ensures
        forall|i: int| 0 <= i < s.len() ==> !spec_is_space(#[trigger] s[i]),
    decreases s.len(),
{
    if s.len() > 0 {
        let next = place_char(st, s[0]).unwrap();
        lemma_placed_is_plain(next, s.drop_first());
        assert forall|i: int| 0 <= i < s.len() implies !spec_is_space(#[trigger] s[i]) by {
            if i > 0 {
                assert(s[i] == s.drop_first()[i - 1]);
            }
        }
    }
}

/// The squares that come before the `idx`-th square of a piece placement.
pub open spec fn prefix_mask(idx: int) -> u64
    decreases idx,
{
    if idx <= 0 {
        0
    } else {
        prefix_mask(idx - 1) | (1u64 << (placement_square(idx - 1) as u64))
    }
}

/// A square is in [`prefix_mask`] exactly when its place in the piece
/// placement comes before `idx`.
pub proof fn lemma_prefix_mask(idx: int)
    requires
        0 <= idx <= 64,
    ensures
        forall|sq: int| #[trigger]
            bit(prefix_mask(idx), sq) == (0 <= sq < 64 && placement_square(sq) < idx),
    decreases idx,
{
    if idx <= 0 {
        lemma_constants();
    } else {
        lemma_prefix_mask(idx - 1);
        let sq0 = placement_square(idx - 1);
        lemma_single(sq0 as u64);
        lemma_or(prefix_mask(idx - 1), 1u64 << (sq0 as u64));
        assert forall|sq: int| #[trigger]
            bit(prefix_mask(idx), sq) == (0 <= sq < 64 && placement_square(sq) < idx) by {
            if 0 <= sq < 64 {
                assert(placement_square(placement_square(sq)) == sq);
            }
        }
    }
}

/// The part of a position that the first `idx` squares of its piece
/// placement describe: the pieces on those squares, with White to move, no
/// castling right and no en passant target.
pub open spec fn restricted(board: GameBoard, idx: int) -> GameBoard {
    GameBoard {
        pawns: BitBoard { data: board.pawns.data & prefix_mask(idx) },
        knights: BitBoard { data: board.knights.data & prefix_mask(idx) },
        bishops: BitBoard { data: board.bishops.data & prefix_mask(idx) },
        rooks: BitBoard { data: board.rooks.data & prefix_mask(idx) },
        queens: BitBoard { data: board.queens.data & prefix_mask(idx) },
        kings: BitBoard { data: board.kings.data & prefix_mask(idx) },
        colour: BitBoard { data: board.colour.data & prefix_mask(idx) },
        castling: 0,
        en_passant: PieceMove::spec_null(),
        playing: true,
    }
}

/// The colour bitboard marks occupied squares only.
pub open spec fn colour_on_pieces(board: GameBoard) -> bool {
    forall|sq: int| #[trigger] board.colour.has(sq) ==> board.occupied(sq)
}

proof fn lemma_mask_grow(x: u64, m: u64, sq: int)
    requires
        0 <= sq < 64,
    ensures
        bit(x, sq) ==> (x & m) | (1u64 << (sq as u64)) == x & (m | (1u64 << (sq as u64))),
        !bit(x, sq) ==> x & m == x & (m | (1u64 << (sq as u64))),
        !bit(x, sq) ==> (x & m) & !(1u64 << (sq as u64)) == x & m,
{
    let b = 1u64 << (sq as u64);
    lemma_single(sq as u64);
    lemma_and(x, m);
    lemma_or(m, b);
    lemma_and(x, m | b);
    lemma_or(x & m, b);
    lemma_not(b);
    lemma_and(x & m, !b);
    if bit(x, sq) {
        lemma_ext((x & m) | b, x & (m | b));
    } else {
        lemma_ext(x & m, x & (m | b));
        lemma_ext((x & m) & !b, x & m);
    }
}

/// One more square of the piece placement adds what stands on it.
pub proof fn lemma_restricted_step(board: GameBoard, idx: int)
    requires
        board.pieces_disjoint(),
        colour_on_pieces(board),
        0 <= idx < 64,
    ensures
        restricted(board, idx + 1) == (match board.piece_at(placement_square(idx)) {
            Some(piece) => with_piece(
                restricted(board, idx),
                placement_square(idx),
                piece,
                board.colour.has(placement_square(idx)),
            ),
            None => restricted(board, idx),
        }),
{
    let sq = placement_square(idx);
    let m = prefix_mask(idx);
    assert(prefix_mask(idx + 1) == m | (1u64 << (sq as u64)));
    assert(board.kinds_at(sq) <= 1);
    lemma_mask_grow(board.pawns.data, m, sq);
    lemma_mask_grow(board.knights.data, m, sq);
    lemma_mask_grow(board.bishops.data, m, sq);
    lemma_mask_grow(board.rooks.data, m, sq);
    lemma_mask_grow(board.queens.data, m, sq);
    lemma_mask_grow(board.kings.data, m, sq);
    lemma_mask_grow(board.colour.data, m, sq);
    if board.piece_at(sq).is_none() {
        assert(!board.occupied(sq));
        assert(!board.colour.has(sq));
    }
}

/// Reading a single character.
proof fn lemma_place_one(st: Placement, c: char)
    ensures
        place_all(st, seq![c]) == place_char(st, c),
{
    let s = seq![c];
    assert(s[0] == c);
    assert(s.drop_first() =~= Seq::<char>::empty());
    match place_char(st, c) {
        Ok(next) => {
            assert(place_all(next, s.drop_first()) == Ok::<Placement, FenParseError>(next));
        },
        Err(e) => {},
    }
}

/// Reading the count of a run of empty squares passes that many squares.
proof fn lemma_place_run(st: Placement, empty: int)
    requires
        0 <= empty <= 8,
    ensures
        place_all(st, run_text(empty)) == Ok::<Placement, FenParseError>(
            Placement { index: st.index + empty, squares: st.squares + empty, ..st },
        ),
{
    if empty > 0 {
        let c = digit_char(empty as nat);
        assert(run_text(empty) =~= seq![c]);
        lemma_place_one(st, c);
        assert('1' <= c <= '8');
        assert(c as u32 - '0' as u32 == empty);
    } else {
        assert(run_text(empty) =~= Seq::<char>::empty());
    }
}

/// The letter of a piece stands for that piece and is no digit.
proof fn lemma_piece_letter(piece: PieceType, white: bool)
    ensures
        piece_of_char(char_of_piece(piece, white)) == Some((piece, white)),
        !('1' <= char_of_piece(piece, white) <= '8'),
        char_of_piece(piece, white) != '/',
{
}

/// What is read from the text of the rest of a rank.
proof fn lemma_rank_parse(board: GameBoard, r: int, file: int, empty: int, st: Placement)
    requires
        board.pieces_disjoint(),
        colour_on_pieces(board),
        0 <= r < 8,
        0 <= empty <= file <= 8,
        st.board == restricted(board, 8 * (7 - r) + file),
        st.index == 8 * (7 - r) + file - empty,
        st.squares == file - empty,
    ensures
        place_all(st, rank_text(board, r, file, empty)) == Ok::<Placement, FenParseError>(
            Placement {
                board: restricted(board, 8 * (7 - r) + 8),
                index: 8 * (7 - r) + 8,
                squares: 8,
                ranks: st.ranks,
            },
        ),
    decreases 8 - file,
{
    if file >= 8 {
        lemma_place_run(st, empty);
    } else {
        let sq = r * 8 + file;
        let idx = 8 * (7 - r) + file;
        assert(placement_square(idx) == sq);
        lemma_restricted_step(board, idx);
        match board.piece_at(sq) {
            None => {
                lemma_rank_parse(board, r, file + 1, empty + 1, st);
            },
            Some(piece) => {
                let white = board.colour.has(sq);
                let c = char_of_piece(piece, white);
                let tail = rank_text(board, r, file + 1, 0);
                assert(piece_char_at(board, sq) == Some(c));
                assert(rank_text(board, r, file, empty) == run_text(empty) + seq![c] + tail);
                lemma_place_run(st, empty);
                let st1 = Placement { index: st.index + empty, squares: st.squares + empty, ..st };
                lemma_piece_letter(piece, white);
                lemma_place_one(st1, c);
                let st2 = Placement {
                    board: with_piece(st1.board, placement_square(st1.index), piece, white),
                    index: st1.index + 1,
                    squares: st1.squares + 1,
                    ..st1
                };
                assert(place_char(st1, c) == Ok::<Placement, FenParseError>(st2));
                lemma_place_all_concat(st, run_text(empty), seq![c]);
                lemma_place_all_concat(st, run_text(empty) + seq![c], tail);
                lemma_rank_parse(board, r, file + 1, 0, st2);
            },
        }
    }
}

/// What is read from the text of the ranks from `r` down to the first.
proof fn lemma_placement_parse(board: GameBoard, r: int, st: Placement)
    requires
        board.pieces_disjoint(),
        colour_on_pieces(board),
        0 <= r < 8,
        st.board == restricted(board, 8 * (7 - r)),
        st.index == 8 * (7 - r),
        st.squares == 0,
        st.ranks == 7 - r,
    ensures
        place_all(st, placement_text(board, r)) == Ok::<Placement, FenParseError>(
            Placement { board: restricted(board, 64), index: 64, squares: 8, ranks: 7 },
        ),
    decreases r,
{
    lemma_rank_parse(board, r, 0, 0, st);
    if r > 0 {
        let rank = rank_text(board, r, 0, 0);
        let rest = placement_text(board, r - 1);
        let st1 = Placement {
            board: restricted(board, 8 * (7 - r) + 8),
            index: 8 * (7 - r) + 8,
            squares: 8,
            ranks: st.ranks,
        };
        lemma_place_one(st1, '/');
        let st2 = Placement { squares: 0, ranks: st1.ranks + 1, ..st1 };
        assert(place_char(st1, '/') == Ok::<Placement, FenParseError>(st2));
        lemma_place_all_concat(st, rank, seq!['/']);
        lemma_place_all_concat(st, rank + seq!['/'], rest);
        lemma_placement_parse(board, r - 1, st2);
    }
}

/// The pieces of a position, with White to move, no castling right and no
/// en passant target.
pub open spec fn pieces_only(board: GameBoard) -> GameBoard {
    GameBoard { castling: 0, en_passant: PieceMove::spec_null(), playing: true, ..board }
}

/// The piece placement of a position is read back as the pieces of the
/// position, and it is a word.
pub proof fn lemma_placement_round_trip(board: GameBoard)
    requires
        board.pieces_disjoint(),
        colour_on_pieces(board),
    ensures
        placement_of(placement_text(board, 7)) == Ok::<GameBoard, FenParseError>(
            pieces_only(board),
        ),
        is_word(placement_text(board, 7)),
{
    let start = Placement { board: GameBoard::spec_new(), index: 0, squares: 0, ranks: 0 };
    lemma_constants();
    assert(prefix_mask(0) == 0);
    assert(restricted(board, 0) == GameBoard::spec_new()) by {
        lemma_and(board.pawns.data, 0);
        lemma_and(board.knights.data, 0);
        lemma_and(board.bishops.data, 0);
        lemma_and(board.rooks.data, 0);
        lemma_and(board.queens.data, 0);
        lemma_and(board.kings.data, 0);
        lemma_and(board.colour.data, 0);
        lemma_ext(board.pawns.data & 0, 0);
        lemma_ext(board.knights.data & 0, 0);
        lemma_ext(board.bishops.data & 0, 0);
        lemma_ext(board.rooks.data & 0, 0);
        lemma_ext(board.queens.data & 0, 0);
        lemma_ext(board.kings.data & 0, 0);
        lemma_ext(board.colour.data & 0, 0);
    }
    lemma_placement_parse(board, 7, start);
    assert(restricted(board, 64) == pieces_only(board)) by {
        lemma_prefix_mask(64);
        let m = prefix_mask(64);
        lemma_and(board.pawns.data, m);
        lemma_and(board.knights.data, m);
        lemma_and(board.bishops.data, m);
        lemma_and(board.rooks.data, m);
        lemma_and(board.queens.data, m);
        lemma_and(board.kings.data, m);
        lemma_and(board.colour.data, m);
        lemma_ext(board.pawns.data & m, board.pawns.data);
        lemma_ext(board.knights.data & m, board.knights.data);
        lemma_ext(board.bishops.data & m, board.bishops.data);
        lemma_ext(board.rooks.data & m, board.rooks.data);
        lemma_ext(board.queens.data & m, board.queens.data);
        lemma_ext(board.kings.data & m, board.kings.data);
        lemma_ext(board.colour.data & m, board.colour.data);
    }
    lemma_placed_is_plain(start, placement_text(board, 7));
    lemma_rank_text_not_empty(board, 7, 0, 0);
    assert(placement_text(board, 7).len() > 0);
}

/// The text of a rank holds at least one character.
proof fn lemma_rank_text_not_empty(board: GameBoard, r: int, file: int, empty: int)
    requires
        0 <= file <= 8,
        0 <= empty <= file,
        file == 8 ==> empty > 0,
    ensures
        rank_text(board, r, file, empty).len() > 0,
    decreases 8 - file,
{
    if file < 8 {
        match piece_char_at(board, r * 8 + file) {
            Some(c) => {},
            None => {
                lemma_rank_text_not_empty(board, r, file + 1, empty + 1);
            },
        }
    } else {
        lemma_number_text(empty as nat);
    }
}

/// What holds of every position that is read from text: no square holds
/// two kinds of piece; the colour bitboard marks occupied squares only;
/// the castling field holds nothing but the four rights; the en passant
/// field is the null move or the move from a1 onto a target of the third
/// or sixth rank that fits the board, with the capture flag; the history
/// is empty; and the number of half-moves is even exactly when White is to
/// move.
pub open spec fn as_read(g: GameData) -> bool {
    &&& g.board.pieces_disjoint()
    &&& colour_on_pieces(g.board)
    &&& g.board.castling < 16
    &&& g.board.en_passant == PieceMove::spec_null() || exists|file: int, rank: int|
        #![trigger en_passant_context(g.board, file, rank)]
        0 <= file < 8 && (rank == 2 || rank == 5) && en_passant_context(g.board, file, rank)
            && g.board.en_passant == PieceMove::spec_new(0, (rank * 8 + file) as u8, true, None)
    &&& g.moves == spec_array_fill_for_copy_type::<PieceMove, MAX_GAME_MOVES>(
        PieceMove::spec_null(),
    )
    &&& g.plies % 2 == (if g.board.playing {
        0int
    } else {
        1
    })
}

proof fn bv_castling(c: u8, f: u8)
    by (bit_vector)
    requires
        c < 16,
        f == 0 || f == 1 || f == 2 || f == 4 || f == 8,
    ensures
        c | f < 16,
        ((if c & 1u8 != 0 {
            1u8
        } else {
            0u8
        }) | (if c & 2u8 != 0 {
            2u8
        } else {
            0u8
        })) | (if c & 4u8 != 0 {
            4u8
        } else {
            0u8
        }) | (if c & 8u8 != 0 {
            8u8
        } else {
            0u8
        }) == c,
        0u8 | f == f,
        c | 0u8 == c,
{
}

/// The rights named by a text with one more character.
proof fn lemma_castling_bits_push(s: Seq<char>, c: char)
    ensures
        castling_bits(s.push(c)) == castling_bits(s) | castling_flag(c).unwrap_or(0),
        utf8_size(s.push(c)) == utf8_size(s) + utf8_len(c),
{
    assert(s.push(c).drop_last() =~= s);
}

/// The rights named by a text of valid characters are among the four.
proof fn lemma_castling_bits_bound(s: Seq<char>)
    requires
        forall|i: int| 0 <= i < s.len() ==> castling_flag(#[trigger] s[i]).is_some(),
    ensures
        castling_bits(s) < 16,
    decreases s.len(),
{
    if s.len() > 0 {
        lemma_castling_bits_bound(s.drop_last());
        bv_castling(castling_bits(s.drop_last()), castling_flag(s.last()).unwrap());
    }
}

/// The castling field is read back, and it is a word.
pub proof fn lemma_castling_round_trip(c: u8)
    requires
        c < 16,
    ensures
        castling_of(castling_text(c)) == Ok::<u8, FenParseError>(c),
        is_word(castling_text(c)),
{
    let e = Seq::<char>::empty();
    let t1 = if c & 0b0001 != 0 {
        e.push('K')
    } else {
        e
    };
    let t2 = if c & 0b0010 != 0 {
        t1.push('Q')
    } else {
        t1
    };
    let t3 = if c & 0b0100 != 0 {
        t2.push('k')
    } else {
        t2
    };
    let t4 = if c & 0b1000 != 0 {
        t3.push('q')
    } else {
        t3
    };
    let f1: u8 = if c & 0b0001 != 0 {
        1
    } else {
        0
    };
    let f2: u8 = if c & 0b0010 != 0 {
        2
    } else {
        0
    };
    let f3: u8 = if c & 0b0100 != 0 {
        4
    } else {
        0
    };
    let f4: u8 = if c & 0b1000 != 0 {
        8
    } else {
        0
    };
    bv_castling(c, f1);
    bv_castling(0, f1);
    bv_castling(f1, f2);
    bv_castling(f1 | f2, f3);
    bv_castling((f1 | f2) | f3, f4);
    lemma_castling_bits_push(e, 'K');
    lemma_castling_bits_push(t1, 'Q');
    lemma_castling_bits_push(t2, 'k');
    lemma_castling_bits_push(t3, 'q');
    lemma_castling_bits_push(e, '-');
    assert(castling_bits(e) == 0);
    assert(utf8_size(e) == 0);
    assert(castling_bits(t1) == f1);
    assert(castling_bits(t2) == f1 | f2);
    assert(castling_bits(t3) == (f1 | f2) | f3);
    assert(castling_bits(t4) == (f1 | f2) | f3 | f4);
    assert(castling_bits(t4) == c);
    let held = (if c & 0b0001 != 0 {
        seq!['K']
    } else {
        Seq::empty()
    }) + (if c & 0b0010 != 0 {
        seq!['Q']
    } else {
        Seq::empty()
    }) + (if c & 0b0100 != 0 {
        seq!['k']
    } else {
        Seq::empty()
    }) + (if c & 0b1000 != 0 {
        seq!['q']
    } else {
        Seq::empty()
    });
    assert(held =~= t4);
    let text = castling_text(c);
    if held.len() == 0 {
        assert(text =~= e.push('-'));
        assert(castling_bits(text) == 0);
        assert(c == 0);
    } else {
        assert(text == t4);
    }
    assert(utf8_size(text) <= 4);
    assert forall|i: int| 0 <= i < text.len() implies castling_flag(#[trigger] text[i]).is_some()
        && !spec_is_space(text[i]) by {
    }
}

/// The en passant field is read back on the same pieces, and it is a word.
pub proof fn lemma_en_passant_round_trip(board: GameBoard, file: int, rank: int)
    requires
        0 <= file < 8,
        rank == 2 || rank == 5,
        en_passant_context(board, file, rank),
    ensures
        en_passant_of(
            board,
            en_passant_text(PieceMove::spec_new(0, (rank * 8 + file) as u8, true, None)),
        ) == Ok::<PieceMove, FenParseError>(
            PieceMove::spec_new(0, (rank * 8 + file) as u8, true, None),
        ),
        is_word(en_passant_text(PieceMove::spec_new(0, (rank * 8 + file) as u8, true, None))),
{
    let sq = (rank * 8 + file) as u8;
    let m = PieceMove::spec_new(0, sq, true, None);
    PieceMove::lemma_spec_new(0, sq, true, None);
    let t = en_passant_text(m);
    assert(t.len() == 2);
    assert(t[0] as u32 == 'a' as u32 + file);
    assert(t[1] as u32 == '1' as u32 + rank);
    assert(t != seq!['-']) by {
        assert(seq!['-'].len() == 1);
    }
    let dash = en_passant_text(PieceMove::spec_null());
    assert(dash =~= seq!['-']);
    assert(!spec_is_space(dash[0]));
}

/// What holds while a piece placement is read: the pieces stand on
/// squares that the text has passed, no square holds two kinds of piece,
/// and the colour bitboard marks occupied squares only.
pub open spec fn placed_so_far(st: Placement) -> bool {
    &&& 0 <= st.index
    &&& st.board.pieces_disjoint()
    &&& colour_on_pieces(st.board)
    &&& forall|sq: int| #[trigger] st.board.occupied(sq) ==> placement_square(sq) < st.index
    &&& st.board.castling == 0
    &&& st.board.en_passant == PieceMove::spec_null()
    &&& st.board.playing
}

proof fn lemma_place_char_keeps(st: Placement, c: char)
    requires
        placed_so_far(st),
        place_char(st, c).is_ok(),
    ensures
        placed_so_far(place_char(st, c).unwrap()),
{
    let next = place_char(st, c).unwrap();
    if '1' <= c <= '8' {
    } else if piece_of_char(c).is_some() {
        let (piece, white) = piece_of_char(c).unwrap();
        let sq = placement_square(st.index);
        assert(0 <= sq < 64);
        assert(placement_square(sq) == st.index);
        assert(!st.board.occupied(sq));
        st.board.pawns.lemma_with_without(sq);
        st.board.knights.lemma_with_without(sq);
        st.board.bishops.lemma_with_without(sq);
        st.board.rooks.lemma_with_without(sq);
        st.board.queens.lemma_with_without(sq);
        st.board.kings.lemma_with_without(sq);
        st.board.colour.lemma_with_without(sq);
        assert forall|j: int| #[trigger] next.board.kinds_at(j) <= 1 by {
            assert(st.board.kinds_at(j) <= 1);
            if j == sq {
                assert(!st.board.occupied(j));
            }
        }
        assert forall|j: int| #[trigger] next.board.colour.has(j) implies next.board.occupied(
            j,
        ) by {
            if j != sq {
                assert(st.board.colour.has(j));
            }
        }
        assert forall|j: int| #[trigger] next.board.occupied(j) implies placement_square(j)
            < next.index by {
            if j != sq {
                assert(st.board.occupied(j));
            }
        }
    } else {
    }
}

proof fn lemma_place_all_keeps(st: Placement, s: Seq<char>)
    requires
        placed_so_far(st),
        place_all(st, s).is_ok(),
    ensures
        placed_so_far(place_all(st, s).unwrap()),
    decreases s.len(),
{
    if s.len() > 0 {
        lemma_place_char_keeps(st, s[0]);
        lemma_place_all_keeps(place_char(st, s[0]).unwrap(), s.drop_first());
    }
}

/// Every position that is read from text is [`as_read`].
pub proof fn lemma_decode_as_read(s: Seq<char>)
    requires
        decode(s).is_ok(),
    ensures
        as_read(decode(s).unwrap()),
{
    let f = fields_of(s);
    let g = decode(s).unwrap();
    let start = Placement { board: GameBoard::spec_new(), index: 0, squares: 0, ranks: 0 };
    lemma_constants();
    assert(placed_so_far(start)) by {
        assert forall|j: int| #[trigger] start.board.kinds_at(j) <= 1 by {
        }
    }
    lemma_place_all_keeps(start, f[0]);
    let placed = placement_of(f[0]).unwrap();
    let playing = active_colour_of(f[1]).unwrap();
    let castling = castling_of(f[2]).unwrap();
    let board = GameBoard { playing, castling, ..placed };
    lemma_castling_bits_bound(f[2]);
    assert(g.board.pieces_disjoint()) by {
        assert forall|j: int| #[trigger] g.board.kinds_at(j) <= 1 by {
            assert(placed.kinds_at(j) <= 1);
        }
    }
    assert(colour_on_pieces(g.board)) by {
        assert forall|j: int| #[trigger] g.board.colour.has(j) implies g.board.occupied(j) by {
            assert(placed.colour.has(j));
        }
    }
    if f[3] != seq!['-'] {
        let file = (f[3][0] as u32 - 'a' as u32) as int;
        let rank = (f[3][1] as u32 - '1' as u32) as int;
        assert(en_passant_context(board, file, rank));
        assert(en_passant_context(g.board, file, rank));
    }
}

/// Six words joined by single spaces are the six fields of the text.
proof fn lemma_six_fields(
    p: Seq<char>,
    c: Seq<char>,
    k: Seq<char>,
    e: Seq<char>,
    h: Seq<char>,
    n: Seq<char>,
)
    requires
        is_word(p),
        is_word(c),
        is_word(k),
        is_word(e),
        is_word(h),
        is_word(n),
    ensures
        fields_of(
            p + seq![' '] + c + seq![' '] + k + seq![' '] + e + seq![' '] + h + seq![' '] + n,
        ) == seq![p, c, k, e, h, n],
{
    let r4 = h + seq![' '] + n;
    let r3 = e + seq![' '] + r4;
    let r2 = k + seq![' '] + r3;
    let r1 = c + seq![' '] + r2;
    let r0 = p + seq![' '] + r1;
    assert(p + seq![' '] + c + seq![' '] + k + seq![' '] + e + seq![' '] + h + seq![' '] + n
        =~= r0);
    lemma_fields_last(n);
    lemma_fields_first(h, n);
    lemma_fields_first(e, r4);
    lemma_fields_first(k, r3);
    lemma_fields_first(c, r2);
    lemma_fields_first(p, r1);
    assert(fields_of(r0) =~= seq![p, c, k, e, h, n]);
}

/// The letter of the side to move is read back, and it is a word.
proof fn lemma_colour_round_trip(playing: bool)
    ensures
        active_colour_of(
            seq![
                if playing {
                    'w'
                } else {
                    'b'
                },
            ],
        ) == Ok::<bool, FenParseError>(playing),
        is_word(
            seq![
                if playing {
                    'w'
                } else {
                    'b'
                },
            ],
        ),
{
    let c = seq![
        if playing {
            'w'
        } else {
            'b'
        },
    ];
    assert(seq!['w'][0] == 'w');
    assert(seq!['b'][0] == 'b');
    if playing {
        assert(c =~= seq!['w']);
    } else {
        assert(c =~= seq!['b']);
        assert(c != seq!['w']);
    }
    assert(!spec_is_space(c[0]));
}

/// Six fields that are read back one by one as the parts of a position
/// are read as that position.
proof fn lemma_decode_parts(g: GameData, f: Seq<Seq<char>>)
    requires
        g.moves == spec_array_fill_for_copy_type::<PieceMove, MAX_GAME_MOVES>(
            PieceMove::spec_null(),
        ),
        g.plies % 2 == (if g.board.playing {
            0int
        } else {
            1
        }),
        placement_of(f[0]) == Ok::<GameBoard, FenParseError>(pieces_only(g.board)),
        active_colour_of(f[1]) == Ok::<bool, FenParseError>(g.board.playing),
        castling_of(f[2]) == Ok::<u8, FenParseError>(g.board.castling),
        en_passant_of(GameBoard { en_passant: PieceMove::spec_null(), ..g.board }, f[3]) == Ok::<
            PieceMove,
            FenParseError,
        >(g.board.en_passant),
        spec_parse_number(f[4]) == Some(g.halfmove_clock),
        spec_parse_number(f[5]) == Some((g.plies / 2 + 1) as usize),
    ensures
        decode_fields(f) == Ok::<GameData, FenParseError>(g),
{
    let placed = pieces_only(g.board);
    let board = GameBoard { playing: g.board.playing, castling: g.board.castling, ..placed };
    assert(board == GameBoard { en_passant: PieceMove::spec_null(), ..g.board });
    assert(GameBoard { en_passant: g.board.en_passant, ..board } == g.board);
    let fullmove = (g.plies / 2 + 1) as usize;
    assert(plies_of(fullmove as int, g.board.playing) == g.plies);
}

/// Every position that is read from text is well-formed.
pub proof fn lemma_decode_wf(s: Seq<char>)
    requires
        decode(s).is_ok(),
    ensures
        decode(s).unwrap().board.wf(),
{
    lemma_decode_as_read(s);
    let g = decode(s).unwrap();
    if g.board.en_passant != PieceMove::spec_null() {
        let (file, rank) = choose|file: int, rank: int|
            #![trigger en_passant_context(g.board, file, rank)]
            0 <= file < 8 && (rank == 2 || rank == 5) && en_passant_context(g.board, file, rank)
                && g.board.en_passant == PieceMove::spec_new(
                0,
                (rank * 8 + file) as u8,
                true,
                None,
            );
        PieceMove::lemma_spec_new(0, (rank * 8 + file) as u8, true, None);
    }
}

/// A position that is [`as_read`] is read back from its text form.
pub proof fn lemma_encode_decode(g: GameData)
    requires
        as_read(g),
    ensures
        decode(encode_fen(g)) == Ok::<GameData, FenParseError>(g),
{
    let p = placement_text(g.board, 7);
    let c = seq![
        if g.board.playing {
            'w'
        } else {
            'b'
        },
    ];
    let k = castling_text(g.board.castling);
    let e = en_passant_text(g.board.en_passant);
    let h = number_text(g.halfmove_clock as nat);
    let fullmove = (g.plies / 2 + 1) as usize;
    let n = number_text(fullmove as nat);
    let bare = GameBoard { en_passant: PieceMove::spec_null(), ..g.board };
    lemma_placement_round_trip(g.board);
    lemma_colour_round_trip(g.board.playing);
    lemma_castling_round_trip(g.board.castling);
    if g.board.en_passant == PieceMove::spec_null() {
        lemma_en_passant_round_trip_null(bare);
    } else {
        let (file, rank) = choose|file: int, rank: int|
            #![trigger en_passant_context(g.board, file, rank)]
            0 <= file < 8 && (rank == 2 || rank == 5) && en_passant_context(g.board, file, rank)
                && g.board.en_passant == PieceMove::spec_new(
                0,
                (rank * 8 + file) as u8,
                true,
                None,
            );
        assert(en_passant_context(bare, file, rank));
        lemma_en_passant_round_trip(bare, file, rank);
    }
    lemma_number_text(g.halfmove_clock as nat);
    lemma_number_text(fullmove as nat);
    lemma_parse_number_text(g.halfmove_clock);
    lemma_parse_number_text(fullmove);
    assert(is_word(h));
    assert(is_word(n));
    lemma_six_fields(p, c, k, e, h, n);
    let f = seq![p, c, k, e, h, n];
    assert(fields_of(encode_fen(g)) == f);
    assert(f[0] == p && f[1] == c && f[2] == k && f[3] == e && f[4] == h && f[5] == n);
    lemma_decode_parts(g, f);
}

/// The null en passant field is read back, and it is a word.
proof fn lemma_en_passant_round_trip_null(board: GameBoard)
    ensures
        en_passant_of(board, en_passant_text(PieceMove::spec_null())) == Ok::<
            PieceMove,
            FenParseError,
        >(PieceMove::spec_null()),
        is_word(en_passant_text(PieceMove::spec_null())),
{
    let dash = en_passant_text(PieceMove::spec_null());
    assert(dash =~= seq!['-']);
    assert(!spec_is_space(dash[0]));
}

/// Round trip: a position that was read from text, written and read again
/// is the same position.
pub proof fn lemma_round_trip(s: Seq<char>)
    requires
        decode(s).is_ok(),
    ensures
        decode(encode_fen(decode(s).unwrap())) == decode(s),
{
    lemma_decode_as_read(s);
    lemma_encode_decode(decode(s).unwrap());
}

} // verus!
