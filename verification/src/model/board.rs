//! A board as an array of 64 packed pieces, read from and written to text.
//!
//! The array runs as the text does: index 0 is a8, index 7 is h8, index 56
//! is a1 and index 63 is h1.

use crate::constants::BOARD_SIZE;
use crate::model::bitboard::BitBoard;
use crate::model::gamedata::run_text;
use crate::model::hashing::{fx_finish, fx_new, fx_state, fx_step, fx_write_u8, fx_write_usize};
use crate::model::pieces::{BLACK, Piece, PIECE_TYPE_MASK, PieceType, WHITE};
use crate::model::text::{
    chars_of, fields_of, number_text, parse_number, push_number, spec_parse_number, split_fields,
};
use vstd::array::spec_array_fill_for_copy_type;
use vstd::prelude::*;

verus! {

pub struct Board {
    pub pieces: [Piece; BOARD_SIZE],
    pub combined: BitBoard,
    pub active_white: bool,
    /// The squares of the rooks that may castle: the one on the low side
    /// of the king first, the one on the high side second.
    pub castling: [Option<u8>; 4],
    pub halfmoves: usize,
    pub fullmoves: usize,
}

/// Whether the letter is an upper-case ASCII letter.
pub open spec fn is_upper(c: char) -> bool {
    'A' <= c <= 'Z'
}

/// Whether the letter is a lower-case ASCII letter.
pub open spec fn is_lower(c: char) -> bool {
    'a' <= c <= 'z'
}

/// The letter in lower case, if it is an upper-case ASCII letter; any other
/// character as it is.
pub open spec fn to_lower(c: char) -> char {
    if is_upper(c) {
        ((c as u32 + 32) as u32) as char
    } else {
        c
    }
}

/// The piece type that a lower-case letter names.
pub open spec fn type_of_letter(c: char) -> Option<PieceType> {
    if c == 'p' {
        Some(PieceType::Pawn)
    } else if c == 'r' {
        Some(PieceType::Rook)
    } else if c == 'n' {
        Some(PieceType::Knight)
    } else if c == 'b' {
        Some(PieceType::Bishop)
    } else if c == 'q' {
        Some(PieceType::Queen)
    } else if c == 'k' {
        Some(PieceType::King)
    } else {
        None
    }
}

/// The packed piece that a letter of the piece placement stands for: white
/// for an upper-case letter, black for a lower-case one.
pub open spec fn piece_of_letter(c: char) -> Option<Piece> {
    match type_of_letter(to_lower(c)) {
        Some(piece_type) => Some(
            Piece(
                piece_type.code() | if is_upper(c) {
                    WHITE
                } else {
                    BLACK
                },
            ),
        ),
        None => None,
    }
}

/// The letter that stands for a packed piece.
pub open spec fn letter_of_piece(piece: Piece) -> char {
    let white = !piece.is_black();
    match piece.piece_type() {
        PieceType::Pawn => if white {
            'P'
        } else {
            'p'
        },
        PieceType::Knight => if white {
            'N'
        } else {
            'n'
        },
        PieceType::Bishop => if white {
            'B'
        } else {
            'b'
        },
        PieceType::Rook => if white {
            'R'
        } else {
            'r'
        },
        PieceType::Queen => if white {
            'Q'
        } else {
            'q'
        },
        _ => if white {
            'K'
        } else {
            'k'
        },
    }
}

/// The pieces and the index after one more character of the piece
/// placement: a digit from 1 to 8 passes that many squares, a piece letter
/// puts a piece on the next square, any other character is passed over.
pub open spec fn placed(pieces: Seq<Piece>, index: int, c: char) -> (Seq<Piece>, int) {
    if '1' <= c <= '8' {
        (pieces, index + (c as u32 - '0' as u32))
    } else if piece_of_letter(c).is_some() {
        (pieces.update(index, piece_of_letter(c).unwrap()), index + 1)
    } else {
        (pieces, index)
    }
}

/// The pieces after the characters of a piece placement.
pub open spec fn placed_all(pieces: Seq<Piece>, index: int, s: Seq<char>) -> Seq<Piece>
    decreases s.len(),
{
    if s.len() == 0 {
        pieces
    } else {
        placed_all(placed(pieces, index, s[0]).0, placed(pieces, index, s[0]).1, s.drop_first())
    }
}

/// Whether every piece letter of the placement falls on one of the 64
/// squares.
pub open spec fn placement_fits(index: int, s: Seq<char>) -> bool
    decreases s.len(),
{
    s.len() == 0 || ((piece_of_letter(s[0]).is_some() ==> index < 64) && placement_fits(
        placed(Seq::empty(), index, s[0]).1,
        s.drop_first(),
    ))
}

/// The index of the first king of the given colour, or 0 if there is none.
pub open spec fn king_index(pieces: Seq<Piece>, black: bool) -> int {
    first_king(pieces, black, 0)
}

/// The index of the first king of the given colour from `from` on, or 0 if
/// there is none.
pub open spec fn first_king(pieces: Seq<Piece>, black: bool, from: int) -> int
    decreases pieces.len() - from,
{
    if from < 0 || from >= pieces.len() {
        0
    } else if pieces[from].piece_type() == PieceType::King && pieces[from].is_black() == black {
        from
    } else {
        first_king(pieces, black, from + 1)
    }
}

/// Whether a white rook stands on `idx`, in the row of the king and on the
/// given side of it.
pub open spec fn is_castling_rook(pieces: Seq<Piece>, king: int, low_side: bool, idx: int)
    -> bool {
    &&& 0 <= idx < pieces.len()
    &&& pieces[idx].piece_type() == PieceType::Rook
    &&& !pieces[idx].is_black()
    &&& idx / 8 == king / 8
    &&& if low_side {
        idx < king
    } else {
        idx > king
    }
}

/// The first index from `from` on that holds a castling rook, if any.
pub open spec fn first_rook(pieces: Seq<Piece>, king: int, low_side: bool, from: int) -> Option<
    u8,
>
    decreases pieces.len() - from,
{
    if from < 0 || from >= pieces.len() {
        None
    } else if is_castling_rook(pieces, king, low_side, from) {
        Some(from as u8)
    } else {
        first_rook(pieces, king, low_side, from + 1)
    }
}

/// The castling entries after one more character of the castling field:
/// `K` or `k` looks for a white rook on the low side of the white or black
/// king and records it in the first entry, `Q` or `q` on the high side and
/// in the second; a rook that is not found and any other character change
/// nothing.
pub open spec fn castled(pieces: Seq<Piece>, castling: Seq<Option<u8>>, c: char) -> Seq<
    Option<u8>,
> {
    let king = king_index(pieces, is_lower(c));
    if c == 'K' || c == 'k' {
        match first_rook(pieces, king, true, 0) {
            Some(rook) => castling.update(0, Some(rook)),
            None => castling,
        }
    } else if c == 'Q' || c == 'q' {
        match first_rook(pieces, king, false, 0) {
            Some(rook) => castling.update(1, Some(rook)),
            None => castling,
        }
    } else {
        castling
    }
}

/// The castling entries after the characters of a castling field.
pub open spec fn castled_all(pieces: Seq<Piece>, castling: Seq<Option<u8>>, s: Seq<char>) -> Seq<
    Option<u8>,
>
    decreases s.len(),
{
    if s.len() == 0 {
        castling
    } else {
        castled_all(pieces, castled(pieces, castling, s[0]), s.drop_first())
    }
}

/// The field with the given number, or the empty text if there are fewer
/// fields.
pub open spec fn field_or_empty(f: Seq<Seq<char>>, i: int) -> Seq<char> {
    if 0 <= i < f.len() {
        f[i]
    } else {
        Seq::empty()
    }
}

/// Whether a text can be read as a board: the second field is `w` or `b`
/// and every piece letter of the first falls on the board.
pub open spec fn readable(s: Seq<char>) -> bool {
    let f = fields_of(s);
    &&& placement_fits(0, field_or_empty(f, 0))
    &&& field_or_empty(f, 1) == seq!['w'] || field_or_empty(f, 1) == seq!['b']
}

/// The number that a field stands for, or the given default if the field
/// is missing or no number.
pub open spec fn number_or(f: Seq<Seq<char>>, i: int, default: usize) -> usize {
    if 0 <= i < f.len() {
        match spec_parse_number(f[i]) {
            Some(n) => n,
            None => default,
        }
    } else {
        default
    }
}

/// Sixty-four empty squares.
pub open spec fn empty_pieces() -> [Piece; BOARD_SIZE] {
    spec_array_fill_for_copy_type::<Piece, BOARD_SIZE>(Piece(0))
}

/// No castling rook.
pub open spec fn no_castling() -> [Option<u8>; 4] {
    spec_array_fill_for_copy_type::<Option<u8>, 4>(None)
}

impl Board {
    /// The board is empty, with White to move, before the first move.
    pub open spec fn is_new(self) -> bool {
        &&& self.pieces == empty_pieces()
        &&& self.combined@ == 0
        &&& self.active_white
        &&& self.castling == no_castling()
        &&& self.halfmoves == 0
        &&& self.fullmoves == 1
    }

    /// The board that a readable text describes: the pieces of the first
    /// field, the side to move of the second, the castling rooks that the
    /// third field finds, and the counters of the fifth and sixth, which are
    /// 0 and 1 where they are missing or no numbers. The occupancy bitboard
    /// stays empty.
    pub open spec fn describes(self, s: Seq<char>) -> bool {
        let f = fields_of(s);
        let pieces = placed_all(empty_pieces()@, 0, field_or_empty(f, 0));
        &&& self.pieces@ == pieces
        &&& self.combined@ == 0
        &&& self.active_white == (field_or_empty(f, 1) == seq!['w'])
        &&& self.castling@ == castled_all(pieces, no_castling()@, field_or_empty(f, 2))
        &&& self.halfmoves == number_or(f, 4, 0)
        &&& self.fullmoves == number_or(f, 5, 1)
    }

    /// Every piece of the board has one of the seven piece types.
    pub open spec fn pieces_valid(self) -> bool {
        forall|i: int| 0 <= i < 64 ==> (#[trigger] self.pieces[i]).0 & PIECE_TYPE_MASK != 7
    }

    /// The empty board with White to move, before the first move.
    pub fn new() -> (r: Self)
        ensures
            r.is_new(),
    {
        Self {
            pieces: [Piece(0);BOARD_SIZE],
            combined: BitBoard::new(0),
            active_white: true,
            castling: [None;4],
            halfmoves: 0,
            fullmoves: 1,
        }
    }

    pub fn reset(&mut self)
        ensures
            final(self).is_new(),
    {
        *self = Self::new();
    }
}

/// The text of the pieces from index `i` on, after a run of `empty` empty
/// squares: pieces as letters, runs of empty squares as their count, and a
/// `/` after every row but the last.
pub open spec fn pieces_text(pieces: Seq<Piece>, i: int, empty: int) -> Seq<char>
    decreases 64 - i,
{
    if i >= 64 {
        run_text(empty)
    } else {
        let is_empty = pieces[i].piece_type() == PieceType::Empty;
        let written = if is_empty {
            Seq::empty()
        } else {
            run_text(empty) + seq![letter_of_piece(pieces[i])]
        };
        let run = if is_empty {
            empty + 1
        } else {
            0
        };
        if (i + 1) % 8 == 0 && i != 63 {
            written + run_text(run) + seq!['/'] + pieces_text(pieces, i + 1, 0)
        } else {
            written + pieces_text(pieces, i + 1, run)
        }
    }
}

/// The letter of one castling entry: `-` for none, `K` for a rook on a file
/// before that of the king, `Q` for any other rook.
pub open spec fn castling_letter(entry: Option<u8>, king_file: int) -> char {
    match entry {
        Some(rook) => if rook % 8 < king_file {
            'K'
        } else {
            'Q'
        },
        None => '-',
    }
}

/// The hash state after the first `n` pieces have been written to it.
pub open spec fn hashed_pieces(pieces: Seq<Piece>, n: int) -> usize
    decreases n,
{
    if n <= 0 {
        0
    } else {
        fx_step(hashed_pieces(pieces, n - 1), pieces[n - 1].0 as usize)
    }
}

impl Board {
    /// The file of the king from which the castling letters are told: the
    /// first king of the side that is not to move, or the first file if
    /// there is none.
    pub open spec fn castling_king_file(self) -> int {
        king_index(self.pieces@, self.active_white) % 8
    }

    /// The text form of the board: pieces, side to move, the four castling
    /// entries, `-` for the en passant field, and the two counters.
    pub open spec fn text(self) -> Seq<char> {
        pieces_text(self.pieces@, 0, 0) + seq![' '] + seq![
            if self.active_white {
                'w'
            } else {
                'b'
            },
        ] + seq![' '] + seq![
            castling_letter(self.castling[0], self.castling_king_file()),
            castling_letter(self.castling[1], self.castling_king_file()),
            castling_letter(self.castling[2], self.castling_king_file()),
            castling_letter(self.castling[3], self.castling_king_file()),
        ] + seq![' ', '-', ' '] + number_text(self.halfmoves as nat) + seq![' '] + number_text(
            self.fullmoves as nat,
        )
    }

    /// The hash of the board: the Fx hash of the 64 pieces, the side to
    /// move and the two counters, written in this order.
    pub open spec fn digest(self) -> u64 {
        fx_step(
            fx_step(
                fx_step(
                    hashed_pieces(self.pieces@, 64),
                    if self.active_white {
                        1usize
                    } else {
                        0usize
                    },
                ),
                self.halfmoves,
            ),
            self.fullmoves,
        ) as u64
    }

    /// The index of the first king of the given colour, or 0 if there is
    /// none.
    fn find_king_index(&self, black: bool) -> (r: usize)
        requires
            self.pieces_valid(),
        ensures
            r == king_index(self.pieces@, black),
            r < 64,
    {
        let mut i: usize = 0;
        while i < 64
            invariant
                0 <= i <= 64,
                self.pieces_valid(),
                king_index(self.pieces@, black) == first_king(self.pieces@, black, i as int),
            decreases 64 - i,
        {
            let p = self.pieces[i];
            if p.piece_type() == PieceType::King && p.is_black() == black {
                return i;
            }
            i = i + 1;
        }
        0
    }

    /// The first white rook in the row of the king on the given side of it.
    fn find_castling_rook(&self, king: usize, low_side: bool) -> (r: Option<u8>)
        requires
            self.pieces_valid(),
        ensures
            r == first_rook(self.pieces@, king as int, low_side, 0),
    {
        let mut i: usize = 0;
        while i < 64
            invariant
                0 <= i <= 64,
                self.pieces_valid(),
                first_rook(self.pieces@, king as int, low_side, 0) == first_rook(
                    self.pieces@,
                    king as int,
                    low_side,
                    i as int,
                ),
            decreases 64 - i,
        {
            let p = self.pieces[i];
            if p.piece_type() == PieceType::Rook && !p.is_black() && i / 8 == king / 8 && (if low_side {
                i < king
            } else {
                i > king
            }) {
                return Some(i as u8);
            }
            i = i + 1;
        }
        None
    }

    /// Reads a board from a readable text. Characters of the piece
    /// placement and of the castling field that mean nothing are passed
    /// over.
    pub fn from_fen(fen: &str) -> (r: Self)
        requires
            readable(fen@),
        ensures
            r.describes(fen@),
            r.pieces_valid(),
    {
        let mut board = Self::new();
        let chars = chars_of(fen);
        let fields = split_fields(&chars);
        let ghost f = fields_of(fen@);
        proof {
            assert forall|i: int| 0 <= i < 64 implies (#[trigger] board.pieces[i]).0
                & PIECE_TYPE_MASK != 7 by {
                Piece::lemma_empty();
                vstd::array::axiom_spec_array_fill_for_copy_type::<Piece, BOARD_SIZE>(Piece(0));
            }
        }
        if fields.len() > 0 {
            board.place_pieces(&fields[0]);
        }
        proof {
            assert(field_or_empty(f, 0).len() == 0 ==> placed_all(
                empty_pieces()@,
                0,
                field_or_empty(f, 0),
            ) == empty_pieces()@);
        }
        board.active_white = fields.len() > 1 && fields[1].len() == 1 && fields[1][0] == 'w';
        proof {
            let colour = field_or_empty(f, 1);
            assert(seq!['w'][0] == 'w' && seq!['b'][0] == 'b');
            if board.active_white {
                assert(colour =~= seq!['w']);
            } else {
                assert(colour != seq!['w']);
            }
        }
        if fields.len() > 2 {
            board.find_castling(&fields[2]);
        }
        proof {
            assert(field_or_empty(f, 2).len() == 0 ==> castled_all(
                board.pieces@,
                no_castling()@,
                field_or_empty(f, 2),
            ) == no_castling()@);
        }
        board.halfmoves = if fields.len() > 4 {
            match parse_number(&fields[4]) {
                Some(n) => n,
                None => 0,
            }
        } else {
            0
        };
        board.fullmoves = if fields.len() > 5 {
            match parse_number(&fields[5]) {
                Some(n) => n,
                None => 1,
            }
        } else {
            1
        };
        board
    }

    /// Puts the pieces of a piece placement on the empty board.
    fn place_pieces(&mut self, s: &Vec<char>)
        requires
            old(self).is_new(),
            old(self).pieces_valid(),
            placement_fits(0, s@),
        ensures
            final(self).pieces@ == placed_all(empty_pieces()@, 0, s@),
            final(self).pieces_valid(),
            final(self).combined == old(self).combined,
            final(self).active_white == old(self).active_white,
            final(self).castling == old(self).castling,
            final(self).halfmoves == old(self).halfmoves,
            final(self).fullmoves == old(self).fullmoves,
    {
        let n = s.len();
        // The index stops at a bound past which only its being too large
        // matters.
        let mut index: usize = 0;
        let ghost mut at: int = 0;
        let mut k: usize = 0;
        proof {
            assert(s@.subrange(0, n as int) =~= s@);
        }
        while k < n
            invariant
                n == s.len(),
                0 <= k <= n,
                0 <= at,
                index == (if at < 72 {
                    at
                } else {
                    72
                }),
                placement_fits(at, s@.subrange(k as int, n as int)),
                placed_all(empty_pieces()@, 0, s@) == placed_all(
                    self.pieces@,
                    at,
                    s@.subrange(k as int, n as int),
                ),
                self.pieces_valid(),
                self.combined == old(self).combined,
                self.active_white == old(self).active_white,
                self.castling == old(self).castling,
                self.halfmoves == old(self).halfmoves,
                self.fullmoves == old(self).fullmoves,
            decreases n - k,
        {
            let c = s[k];
            let ghost rest = s@.subrange(k as int, n as int);
            proof {
                assert(rest[0] == c);
                assert(rest.drop_first() =~= s@.subrange(k + 1, n as int));
            }
            let upper = 'A' <= c && c <= 'Z';
            let colour = if upper {
                WHITE
            } else {
                BLACK
            };
            let lc: char = if upper {
                ((c as u32 + 32) as u8) as char
            } else {
                c
            };
            let piece_type = if lc == 'p' {
                Some(PieceType::Pawn)
            } else if lc == 'r' {
                Some(PieceType::Rook)
            } else if lc == 'n' {
                Some(PieceType::Knight)
            } else if lc == 'b' {
                Some(PieceType::Bishop)
            } else if lc == 'q' {
                Some(PieceType::Queen)
            } else if lc == 'k' {
                Some(PieceType::King)
            } else {
                None
            };
            proof {
                assert(lc == to_lower(c));
                assert(piece_type == type_of_letter(to_lower(c)));
            }
            if '1' <= c && c <= '8' {
                let step = (c as u32 - '0' as u32) as usize;
                index = if index + step < 72 {
                    index + step
                } else {
                    72
                };
                proof {
                    at = at + step;
                }
            } else {
                match piece_type {
                    Some(pt) => {
                        self.pieces[index] = Piece::new(pt, colour);
                        index = index + 1;
                        proof {
                            at = at + 1;
                        }
                    },
                    None => {},
                }
            }
            k = k + 1;
        }
        proof {
            assert(s@.subrange(n as int, n as int) =~= Seq::<char>::empty());
        }
    }

    /// Records the castling rooks that a castling field finds.
    fn find_castling(&mut self, s: &Vec<char>)
        requires
            old(self).pieces_valid(),
            old(self).castling == no_castling(),
        ensures
            final(self).castling@ == castled_all(old(self).pieces@, no_castling()@, s@),
            final(self).pieces == old(self).pieces,
            final(self).combined == old(self).combined,
            final(self).active_white == old(self).active_white,
            final(self).halfmoves == old(self).halfmoves,
            final(self).fullmoves == old(self).fullmoves,
    {
        let n = s.len();
        let mut k: usize = 0;
        proof {
            assert(s@.subrange(0, n as int) =~= s@);
        }
        while k < n
            invariant
                n == s.len(),
                0 <= k <= n,
                self.pieces_valid(),
                castled_all(self.pieces@, no_castling()@, s@) == castled_all(
                    self.pieces@,
                    self.castling@,
                    s@.subrange(k as int, n as int),
                ),
                self.pieces == old(self).pieces,
                self.combined == old(self).combined,
                self.active_white == old(self).active_white,
                self.halfmoves == old(self).halfmoves,
                self.fullmoves == old(self).fullmoves,
            decreases n - k,
        {
            let c = s[k];
            let ghost rest = s@.subrange(k as int, n as int);
            proof {
                assert(rest[0] == c);
                assert(rest.drop_first() =~= s@.subrange(k + 1, n as int));
            }
            if c == 'K' || c == 'k' {
                let king = self.find_king_index('a' <= c && c <= 'z');
                match self.find_castling_rook(king, true) {
                    Some(rook) => {
                        self.castling[0] = Some(rook);
                    },
                    None => {},
                }
            } else if c == 'Q' || c == 'q' {
                let king = self.find_king_index('a' <= c && c <= 'z');
                match self.find_castling_rook(king, false) {
                    Some(rook) => {
                        self.castling[1] = Some(rook);
                    },
                    None => {},
                }
            }
            k = k + 1;
        }
        proof {
            assert(s@.subrange(n as int, n as int) =~= Seq::<char>::empty());
        }
    }

    /// Writes the board in its text form.
    pub fn to_fen(&self) -> (fen: String)
        requires
            self.pieces_valid(),
        ensures
            fen@ == self.text(),
    {
        let mut fen = String::new();
        let mut empty_count: usize = 0;
        let mut i: usize = 0;
        proof {
            assert(fen@ + pieces_text(self.pieces@, 0, 0) =~= pieces_text(self.pieces@, 0, 0));
        }
        while i < 64
            invariant
                0 <= i <= 64,
                0 <= empty_count <= i,
                self.pieces_valid(),
                fen@ + pieces_text(self.pieces@, i as int, empty_count as int) == pieces_text(
                    self.pieces@,
                    0,
                    0,
                ),
            decreases 64 - i,
        {
            let ghost before = fen@;
            let ghost run0 = empty_count as int;
            let piece = self.pieces[i];
            if piece.piece_type() == PieceType::Empty {
                empty_count = empty_count + 1;
            } else {
                if empty_count > 0 {
                    push_number(&mut fen, empty_count);
                    empty_count = 0;
                }
                fen.push(piece_letter(piece));
            }
            let ghost written = fen@;
            let ghost run1 = empty_count as int;
            if (i + 1) % 8 == 0 && i != 63 {
                if empty_count > 0 {
                    push_number(&mut fen, empty_count);
                    empty_count = 0;
                }
                fen.push('/');
                proof {
                    let w = if piece.piece_type() == PieceType::Empty {
                        Seq::<char>::empty()
                    } else {
                        run_text(run0) + seq![letter_of_piece(piece)]
                    };
                    assert(written =~= before + w);
                    assert(fen@ =~= before + (w + run_text(run1) + seq!['/']));
                    assert(fen@ + pieces_text(self.pieces@, i + 1, 0) =~= before + (w + run_text(
                        run1,
                    ) + seq!['/'] + pieces_text(self.pieces@, i + 1, 0)));
                }
            } else {
                proof {
                    let w = if piece.piece_type() == PieceType::Empty {
                        Seq::<char>::empty()
                    } else {
                        run_text(run0) + seq![letter_of_piece(piece)]
                    };
                    assert(fen@ =~= before + w);
                    assert(fen@ + pieces_text(self.pieces@, i + 1, run1) =~= before + (w
                        + pieces_text(self.pieces@, i + 1, run1)));
                }
            }
            i = i + 1;
        }
        let ghost before = fen@;
        if empty_count > 0 {
            push_number(&mut fen, empty_count);
        }
        proof {
            assert(fen@ =~= before + run_text(empty_count as int));
        }
        fen.push(' ');
        fen.push(
            if self.active_white {
                'w'
            } else {
                'b'
            },
        );
        fen.push(' ');
        let king_x = self.find_king_index(self.active_white) % 8;
        let mut j: usize = 0;
        let ghost before_castling = fen@;
        while j < 4
            invariant
                0 <= j <= 4,
                king_x == self.castling_king_file(),
                fen@ == before_castling + Seq::new(
                    j as nat,
                    |k: int| castling_letter(self.castling[k], king_x as int),
                ),
            decreases 4 - j,
        {
            let letter = match self.castling[j] {
                Some(rook_index) => {
                    let rook_x = (rook_index % 8) as usize;
                    if rook_x < king_x {
                        'K'
                    } else {
                        'Q'
                    }
                },
                None => '-',
            };
            fen.push(letter);
            j = j + 1;
            proof {
                assert(fen@ =~= before_castling + Seq::new(
                    j as nat,
                    |k: int| castling_letter(self.castling[k], king_x as int),
                ));
            }
        }
        proof {
            assert(Seq::new(4, |k: int| castling_letter(self.castling[k], king_x as int)) =~= seq![
                castling_letter(self.castling[0], self.castling_king_file()),
                castling_letter(self.castling[1], self.castling_king_file()),
                castling_letter(self.castling[2], self.castling_king_file()),
                castling_letter(self.castling[3], self.castling_king_file()),
            ]);
        }
        fen.push(' ');
        fen.push('-');
        fen.push(' ');
        push_number(&mut fen, self.halfmoves);
        fen.push(' ');
        push_number(&mut fen, self.fullmoves);
        proof {
            assert(fen@ =~= self.text());
        }
        fen
    }

    /// The Fx hash of the board.
    pub fn get_hash(&self) -> (hash: u64)
        ensures
            hash == self.digest(),
    {
        let mut state = fx_new();
        let mut i: usize = 0;
        while i < 64
            invariant
                0 <= i <= 64,
                fx_state(state) == hashed_pieces(self.pieces@, i as int),
            decreases 64 - i,
        {
            fx_write_u8(&mut state, self.pieces[i].0);
            i = i + 1;
        }
        fx_write_u8(
            &mut state,
            if self.active_white {
                1
            } else {
                0
            },
        );
        fx_write_usize(&mut state, self.halfmoves);
        fx_write_usize(&mut state, self.fullmoves);
        fx_finish(&state)
    }
}

/// The letter that stands for a packed piece that is not empty.
fn piece_letter(piece: Piece) -> (r: char)
    requires
        piece.0 & PIECE_TYPE_MASK != 7,
    ensures
        r == letter_of_piece(piece),
{
    let white = !piece.is_black();
    match piece.piece_type() {
        PieceType::Pawn => if white {
            'P'
        } else {
            'p'
        },
        PieceType::Knight => if white {
            'N'
        } else {
            'n'
        },
        PieceType::Bishop => if white {
            'B'
        } else {
            'b'
        },
        PieceType::Rook => if white {
            'R'
        } else {
            'r'
        },
        PieceType::Queen => if white {
            'Q'
        } else {
            'q'
        },
        _ => if white {
            'K'
        } else {
            'k'
        },
    }
}

impl Default for Board {
    fn default() -> (r: Self)
        ensures
            r.is_new(),
    {
        Self::new()
    }
}

} // verus!
