//! A position with its move history and counters, and its text form (FEN):
//! six whitespace-separated fields for piece placement, side to move,
//! castling availability, en passant target, halfmove clock and fullmove
//! number.

use crate::errors::FenParseError;
use crate::model::gameboard::{GameBoard, PieceType};
use crate::model::piecemove::PieceMove;
use crate::model::text::{
    chars_of, fields_of, number_text, parse_number, push_number, spec_parse_number, split_fields,
};
use vstd::array::spec_array_fill_for_copy_type;
use vstd::prelude::*;

verus! {

pub const MAX_GAME_MOVES: usize = 1024;

#[derive(Clone, Copy, Debug)]
pub struct GameData {
    pub board: GameBoard,
    /// The move history. Making a move does not fill it: the caller does.
    pub moves: [PieceMove; MAX_GAME_MOVES],
    /// The number of half-moves played since the start of the game.
    pub plies: usize,
    /// The number of half-moves since the last capture or pawn move.
    pub halfmove_clock: usize,
}

impl Default for GameData {
    /// The empty position with White to move, before the first move.
    fn default() -> (r: Self)
        ensures
            r.board == GameBoard::spec_new(),
            r.moves == spec_array_fill_for_copy_type::<PieceMove, MAX_GAME_MOVES>(
                PieceMove::spec_null(),
            ),
            r.plies == 0,
            r.halfmove_clock == 0,
    {
        Self {
            board: GameBoard::new(),
            moves: [PieceMove::null();MAX_GAME_MOVES],
            plies: 0,
            halfmove_clock: 0,
        }
    }
}

/// Where the reading of a piece placement stands: the board so far, the
/// number of squares passed in all, the number of squares passed in the
/// current rank and the number of ranks closed by a `/`.
pub struct Placement {
    pub board: GameBoard,
    pub index: int,
    pub squares: int,
    pub ranks: int,
}

/// The piece type and colour that a letter of the piece placement stands
/// for: upper case for White, lower case for Black.
pub open spec fn piece_of_char(c: char) -> Option<(PieceType, bool)> {
    if c == 'P' {
        Some((PieceType::Pawn, true))
    } else if c == 'p' {
        Some((PieceType::Pawn, false))
    } else if c == 'N' {
        Some((PieceType::Knight, true))
    } else if c == 'n' {
        Some((PieceType::Knight, false))
    } else if c == 'B' {
        Some((PieceType::Bishop, true))
    } else if c == 'b' {
        Some((PieceType::Bishop, false))
    } else if c == 'R' {
        Some((PieceType::Rook, true))
    } else if c == 'r' {
        Some((PieceType::Rook, false))
    } else if c == 'Q' {
        Some((PieceType::Queen, true))
    } else if c == 'q' {
        Some((PieceType::Queen, false))
    } else if c == 'K' {
        Some((PieceType::King, true))
    } else if c == 'k' {
        Some((PieceType::King, false))
    } else {
        None
    }
}

/// The letter that stands for a piece of the given type and colour.
pub open spec fn char_of_piece(piece: PieceType, white: bool) -> char {
    match piece {
        PieceType::Pawn => if white {
            'P'
        } else {
            'p'
        },
        PieceType::Knight => if white {
            'N'
        } else {
            'n'
        },
        PieceType::Bishop => if white {
            'B'
        } else {
            'b'
        },
        PieceType::Rook => if white {
            'R'
        } else {
            'r'
        },
        PieceType::Queen => if white {
            'Q'
        } else {
            'q'
        },
        PieceType::King => if white {
            'K'
        } else {
            'k'
        },
    }
}

/// The square that the `index`-th square of a piece placement stands for:
/// the text runs from rank 8 down to rank 1 and from file a to file h.
pub open spec fn placement_square(index: int) -> int {
    (7 - index / 8) * 8 + index % 8
}

/// The board with a piece of the given type and colour added on `sq`.
pub open spec fn with_piece(board: GameBoard, sq: int, piece: PieceType, white: bool) -> GameBoard {
    let colour = if white {
        board.colour.with(sq)
    } else {
        board.colour.without(sq)
    };
    match piece {
        PieceType::Pawn => GameBoard { pawns: board.pawns.with(sq), colour, ..board },
        PieceType::Knight => GameBoard { knights: board.knights.with(sq), colour, ..board },
        PieceType::Bishop => GameBoard { bishops: board.bishops.with(sq), colour, ..board },
        PieceType::Rook => GameBoard { rooks: board.rooks.with(sq), colour, ..board },
        PieceType::Queen => GameBoard { queens: board.queens.with(sq), colour, ..board },
        PieceType::King => GameBoard { kings: board.kings.with(sq), colour, ..board },
    }
}

/// One character of the piece placement: a digit passes that many empty
/// squares, a letter puts a piece on the next square, a `/` closes a rank of
/// exactly eight squares. A letter after all 64 squares has no square to
/// stand on: it is rejected for the length of its rank if that rank holds
/// eight squares already, and for the number of ranks if it opens a rank
/// after the eighth. Any other character is rejected.
pub open spec fn place_char(st: Placement, c: char) -> Result<Placement, FenParseError> {
    if '1' <= c <= '8' {
        let d = c as u32 - '0' as u32;
        Ok(Placement { index: st.index + d, squares: st.squares + d, ..st })
    } else if piece_of_char(c).is_some() {
        let (piece, white) = piece_of_char(c).unwrap();
        if st.index >= 64 {
            if st.squares >= 8 {
                Err(FenParseError::InvalidRankLength)
            } else {
                Err(FenParseError::InvalidRankCount)
            }
        } else {
            Ok(
                Placement {
                    board: with_piece(st.board, placement_square(st.index), piece, white),
                    index: st.index + 1,
                    squares: st.squares + 1,
                    ..st
                },
            )
        }
    } else if c == '/' {
        if st.squares != 8 {
            Err(FenParseError::InvalidRankLength)
        } else {
            Ok(Placement { squares: 0, ranks: st.ranks + 1, ..st })
        }
    } else {
        Err(FenParseError::UnexpectedCharacter)
    }
}

/// The characters of a piece placement, read from left to right up to the
/// first that is rejected.
pub open spec fn place_all(st: Placement, s: Seq<char>) -> Result<Placement, FenParseError>
    decreases s.len(),
{
    if s.len() == 0 {
        Ok(st)
    } else {
        match place_char(st, s[0]) {
            Ok(next) => place_all(next, s.drop_first()),
            Err(e) => Err(e),
        }
    }
}

/// The board that a piece placement describes: eight ranks of exactly eight
/// squares each.
pub open spec fn placement_of(s: Seq<char>) -> Result<GameBoard, FenParseError> {
    match place_all(
        Placement { board: GameBoard::spec_new(), index: 0, squares: 0, ranks: 0 },
        s,
    ) {
        Err(e) => Err(e),
        Ok(st) => if st.ranks != 7 {
            Err(FenParseError::InvalidRankCount)
        } else if st.squares != 8 {
            Err(FenParseError::InvalidRankLength)
        } else {
            Ok(st.board)
        },
    }
}

/// The side to move that the second field names: `w` or `b`.
pub open spec fn active_colour_of(s: Seq<char>) -> Result<bool, FenParseError> {
    if s == seq!['w'] {
        Ok(true)
    } else if s == seq!['b'] {
        Ok(false)
    } else {
        Err(FenParseError::InvalidActiveColor)
    }
}

/// The number of bytes that a character takes in UTF-8.
pub open spec fn utf8_len(c: char) -> int {
    let u = c as u32;
    if u < 0x80 {
        1
    } else if u < 0x800 {
        2
    } else if u < 0x10000 {
        3
    } else {
        4
    }
}

/// The number of bytes that a text takes in UTF-8.
pub open spec fn utf8_size(s: Seq<char>) -> int
    decreases s.len(),
{
    if s.len() == 0 {
        0
    } else {
        utf8_size(s.drop_last()) + utf8_len(s.last())
    }
}

/// The castling right that a character of the third field names; nothing
/// for `-`.
pub open spec fn castling_flag(c: char) -> Option<u8> {
    if c == 'K' {
        Some(0b0001u8)
    } else if c == 'Q' {
        Some(0b0010u8)
    } else if c == 'k' {
        Some(0b0100u8)
    } else if c == 'q' {
        Some(0b1000u8)
    } else if c == '-' {
        Some(0u8)
    } else {
        None
    }
}

/// The union of the castling rights that the characters name.
pub open spec fn castling_bits(s: Seq<char>) -> u8
    decreases s.len(),
{
    if s.len() == 0 {
        0
    } else {
        castling_bits(s.drop_last()) | castling_flag(s.last()).unwrap_or(0)
    }
}

/// The castling rights that the third field names: at most four bytes of
/// `K`, `Q`, `k`, `q` and `-`.
pub open spec fn castling_of(s: Seq<char>) -> Result<u8, FenParseError> {
    if utf8_size(s) > 4 {
        Err(FenParseError::InvalidCastling)
    } else if exists|i: int| 0 <= i < s.len() && castling_flag(#[trigger] s[i]).is_none() {
        Err(FenParseError::InvalidCastlingChar)
    } else {
        Ok(castling_bits(s))
    }
}

/// An en passant target fits the board: it lies on the sixth rank with
/// White to move, on the third with Black to move; the square is empty;
/// behind it, as the side to move sees it, stands a pawn of the other side;
/// and next to that pawn stands a pawn of the side to move.
pub open spec fn en_passant_context(board: GameBoard, file: int, rank: int) -> bool {
    let victim_rank = if board.playing {
        rank - 1
    } else {
        rank + 1
    };
    let victim = victim_rank * 8 + file;
    &&& rank == (if board.playing {
        5int
    } else {
        2
    })
    &&& board.pawns.has(victim) && board.colour.has(victim) != board.playing
    &&& (file > 0 && board.pawns.has(victim - 1) && board.colour.has(victim - 1) == board.playing)
        || (file < 7 && board.pawns.has(victim + 1) && board.colour.has(victim + 1)
        == board.playing)
    &&& !board.occupied(rank * 8 + file)
}

/// The en passant field of the position that the fourth field names: the
/// null move for `-`, else a move onto the named square of the third or
/// sixth rank, which must fit the board.
pub open spec fn en_passant_of(board: GameBoard, s: Seq<char>) -> Result<PieceMove, FenParseError> {
    if s == seq!['-'] {
        Ok(PieceMove::spec_null())
    } else if s.len() == 2 && 'a' <= s[0] <= 'h' && '1' <= s[1] <= '8' {
        let file = s[0] as u32 - 'a' as u32;
        let rank = s[1] as u32 - '1' as u32;
        if rank != 2 && rank != 5 {
            Err(FenParseError::InvalidEnPassantSquare)
        } else if !en_passant_context(board, file as int, rank as int) {
            Err(FenParseError::InvalidEnPassantContext)
        } else {
            Ok(PieceMove::spec_new(0, (rank * 8 + file) as u8, true, None))
        }
    } else {
        Err(FenParseError::InvalidEnPassantSquare)
    }
}

/// The number of half-moves played before a position with the given
/// fullmove number and side to move.
pub open spec fn plies_of(fullmove: int, white_to_move: bool) -> int {
    (fullmove - 1) * 2 + if white_to_move {
        0int
    } else {
        1
    }
}

/// The position that six fields describe, or the reason for which the first
/// field that is not in order is rejected.
pub open spec fn decode_fields(f: Seq<Seq<char>>) -> Result<GameData, FenParseError> {
    match placement_of(f[0]) {
        Err(e) => Err(e),
        Ok(placed) => match active_colour_of(f[1]) {
            Err(e) => Err(e),
            Ok(playing) => match castling_of(f[2]) {
                Err(e) => Err(e),
                Ok(castling) => {
                    let board = GameBoard { playing, castling, ..placed };
                    match en_passant_of(board, f[3]) {
                        Err(e) => Err(e),
                        Ok(en_passant) => match spec_parse_number(f[4]) {
                            None => Err(FenParseError::ExpectedNumber),
                            Some(clock) => match spec_parse_number(f[5]) {
                                None => Err(FenParseError::ExpectedNumber),
                                Some(fullmove) => if fullmove == 0 || plies_of(
                                    fullmove as int,
                                    playing,
                                ) > usize::MAX {
                                    Err(FenParseError::InvalidFullmoveNumber)
                                } else {
                                    Ok(
                                        GameData {
                                            board: GameBoard { en_passant, ..board },
                                            moves: spec_array_fill_for_copy_type(
                                                PieceMove::spec_null(),
                                            ),
                                            plies: plies_of(fullmove as int, playing) as usize,
                                            halfmove_clock: clock,
                                        },
                                    )
                                },
                            },
                        },
                    }
                },
            },
        },
    }
}

/// The position that a text describes: the text must consist of exactly six
/// fields, each in order.
pub open spec fn decode(s: Seq<char>) -> Result<GameData, FenParseError> {
    if fields_of(s).len() != 6 {
        Err(FenParseError::MalformedFen)
    } else {
        decode_fields(fields_of(s))
    }
}

/// The letter that stands for what is on `sq`, if anything is.
pub open spec fn piece_char_at(board: GameBoard, sq: int) -> Option<char> {
    match board.piece_at(sq) {
        Some(piece) => Some(char_of_piece(piece, board.colour.has(sq))),
        None => None,
    }
}

/// The figurine that stands for a piece of the given type with the colour
/// bit `white`.
pub open spec fn icon_of_piece(piece: PieceType, white: bool) -> char {
    match piece {
        PieceType::Pawn => if white {
            '\u{265F}'
        } else {
            '\u{2659}'
        },
        PieceType::Knight => if white {
            '\u{265E}'
        } else {
            '\u{2658}'
        },
        PieceType::Bishop => if white {
            '\u{265D}'
        } else {
            '\u{2657}'
        },
        PieceType::Rook => if white {
            '\u{265C}'
        } else {
            '\u{2656}'
        },
        PieceType::Queen => if white {
            '\u{265B}'
        } else {
            '\u{2655}'
        },
        PieceType::King => if white {
            '\u{265A}'
        } else {
            '\u{2654}'
        },
    }
}

/// The count of a run of empty squares, written only if the run is not
/// empty.
pub open spec fn run_text(empty: int) -> Seq<char> {
    if empty > 0 {
        number_text(empty as nat)
    } else {
        Seq::empty()
    }
}

/// The text of one rank from file `file` on, after a run of `empty` empty
/// squares: pieces as letters, runs of empty squares as their count.
pub open spec fn rank_text(board: GameBoard, rank: int, file: int, empty: int) -> Seq<char>
    decreases 8 - file,
{
    if file >= 8 {
        run_text(empty)
    } else {
        match piece_char_at(board, rank * 8 + file) {
            Some(c) => run_text(empty) + seq![c] + rank_text(board, rank, file + 1, 0),
            None => rank_text(board, rank, file + 1, empty + 1),
        }
    }
}

/// The piece placement from rank `rank` down to the first rank, with `/`
/// between the ranks.
pub open spec fn placement_text(board: GameBoard, rank: int) -> Seq<char>
    decreases rank,
{
    if rank <= 0 {
        rank_text(board, 0, 0, 0)
    } else {
        rank_text(board, rank, 0, 0) + seq!['/'] + placement_text(board, rank - 1)
    }
}

/// The castling field: the letters of the rights held in the order `KQkq`,
/// or `-` if none is held.
pub open spec fn castling_text(castling: u8) -> Seq<char> {
    let held = (if castling & 0b0001 != 0 {
        seq!['K']
    } else {
        Seq::empty()
    }) + (if castling & 0b0010 != 0 {
        seq!['Q']
    } else {
        Seq::empty()
    }) + (if castling & 0b0100 != 0 {
        seq!['k']
    } else {
        Seq::empty()
    }) + (if castling & 0b1000 != 0 {
        seq!['q']
    } else {
        Seq::empty()
    });
    if held.len() == 0 {
        seq!['-']
    } else {
        held
    }
}

/// The en passant field: `-` for the null move, else the destination in
/// algebraic notation.
pub open spec fn en_passant_text(m: PieceMove) -> Seq<char> {
    if m == PieceMove::spec_null() {
        seq!['-']
    } else {
        seq![
            (('a' as u32 + m.to_square() % 8) as u32) as char,
            (('1' as u32 + m.to_square() / 8) as u32) as char,
        ]
    }
}

/// The text form of a position.
pub open spec fn encode_fen(g: GameData) -> Seq<char> {
    placement_text(g.board, 7) + seq![' '] + seq![
        if g.board.playing {
            'w'
        } else {
            'b'
        },
    ] + seq![' '] + castling_text(g.board.castling) + seq![' '] + en_passant_text(
        g.board.en_passant,
    ) + seq![' '] + number_text(g.halfmove_clock as nat) + seq![' '] + number_text(
        (g.plies / 2 + 1) as nat,
    )
}

fn parse_placement(s: &Vec<char>) -> (r: Result<GameBoard, FenParseError>)
    ensures
        r == placement_of(s@),
{
    let mut board = GameBoard::new();
    // All counters stop at a bound past which only their being too large
    // matters.
    let mut index: usize = 0;
    let mut squares: usize = 0;
    let mut ranks: usize = 0;
    let n = s.len();
    let mut k: usize = 0;
    let ghost start = Placement { board: GameBoard::spec_new(), index: 0, squares: 0, ranks: 0 };
    let ghost mut st = start;
    proof {
        assert(s@.subrange(0, n as int) =~= s@);
    }
    while k < n
        invariant
            n == s.len(),
            0 <= k <= n,
            start == (Placement { board: GameBoard::spec_new(), index: 0, squares: 0, ranks: 0 }),
            place_all(start, s@) == place_all(st, s@.subrange(k as int, n as int)),
            st.board == board,
            0 <= st.index,
            0 <= st.squares,
            index == (if st.index < 72 {
                st.index
            } else {
                72
            }),
            squares == (if st.squares < 16 {
                st.squares
            } else {
                16
            }),
            ranks == st.ranks,
            0 <= ranks <= k,
        decreases n - k,
    {
        let c = s[k];
        let ghost rest = s@.subrange(k as int, n as int);
        proof {
            assert(rest[0] == c);
            assert(rest.drop_first() =~= s@.subrange(k + 1, n as int));
        }
        if '1' <= c && c <= '8' {
            let empty_squares = (c as u32 - '0' as u32) as usize;
            index = if index + empty_squares < 72 {
                index + empty_squares
            } else {
                72
            };
            squares = if squares + empty_squares < 16 {
                squares + empty_squares
            } else {
                16
            };
            proof {
                assert(place_char(st, c).is_ok());
                st = place_char(st, c).unwrap();
            }
        } else if c == 'P' || c == 'p' || c == 'N' || c == 'n' || c == 'B' || c == 'b' || c == 'R'
            || c == 'r' || c == 'Q' || c == 'q' || c == 'K' || c == 'k' {
            if index >= 64 {
                let reason = if squares >= 8 {
                    FenParseError::InvalidRankLength
                } else {
                    FenParseError::InvalidRankCount
                };
                proof {
                    assert(piece_of_char(c).is_some());
                    assert(place_char(st, c) == Err::<Placement, FenParseError>(reason));
                }
                return Err(reason);
            }
            // The text runs from rank 8 down to rank 1; square 0 is a1.
            let rank = 7 - (index / 8);
            let file = index % 8;
            let square_index = (rank * 8 + file) as u8;
            let is_white = c == 'P' || c == 'N' || c == 'B' || c == 'R' || c == 'Q' || c == 'K';
            if c == 'P' || c == 'p' {
                board.pawns.set_bit(square_index);
            } else if c == 'N' || c == 'n' {
                board.knights.set_bit(square_index);
            } else if c == 'B' || c == 'b' {
                board.bishops.set_bit(square_index);
            } else if c == 'R' || c == 'r' {
                board.rooks.set_bit(square_index);
            } else if c == 'Q' || c == 'q' {
                board.queens.set_bit(square_index);
            } else {
                board.kings.set_bit(square_index);
            }
            if is_white {
                board.colour.set_bit(square_index);
            } else {
                board.colour.unset_bit(square_index);
            }
            index = index + 1;
            squares = if squares + 1 < 16 {
                squares + 1
            } else {
                16
            };
            proof {
                assert(piece_of_char(c).is_some());
                assert(place_char(st, c).is_ok());
                st = place_char(st, c).unwrap();
                assert(st.board == board);
            }
        } else if c == '/' {
            if squares != 8 {
                proof {
                    assert(piece_of_char(c).is_none());
                    assert(place_char(st, c) == Err::<Placement, FenParseError>(
                        FenParseError::InvalidRankLength,
                    ));
                }
                return Err(FenParseError::InvalidRankLength);
            }
            squares = 0;
            ranks = ranks + 1;
            proof {
                assert(piece_of_char(c).is_none());
                assert(place_char(st, c).is_ok());
                st = place_char(st, c).unwrap();
            }
        } else {
            proof {
                assert(piece_of_char(c).is_none());
                assert(place_char(st, c) == Err::<Placement, FenParseError>(
                    FenParseError::UnexpectedCharacter,
                ));
            }
            return Err(FenParseError::UnexpectedCharacter);
        }
        k = k + 1;
    }
    proof {
        assert(s@.subrange(n as int, n as int) =~= Seq::<char>::empty());
    }
    if ranks != 7 {
        return Err(FenParseError::InvalidRankCount);
    }
    if squares != 8 {
        return Err(FenParseError::InvalidRankLength);
    }
    Ok(board)
}

fn parse_active_colour(s: &Vec<char>) -> (r: Result<bool, FenParseError>)
    ensures
        r == active_colour_of(s@),
{
    if s.len() == 1 && s[0] == 'w' {
        proof {
            assert(s@ =~= seq!['w']);
        }
        Ok(true)
    } else if s.len() == 1 && s[0] == 'b' {
        proof {
            assert(s@ =~= seq!['b']);
        }
        Ok(false)
    } else {
        proof {
            if s@ == seq!['w'] {
                assert(s@.len() == 1 && s@[0] == 'w');
            }
            if s@ == seq!['b'] {
                assert(s@.len() == 1 && s@[0] == 'b');
            }
        }
        Err(FenParseError::InvalidActiveColor)
    }
}

proof fn lemma_utf8_size_prefix(s: Seq<char>, k: int)
    requires
        0 <= k <= s.len(),
    ensures
        k <= utf8_size(s.subrange(0, k)) <= utf8_size(s),
    decreases s.len() - k,
{
    if k < s.len() {
        lemma_utf8_size_prefix(s, k + 1);
        assert(s.subrange(0, k + 1).drop_last() =~= s.subrange(0, k));
    } else {
        assert(s.subrange(0, k) =~= s);
    }
    lemma_utf8_size_min(s.subrange(0, k));
}

proof fn lemma_utf8_size_min(s: Seq<char>)
    ensures
        s.len() <= utf8_size(s),
    decreases s.len(),
{
    if s.len() > 0 {
        lemma_utf8_size_min(s.drop_last());
    }
}

fn parse_castling(s: &Vec<char>) -> (r: Result<u8, FenParseError>)
    ensures
        r == castling_of(s@),
{
    let n = s.len();
    // The length of the field in bytes, counted up to one past the limit.
    let mut size: usize = 0;
    let mut k: usize = 0;
    while k < n && size <= 4
        invariant
            n == s.len(),
            0 <= k <= n,
            size == utf8_size(s@.subrange(0, k as int)),
            size <= 8,
        decreases n - k,
    {
        let u = s[k] as u32;
        let len: usize = if u < 0x80 {
            1
        } else if u < 0x800 {
            2
        } else if u < 0x10000 {
            3
        } else {
            4
        };
        proof {
            assert(s@.subrange(0, k + 1).drop_last() =~= s@.subrange(0, k as int));
        }
        size = size + len;
        k = k + 1;
    }
    proof {
        lemma_utf8_size_prefix(s@, k as int);
        if k == n {
            assert(s@.subrange(0, n as int) =~= s@);
        }
    }
    if size > 4 {
        return Err(FenParseError::InvalidCastling);
    }
    let mut castling: u8 = 0;
    let mut i: usize = 0;
    while i < n
        invariant
            n == s.len(),
            0 <= i <= n,
            utf8_size(s@) <= 4,
            castling == castling_bits(s@.subrange(0, i as int)),
            forall|j: int| 0 <= j < i ==> castling_flag(#[trigger] s@[j]).is_some(),
        decreases n - i,
    {
        let c = s[i];
        proof {
            assert(s@.subrange(0, i + 1).drop_last() =~= s@.subrange(0, i as int));
            assert(castling | 0u8 == castling) by (bit_vector);
        }
        if c == 'K' {
            castling = castling | 0b0001;
        } else if c == 'Q' {
            castling = castling | 0b0010;
        } else if c == 'k' {
            castling = castling | 0b0100;
        } else if c == 'q' {
            castling = castling | 0b1000;
        } else if c == '-' {
        } else {
            proof {
                assert(castling_flag(s@[i as int]).is_none());
            }
            return Err(FenParseError::InvalidCastlingChar);
        }
        i = i + 1;
    }
    proof {
        assert(s@.subrange(0, n as int) =~= s@);
    }
    Ok(castling)
}

fn parse_en_passant(board: &GameBoard, s: &Vec<char>) -> (r: Result<PieceMove, FenParseError>)
    ensures
        r == en_passant_of(*board, s@),
{
    if s.len() == 1 && s[0] == '-' {
        proof {
            assert(s@ =~= seq!['-']);
        }
        return Ok(PieceMove::null());
    }
    proof {
        if s@ == seq!['-'] {
            assert(s@.len() == 1 && s@[0] == '-');
        }
    }
    if s.len() != 2 {
        return Err(FenParseError::InvalidEnPassantSquare);
    }
    let col = s[0];
    let row = s[1];
    if !('a' <= col && col <= 'h') {
        return Err(FenParseError::InvalidEnPassantSquare);
    }
    if !('1' <= row && row <= '8') {
        return Err(FenParseError::InvalidEnPassantSquare);
    }
    let col_nbr = (col as u32 - 'a' as u32) as u8;
    let row_nbr = (row as u32 - '1' as u32) as u8;
    // The target lies on rank 3 or 6.
    if row_nbr != 2 && row_nbr != 5 {
        return Err(FenParseError::InvalidEnPassantSquare);
    }
    let victim_rank = if board.playing {
        // White to move: Black has just advanced a pawn from rank 7 to 5.
        if row_nbr != 5 {
            return Err(FenParseError::InvalidEnPassantContext);
        }
        row_nbr - 1
    } else {
        // Black to move: White has just advanced a pawn from rank 2 to 4.
        if row_nbr != 2 {
            return Err(FenParseError::InvalidEnPassantContext);
        }
        row_nbr + 1
    };
    // The pawn that has just moved.
    let captured_pawn_square = victim_rank * 8 + col_nbr;
    if !board.pawns.get_bit(captured_pawn_square) || board.colour.get_bit(captured_pawn_square)
        == board.playing {
        return Err(FenParseError::InvalidEnPassantContext);
    }
    // At least one pawn of the side to move next to it.
    let left_attacker = col_nbr > 0 && board.pawns.get_bit(captured_pawn_square - 1)
        && board.colour.get_bit(captured_pawn_square - 1) == board.playing;
    let right_attacker = col_nbr < 7 && board.pawns.get_bit(captured_pawn_square + 1)
        && board.colour.get_bit(captured_pawn_square + 1) == board.playing;
    if !(left_attacker || right_attacker) {
        return Err(FenParseError::InvalidEnPassantContext);
    }
    // The target square itself is empty.
    let square_index = row_nbr * 8 + col_nbr;
    if board.combined().get_bit(square_index) {
        return Err(FenParseError::InvalidEnPassantContext);
    }
    Ok(PieceMove::new(0, square_index, true, None))
}

/// Appends the castling field.
fn push_castling(fen: &mut String, castling: u8)
    ensures
        final(fen)@ == old(fen)@ + castling_text(castling),
{
    let mut any = false;
    if castling & 0b0001 != 0 {
        fen.push('K');
        any = true;
    }
    if castling & 0b0010 != 0 {
        fen.push('Q');
        any = true;
    }
    if castling & 0b0100 != 0 {
        fen.push('k');
        any = true;
    }
    if castling & 0b1000 != 0 {
        fen.push('q');
        any = true;
    }
    if !any {
        fen.push('-');
    }
    proof {
        assert(fen@ =~= old(fen)@ + castling_text(castling));
    }
}

/// Appends the en passant field.
fn push_en_passant(fen: &mut String, en_passant: PieceMove)
    ensures
        final(fen)@ == old(fen)@ + en_passant_text(en_passant),
{
    if en_passant.is_null() {
        fen.push('-');
    } else {
        let sq = en_passant.to_square();
        let file = sq % 8;
        let rank = sq / 8;
        fen.push((97u8 + file) as char);
        fen.push((49u8 + rank) as char);
    }
    proof {
        assert(fen@ =~= old(fen)@ + en_passant_text(en_passant));
    }
}

impl GameData {
    /// The number of half-moves that White has played.
    pub fn white_plies(&self) -> (r: usize)
        ensures
            r == (self.plies + 1) / 2,
    {
        proof {
            let p = self.plies;
            assert(p / 2 + p % 2 == (p + 1) / 2);
        }
        self.plies / 2 + self.plies % 2
    }

    /// The number of half-moves that Black has played.
    pub fn black_plies(&self) -> (r: usize)
        ensures
            r == self.plies / 2,
    {
        self.plies / 2
    }

    /// Reads a position from its text form. The text is rejected with the
    /// reason that belongs to the first field that is not in order.
    pub fn from_fen(fen: &str) -> (r: Result<Self, FenParseError>)
        ensures
            r == decode(fen@),
            r matches Ok(game) ==> game.board.wf(),
    {
        proof {
            if decode(fen@).is_ok() {
                crate::model::fen_round_trip::lemma_decode_wf(fen@);
            }
        }
        let chars = chars_of(fen);
        let fields = split_fields(&chars);
        if fields.len() != 6 {
            return Err(FenParseError::MalformedFen);
        }
        let mut board = match parse_placement(&fields[0]) {
            Ok(b) => b,
            Err(e) => {
                return Err(e);
            },
        };
        board.playing = match parse_active_colour(&fields[1]) {
            Ok(p) => p,
            Err(e) => {
                return Err(e);
            },
        };
        board.castling = match parse_castling(&fields[2]) {
            Ok(c) => c,
            Err(e) => {
                return Err(e);
            },
        };
        board.en_passant = match parse_en_passant(&board, &fields[3]) {
            Ok(m) => m,
            Err(e) => {
                return Err(e);
            },
        };
        let clock = match parse_number(&fields[4]) {
            Some(n) => n,
            None => {
                return Err(FenParseError::ExpectedNumber);
            },
        };
        let count = match parse_number(&fields[5]) {
            Some(n) => n,
            None => {
                return Err(FenParseError::ExpectedNumber);
            },
        };
        if count == 0 {
            return Err(FenParseError::InvalidFullmoveNumber);
        }
        let side: usize = if board.playing {
            0
        } else {
            1
        };
        if count - 1 > (usize::MAX - side) / 2 {
            return Err(FenParseError::InvalidFullmoveNumber);
        }
        Ok(
            Self {
                board,
                moves: [PieceMove::null();MAX_GAME_MOVES],
                plies: (count - 1) * 2 + side,
                halfmove_clock: clock,
            },
        )
    }
    /// Writes the position in its text form.
    pub fn to_fen(&self) -> (fen: String)
        ensures
            fen@ == encode_fen(*self),
    {
        let mut fen = String::new();
        proof {
            assert(fen@ + placement_text(self.board, 7) =~= placement_text(self.board, 7));
        }
        // 1. Piece placement, from rank 8 down to rank 1.
        self.push_placement(&mut fen);
        fen.push(' ');
        // 2. Active colour.
        fen.push(
            if self.board.playing {
                'w'
            } else {
                'b'
            },
        );
        fen.push(' ');
        // 3. Castling availability.
        push_castling(&mut fen, self.board.castling);
        fen.push(' ');
        // 4. En passant target square.
        push_en_passant(&mut fen, self.board.en_passant);
        fen.push(' ');
        // 5. Halfmove clock.
        push_number(&mut fen, self.halfmove_clock);
        fen.push(' ');
        // 6. Fullmove number.
        let fullmove = (self.plies / 2) + 1;
        push_number(&mut fen, fullmove);
        proof {
            assert(fen@ =~= encode_fen(*self));
        }
        fen
    }

    /// Appends the piece placement.
    fn push_placement(&self, fen: &mut String)
        ensures
            final(fen)@ == old(fen)@ + placement_text(self.board, 7),
    {
        let mut rank: u8 = 8;
        let ghost start = fen@;
        while rank > 0
            invariant
                0 <= rank <= 8,
                rank > 0 ==> fen@ + placement_text(self.board, rank - 1) == start + placement_text(
                    self.board,
                    7,
                ),
                rank == 0 ==> fen@ == start + placement_text(self.board, 7),
            decreases rank,
        {
            rank = rank - 1;
            let ghost at_rank = fen@;
            self.push_rank(fen, rank);
            if rank > 0 {
                fen.push('/');
                proof {
                    assert(fen@ + placement_text(self.board, rank - 1) =~= at_rank + (rank_text(
                        self.board,
                        rank as int,
                        0,
                        0,
                    ) + seq!['/'] + placement_text(self.board, rank - 1)));
                }
            }
        }
    }

    /// Appends the text of one rank.
    fn push_rank(&self, fen: &mut String, rank: u8)
        requires
            rank < 8,
        ensures
            final(fen)@ == old(fen)@ + rank_text(self.board, rank as int, 0, 0),
    {
        let mut empty_count: usize = 0;
        let mut file: u8 = 0;
        let ghost start = fen@;
        while file < 8
            invariant
                0 <= rank < 8,
                0 <= file <= 8,
                0 <= empty_count <= file,
                fen@ + rank_text(self.board, rank as int, file as int, empty_count as int)
                    == start + rank_text(self.board, rank as int, 0, 0),
            decreases 8 - file,
        {
            let square = rank * 8 + file;
            let ghost before = fen@;
            let ghost run = empty_count as int;
            match self.get_piece_char(square) {
                Some(c) => {
                    if empty_count > 0 {
                        push_number(fen, empty_count);
                        empty_count = 0;
                    }
                    fen.push(c);
                    proof {
                        assert(fen@ + rank_text(self.board, rank as int, file + 1, 0) =~= before
                            + (run_text(run) + seq![c] + rank_text(
                            self.board,
                            rank as int,
                            file + 1,
                            0,
                        )));
                    }
                },
                None => {
                    empty_count = empty_count + 1;
                },
            }
            file = file + 1;
        }
        if empty_count > 0 {
            push_number(fen, empty_count);
        }
        proof {
            assert(fen@ =~= start + rank_text(self.board, rank as int, 0, 0));
        }
    }

    /// The letter that stands for what is on `square`, if anything is:
    /// upper case where the colour bit is set, lower case where it is not.
    pub fn get_piece_char(&self, square: u8) -> (r: Option<char>)
        requires
            square < 64,
        ensures
            r == piece_char_at(self.board, square as int),
    {
        let white = self.board.colour.get_bit(square);
        match self.board.get_piece(square) {
            Some(PieceType::Pawn) => Some(
                if white {
                    'P'
                } else {
                    'p'
                },
            ),
            Some(PieceType::Knight) => Some(
                if white {
                    'N'
                } else {
                    'n'
                },
            ),
            Some(PieceType::Bishop) => Some(
                if white {
                    'B'
                } else {
                    'b'
                },
            ),
            Some(PieceType::Rook) => Some(
                if white {
                    'R'
                } else {
                    'r'
                },
            ),
            Some(PieceType::Queen) => Some(
                if white {
                    'Q'
                } else {
                    'q'
                },
            ),
            Some(PieceType::King) => Some(
                if white {
                    'K'
                } else {
                    'k'
                },
            ),
            None => None,
        }
    }

    /// The figurine that stands for what is on `square`, if anything is.
    pub fn get_piece_icon(&self, square: u8) -> (r: Option<char>)
        requires
            square < 64,
        ensures
            r == (match self.board.piece_at(square as int) {
                Some(piece) => Some(icon_of_piece(piece, self.board.colour.has(square as int))),
                None => None,
            }),
    {
        let white = self.board.colour.get_bit(square);
        match self.board.get_piece(square) {
            Some(PieceType::Pawn) => Some(
                if white {
                    '\u{265F}'
                } else {
                    '\u{2659}'
                },
            ),
            Some(PieceType::Knight) => Some(
                if white {
                    '\u{265E}'
                } else {
                    '\u{2658}'
                },
            ),
            Some(PieceType::Bishop) => Some(
                if white {
                    '\u{265D}'
                } else {
                    '\u{2657}'
                },
            ),
            Some(PieceType::Rook) => Some(
                if white {
                    '\u{265C}'
                } else {
                    '\u{2656}'
                },
            ),
            Some(PieceType::Queen) => Some(
                if white {
                    '\u{265B}'
                } else {
                    '\u{2655}'
                },
            ),
            Some(PieceType::King) => Some(
                if white {
                    '\u{265A}'
                } else {
                    '\u{2654}'
                },
            ),
            None => None,
        }
    }
}

} // verus!
