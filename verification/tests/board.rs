use lumifox_chess::model::board::Board;
use lumifox_chess::model::pieces::{Piece, PieceType, BLACK, WHITE};

#[test]
fn test_starting_position() {
  let board = Board::new();
  assert!(board.active_white);
  assert_eq!(board.halfmoves, 0);
  assert_eq!(board.fullmoves, 1);
  assert!(board.castling.iter().all(|c| c.is_none()));
}

#[test]
fn test_fen_parsing() {
  let fen = "rnbqkbnr/pppppppp/8/8/8/8/PPPPPPPP/RNBQKBNR w KQ - 0 1";
  let board = Board::from_fen(fen);
  // Active color
  assert!(board.active_white);
  // Pieces
  let white_rook_idx = 56;
  assert_eq!(board.pieces[white_rook_idx].piece_type(), PieceType::Rook);
  assert!(!board.pieces[white_rook_idx].is_black());
  // Moves counts
  assert_eq!(board.halfmoves, 0);
  assert_eq!(board.fullmoves, 1);
  // Only white castling rights are set (code doesn't handle black castling)
  assert!(board.castling[0].is_some());
  assert!(board.castling[1].is_some());
  assert!(board.castling[2].is_none());
  assert!(board.castling[3].is_none());
}

#[test]
fn test_fen_no_castling_and_black_to_move() {
  let fen = "8/8/8/8/8/8/8/8 b - - 10 5";
  let board = Board::from_fen(fen);
  assert!(!board.active_white);
  assert!(board.castling.iter().all(|c| c.is_none()));
  assert_eq!(board.halfmoves, 10);
  assert_eq!(board.fullmoves, 5);
}

#[test]
fn test_to_fen() {
  let board = Board::from_fen("rnbqkbnr/pppppppp/8/8/8/8/PPPPPPPP/RNBQKBNR w KQ - 0 1");
  let fen = board.to_fen();
  assert_eq!(
    fen,
    "rnbqkbnr/pppppppp/8/8/8/8/PPPPPPPP/RNBQKBNR w KQ-- - 0 1"
  );
}

#[test]
fn boards_read_leniently() {
  // Missing counters stand at 0 and 1; what means nothing is passed over.
  let board = Board::from_fen("4k3/8/8/8/8/8/8/R3K2R w zKQz");
  assert_eq!(board.halfmoves, 0);
  assert_eq!(board.fullmoves, 1);
  assert_eq!(board.castling, [Some(56), Some(63), None, None]);
  assert_eq!(board.pieces[4], Piece::new(PieceType::King, BLACK));
  assert_eq!(board.pieces[60], Piece::new(PieceType::King, WHITE));
  assert_eq!(board.pieces[0], Piece::empty());
  assert_eq!(board.combined.raw(), 0);
  assert_eq!(board.to_fen(), "4k3/8/8/8/8/8/8/R3K2R w KQ-- - 0 1");
  let board = Board::from_fen("4k3/8/8/8/8/8/8/R3K2R b - - x y");
  assert_eq!(board.halfmoves, 0);
  assert_eq!(board.fullmoves, 1);
  assert_eq!(board.castling, [None; 4]);
  assert_eq!(board.to_fen(), "4k3/8/8/8/8/8/8/R3K2R b ---- - 0 1");
  // The rook of a lower-case letter is looked for in the row of the black king.
  let board = Board::from_fen("R3k2R/8/8/8/8/8/8/4K3 w kq - 3 9");
  assert_eq!(board.castling, [Some(0), Some(7), None, None]);
  assert_eq!(board.to_fen(), "R3k2R/8/8/8/8/8/8/4K3 w KQ-- - 3 9");
  let mut board = board;
  board.reset();
  assert_eq!(board.to_fen(), "8/8/8/8/8/8/8/8 w ---- - 0 1");
  assert_eq!(Board::default().to_fen(), Board::new().to_fen());
}

fn fx_step(state: u64, word: u64) -> u64 {
  (state.rotate_left(5) ^ word).wrapping_mul(0x517c_c1b7_2722_0a95)
}

#[test]
fn the_hash_is_the_fx_hash_of_the_board() {
  let board = Board::from_fen("rnbqkbnr/pppppppp/8/8/8/8/PPPPPPPP/RNBQKBNR w KQ - 7 12");
  let mut expected = 0u64;
  for piece in board.pieces.iter() {
    expected = fx_step(expected, piece.0 as u64);
  }
  expected = fx_step(expected, 1);
  expected = fx_step(expected, 7);
  expected = fx_step(expected, 12);
  if usize::BITS == 64 {
    assert_eq!(board.get_hash(), expected);
  }
  assert_ne!(board.get_hash(), 0);
  assert_eq!(board.get_hash(), board.get_hash());
  let other = Board::from_fen("rnbqkbnr/pppppppp/8/8/8/8/PPPPPPPP/RNBQKBNR b KQ - 7 12");
  assert_ne!(board.get_hash(), other.get_hash());
  // The castling entries and the occupancy bitboard are not hashed.
  let plain = Board::from_fen("rnbqkbnr/pppppppp/8/8/8/8/PPPPPPPP/RNBQKBNR w - - 7 12");
  assert_eq!(board.get_hash(), plain.get_hash());
  assert_eq!(Board::new().get_hash(), fx_step(fx_step(fx_step(0, 1), 0), 1));
}
