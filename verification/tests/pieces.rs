use lumifox_chess::model::pieces::{Piece, PieceType, BLACK, MOVED, WHITE};

#[test]
fn test_empty_piece() {
  let p = Piece::empty();
  assert!(p.is_empty_square());
  assert_eq!(p.piece_type(), PieceType::Empty);
  assert!(!p.is_black());
  assert!(!p.has_moved());
  assert!(!p.is_promoted());
}

#[test]
fn test_piece_new_and_properties() {
  let white_pawn = Piece::new(PieceType::Pawn, WHITE);
  assert!(!white_pawn.is_empty_square());
  assert_eq!(white_pawn.piece_type(), PieceType::Pawn);
  assert!(!white_pawn.is_black());

  let black_knight = Piece::new(PieceType::Knight, BLACK);
  assert_eq!(black_knight.piece_type(), PieceType::Knight);
  assert!(black_knight.is_black());
}

#[test]
fn test_set_moved() {
  let mut p = Piece::new(PieceType::Rook, WHITE);
  assert!(!p.has_moved());
  p.set_moved();
  assert!(p.has_moved());
}

#[test]
fn test_promote() {
  let mut p = Piece::new(PieceType::Pawn, WHITE);
  p.promote(PieceType::Queen);
  assert_eq!(p.piece_type(), PieceType::Queen);
  assert!(p.is_promoted());
}

#[test]
fn test_bit_ops() {
  let bishop = Piece::new(PieceType::Bishop, BLACK);
  let moved = Piece(MOVED);
  let combined = bishop | moved;
  assert_eq!(combined.piece_type(), PieceType::Bishop);
  assert!(combined.is_black());
  assert!(combined.has_moved());

  let masked = combined & Piece(!(MOVED));
  assert!(!masked.has_moved());
}

#[test]
fn test_debug_format() {
  let mut p = Piece::new(PieceType::Queen, BLACK);
  p.set_moved();
  let s = p.describe();
  assert!(s.contains("Black"));
  assert!(s.contains("Queen"));
  assert!(s.contains("moved"));
}

#[test]
fn piece_text_is_exact() {
  assert_eq!(Piece::empty().describe(), "Piece(Empty)");
  let mut p = Piece::new(PieceType::Pawn, BLACK);
  assert_eq!(p.describe(), "Piece(Black PieceType(Pawn))");
  p.set_moved();
  p.promote(PieceType::Rook);
  assert_eq!(p.describe(), "Piece(Black PieceType(Rook) (moved, promoted))");
  assert!(p.is_black());
  assert!(p.has_moved());
  assert_eq!(PieceType::King.describe(), "PieceType(King)");
  assert_eq!(PieceType::Queen.code(), 5);
}

#[test]
fn pieces_combine_in_place() {
  let mut piece = Piece::new(PieceType::Knight, WHITE);
  piece |= Piece(MOVED);
  assert!(piece.has_moved());
  assert_eq!(piece.piece_type(), PieceType::Knight);
  piece &= Piece(!MOVED);
  assert!(!piece.has_moved());
  assert_eq!(piece, Piece::new(PieceType::Knight, WHITE));
  piece |= Piece(BLACK);
  assert!(piece.is_black());
}
