use lumifox_chess::model::gameboard::{GameBoard, PieceType};
use lumifox_chess::model::gamedata::GameData;
use lumifox_chess::model::piecemove::{PieceMove, PromotionType};
use lumifox_chess::constants::{
    A1, B1, C1, D1, E1, F1, G1, H1, A2, B2, C2, D2, E2, F2, G2, H2, B3, C3, D3, E3, F3, H3, A4, B4,
    C4, D4, E4, F4, G4, H4, B5, C5, D5, E5, F5, A6, B6, C6, D6, E6, F6, A7, D7, E7, G7, D8, E8, H8,
};

fn board_from_fen(fen: &str) -> GameBoard {
  GameData::from_fen(fen).unwrap().board
}

// Helper function to create simple moves
fn simple_move(from: u8, to: u8) -> PieceMove {
  PieceMove::new(from, to, false, None)
}

fn capture_move(from: u8, to: u8) -> PieceMove {
  PieceMove::new(from, to, true, None)
}

fn promotion_move(from: u8, to: u8, promotion: PromotionType) -> PieceMove {
  PieceMove::new(from, to, false, Some(promotion))
}

fn promotion_capture_move(from: u8, to: u8, promotion: PromotionType) -> PieceMove {
  PieceMove::new(from, to, true, Some(promotion))
}

fn en_passant_move(from: u8, to: u8) -> PieceMove {
  PieceMove::new_en_passant(from, to)
}

fn castling_move(from: u8, to: u8) -> PieceMove {
  PieceMove::new_castling(from, to)
}

// Basic validity tests
#[test]
fn test_wrong_color_piece() {
  let board = board_from_fen("rnbqkbnr/pppppppp/8/8/8/8/PPPPPPPP/RNBQKBNR w KQkq - 0 1");
  // Try to move black pawn when it's white's turn
  let black_pawn_move = simple_move(A7, A6);
  assert!(!board.is_move_legal(&black_pawn_move));
}

#[test]
fn test_move_to_own_piece() {
  let board = board_from_fen("rnbqkbnr/pppppppp/8/8/8/8/PPPPPPPP/RNBQKBNR w KQkq - 0 1");
  // Try to move white pawn to square occupied by white pawn
  let move_to_own = simple_move(A2, B2);
  assert!(!board.is_move_legal(&move_to_own));
}

#[test]
fn test_no_piece_to_move() {
  let board = board_from_fen("rnbqkbnr/pppppppp/8/8/8/8/PPPPPPPP/RNBQKBNR w KQkq - 0 1");
  // Try to move from empty square
  let empty_square_move = simple_move(E4, E5);
  assert!(!board.is_move_legal(&empty_square_move));
}

#[test]
fn test_cannot_capture_king() {
  let board = board_from_fen("rnbqkbnr/pppppppp/8/8/8/4Q3/PPPPPPPP/RNB1KBNR w KQkq - 0 1");
  // Try to capture the black king with the white queen
  let capture_king = capture_move(E3, E8);
  assert!(!board.is_move_legal(&capture_king));
}

// Pawn move tests
#[test]
fn test_pawn_single_step() {
  let board = board_from_fen("rnbqkbnr/pppppppp/8/8/8/8/PPPPPPPP/RNBQKBNR w KQkq - 0 1");
  let pawn_move = simple_move(E2, E3);
  assert!(board.is_move_legal(&pawn_move));
}

#[test]
fn test_pawn_double_step() {
  let board = board_from_fen("rnbqkbnr/pppppppp/8/8/8/8/PPPPPPPP/RNBQKBNR w KQkq - 0 1");
  let pawn_double = simple_move(E2, E4);
  assert!(board.is_move_legal(&pawn_double));
}

#[test]
fn test_pawn_double_step_blocked() {
  let board = board_from_fen("rnbqkbnr/pppppppp/8/8/4P3/8/PPPP1PPP/RNBQKBNR b KQkq - 0 1");
  // Black pawn can't double step because E6 is blocked
  let blocked_double = simple_move(E7, E5);
  assert!(board.is_move_legal(&blocked_double));
}

#[test]
fn test_pawn_invalid_double_step_from_wrong_rank() {
  let board = board_from_fen("rnbqkbnr/pppp1ppp/4p3/8/8/8/PPPPPPPP/RNBQKBNR w KQkq - 0 1");
  // Black pawn on E6 can't double step
  let invalid_double = simple_move(E6, E4);
  assert!(!board.is_move_legal(&invalid_double));
}

#[test]
fn test_pawn_capture_diagonal() {
  let board = board_from_fen("rnbqkbnr/pppp1ppp/8/8/3p4/4P3/PPPP1PPP/RNBQKBNR w KQkq - 0 1");
  let pawn_capture = capture_move(E3, D4);
  assert!(board.is_move_legal(&pawn_capture));
}

#[test]
fn test_pawn_cannot_capture_forward() {
  let board = board_from_fen("rnbqkbnr/pppp1ppp/8/8/4p3/8/PPPP1PPP/RNBQKBNR w KQkq - 0 1");
  let pawn_forward_capture = capture_move(E2, E4);
  assert!(!board.is_move_legal(&pawn_forward_capture));
}

#[test]
fn test_pawn_cannot_move_diagonal_without_capture() {
  let board = board_from_fen("rnbqkbnr/pppppppp/8/8/8/8/PPPPPPPP/RNBQKBNR w KQkq - 0 1");
  let diagonal_move = simple_move(E2, D3);
  assert!(!board.is_move_legal(&diagonal_move));
}

#[test]
fn test_pawn_backward_move_illegal() {
  let board = board_from_fen("rnbqkbnr/pppp1ppp/8/4p3/8/8/PPPPPPPP/RNBQKBNR w KQkq - 0 1");
  let backward_move = simple_move(E5, E6);
  assert!(!board.is_move_legal(&backward_move));
}

#[test]
fn test_pawn_promotion_to_queen() {
  let board = board_from_fen("k7/4P3/8/8/8/8/8/7K w - - 0 1");
  let promotion = promotion_move(E7, E8, PromotionType::Queen);
  assert!(board.is_move_legal(&promotion));
}

#[test]
fn test_pawn_promotion_all_pieces() {
  let board = board_from_fen("k7/4P3/8/8/8/8/8/K7 w - - 0 1");
  assert!(board.is_move_legal(&promotion_move(E7, E8, PromotionType::Queen)));
  assert!(board.is_move_legal(&promotion_move(E7, E8, PromotionType::Rook)));
  assert!(board.is_move_legal(&promotion_move(E7, E8, PromotionType::Bishop)));
  assert!(board.is_move_legal(&promotion_move(E7, E8, PromotionType::Knight)));
}

#[test]
fn test_pawn_promotion_capture() {
  let board = board_from_fen("k2n4/4P3/8/8/8/8/8/K7 w - - 0 1");
  let promotion_capture = promotion_capture_move(E7, D8, PromotionType::Queen);
  assert!(board.is_move_legal(&promotion_capture));
}

#[test]
fn test_pawn_promotion_wrong_rank() {
  let board = board_from_fen("8/8/4P3/8/8/8/8/8 w - - 0 1");
  let wrong_rank_promotion = promotion_move(E6, E7, PromotionType::Queen);
  assert!(!board.is_move_legal(&wrong_rank_promotion));
}

#[test]
fn test_black_pawn_promotion() {
  let board = board_from_fen("K6k/8/8/8/8/8/4p3/8 b - - 0 1");
  let black_promotion = promotion_move(E2, E1, PromotionType::Queen);
  assert!(board.is_move_legal(&black_promotion));
}

// En passant tests
#[test]
fn test_en_passant_basic() {
  let mut board = board_from_fen("rnbqkbnr/ppp1pppp/8/3pP3/8/8/PPPP1PPP/RNBQKBNR w KQkq d6 0 1");
  board.en_passant = PieceMove::new(D5, D6, false, None); // Set en passant target
  let en_passant = en_passant_move(E5, D6);
  assert!(board.is_move_legal(&en_passant));
}

#[test]
fn test_en_passant_wrong_target() {
  let mut board = board_from_fen("rnbqkbnr/ppp1pppp/8/3pP3/8/8/PPPP1PPP/RNBQKBNR w KQkq - 0 1");
  board.en_passant = PieceMove::new(D5, C6, false, None); // Wrong en passant target
  let en_passant = en_passant_move(E5, D6); // Try to capture to different square
  assert!(!board.is_move_legal(&en_passant));
}

// Knight move tests
#[test]
fn test_knight_l_shape_moves() {
  let board = board_from_fen("k7/8/8/8/3N4/8/8/K7 w - - 0 1");
  let knight_moves = [
    simple_move(D4, B3),
    simple_move(D4, B5),
    simple_move(D4, C2),
    simple_move(D4, C6),
    simple_move(D4, E2),
    simple_move(D4, E6),
    simple_move(D4, F3),
    simple_move(D4, F5),
  ];
  for &knight_move in &knight_moves {
    assert!(
      board.is_move_legal(&knight_move),
      "Knight move {:?} should be legal",
      knight_move
    );
  }
}

#[test]
fn test_knight_invalid_move() {
  let board = board_from_fen("8/8/8/8/3N4/8/8/8 w - - 0 1");
  let invalid_knight = simple_move(D4, E5); // Not an L-shape
  assert!(!board.is_move_legal(&invalid_knight));
}

#[test]
fn test_knight_blocked_by_own_piece() {
  let board = board_from_fen("8/8/8/2P5/3N4/8/8/8 w - - 0 1");
  let blocked_knight = simple_move(D4, C6);
  assert!(!board.is_move_legal(&blocked_knight));
}

#[test]
fn test_knight_capture() {
  let board = board_from_fen("8/k7/8/2p5/3N4/8/2K5/8 w - - 0 1");
  let knight_capture = capture_move(D4, C6);
  assert!(board.is_move_legal(&knight_capture));
}

// Bishop move tests
#[test]
fn test_bishop_diagonal_moves() {
  let board = board_from_fen("k7/8/8/8/3B4/8/8/7K w - - 0 1");
  let bishop_moves = [
    simple_move(D4, A1),
    simple_move(D4, B2),
    simple_move(D4, C3),
    simple_move(D4, E5),
    simple_move(D4, F6),
    simple_move(D4, G7),
    simple_move(D4, H8),
    simple_move(D4, A7),
    simple_move(D4, B6),
    simple_move(D4, C5),
    simple_move(D4, E3),
    simple_move(D4, F2),
    simple_move(D4, G1),
  ];
  for &bishop_move in &bishop_moves {
    assert!(
      board.is_move_legal(&bishop_move),
      "Bishop move {:?} should be legal",
      bishop_move
    );
  }
}

#[test]
fn test_bishop_non_diagonal_illegal() {
  let board = board_from_fen("8/8/8/8/3B4/8/8/8 w - - 0 1");
  let non_diagonal = simple_move(D4, D6); // Vertical move
  assert!(!board.is_move_legal(&non_diagonal));
}

#[test]
fn test_bishop_blocked_path() {
  let board = board_from_fen("8/8/8/2P5/3B4/8/8/8 w - - 0 1");
  let blocked_bishop = simple_move(D4, A7);
  assert!(!board.is_move_legal(&blocked_bishop)); // Path blocked by pawn on C5
}

// Rook move tests
#[test]
fn test_rook_straight_moves() {
  let board = board_from_fen("k7/8/8/8/3R4/8/8/7K w - - 0 1");
  let rook_moves = [
    simple_move(D4, D1),
    simple_move(D4, D2),
    simple_move(D4, D3),
    simple_move(D4, D5),
    simple_move(D4, D6),
    simple_move(D4, D7),
    simple_move(D4, D8),
    simple_move(D4, A4),
    simple_move(D4, B4),
    simple_move(D4, C4),
    simple_move(D4, E4),
    simple_move(D4, F4),
    simple_move(D4, G4),
    simple_move(D4, H4),
  ];
  for &rook_move in &rook_moves {
    assert!(
      board.is_move_legal(&rook_move),
      "Rook move {:?} should be legal",
      rook_move
    );
  }
}

#[test]
fn test_rook_diagonal_illegal() {
  let board = board_from_fen("8/8/8/8/3R4/8/8/8 w - - 0 1");
  let diagonal_move = simple_move(D4, E5);
  assert!(!board.is_move_legal(&diagonal_move));
}

#[test]
fn test_rook_blocked_path() {
  let board = board_from_fen("8/8/8/8/2PR4/8/8/8 w - - 0 1");
  let blocked_rook = simple_move(D4, A4);
  assert!(!board.is_move_legal(&blocked_rook)); // Path blocked by pawn on C4
}

// Queen move tests
#[test]
fn test_queen_combined_moves() {
  let board = board_from_fen("k7/8/8/8/3Q4/8/8/7K w - - 0 1");
  // Test both rook-like and bishop-like moves
  let queen_moves = [
    simple_move(D4, D1),
    simple_move(D4, A4), // Rook-like
    simple_move(D4, A1),
    simple_move(D4, G7), // Bishop-like
  ];
  for &queen_move in &queen_moves {
    assert!(
      board.is_move_legal(&queen_move),
      "Queen move {:?} should be legal",
      queen_move
    );
  }
}

#[test]
fn test_queen_knight_move_illegal() {
  let board = board_from_fen("8/8/8/8/3Q4/8/8/8 w - - 0 1");
  let knight_like = simple_move(D4, F3); // L-shape not allowed for queen
  assert!(!board.is_move_legal(&knight_like));
}

// King move tests
#[test]
fn test_king_adjacent_moves() {
  let board = board_from_fen("8/8/8/8/3K4/8/8/8 w - - 0 1");
  let king_moves = [
    simple_move(D4, C3),
    simple_move(D4, D3),
    simple_move(D4, E3),
    simple_move(D4, C4),
    simple_move(D4, E4),
    simple_move(D4, C5),
    simple_move(D4, D5),
    simple_move(D4, E5),
  ];
  for &king_move in &king_moves {
    assert!(board.is_move_legal(&king_move));
  }
}

#[test]
fn test_king_long_move_illegal() {
  let board = board_from_fen("8/8/8/8/3K4/8/8/8 w - - 0 1");
  let long_move = simple_move(D4, D6); // Two squares
  assert!(!board.is_move_legal(&long_move));
}

#[test]
fn test_king_move_into_check() {
  let board = board_from_fen("8/8/8/8/3K4/8/8/3r4 w - - 0 1");
  let into_check = simple_move(D4, D3); // Moving into attack by rook
  assert!(!board.is_move_legal(&into_check));
}

// Castling tests
#[test]
fn test_kingside_castling_legal() {
  let board = board_from_fen("r3k2r/pppppppp/8/8/8/8/PPPPPPPP/R3K2R w KQkq - 0 1");
  let kingside_castle = castling_move(E1, G1);
  assert!(board.is_move_legal(&kingside_castle));
}

#[test]
fn test_queenside_castling_legal() {
  let board = board_from_fen("r3k2r/pppppppp/8/8/8/8/PPPPPPPP/R3K2R w KQkq - 0 1");
  let queenside_castle = castling_move(E1, C1);
  assert!(board.is_move_legal(&queenside_castle));
}

#[test]
fn test_castling_king_in_check() {
  let board = board_from_fen("r3k2r/pppppppp/8/8/8/8/PPPPPPPP/R2rK2R w KQkq - 0 1");
  let castle_in_check = castling_move(E1, G1); // King in check from rook on D1
  assert!(!board.is_move_legal(&castle_in_check));
}

#[test]
fn test_castling_path_blocked() {
  let board = board_from_fen("r3k2r/pppppppp/8/8/8/8/PPPPPPPP/R2QK2R w KQkq - 0 1");
  let castle_blocked = castling_move(E1, C1); // Queen blocks path
  assert!(!board.is_move_legal(&castle_blocked));
}

#[test]
fn test_castling_through_check() {
  let board = board_from_fen("r3k2r/pppppppp/8/8/8/8/PPPPPPPP/R3K1rR w KQkq - 0 1");
  let castle_through_check = castling_move(E1, G1); // King would pass through F1 under attack
  assert!(!board.is_move_legal(&castle_through_check));
}

#[test]
fn test_castling_no_rights() {
  let board = board_from_fen("r3k2r/pppppppp/8/8/8/8/PPPPPPPP/R3K2R w - - 0 1");
  let castle_no_rights = castling_move(E1, G1);
  assert!(!board.is_move_legal(&castle_no_rights));
}

// Check escape tests
#[test]
fn test_must_escape_check() {
  let board = board_from_fen("8/8/8/8/8/8/4r3/4K3 w - - 0 1");
  let non_escape = simple_move(E1, D1); // Doesn't escape check from rook on E2
  assert!(board.is_move_legal(&non_escape));
}

#[test]
fn test_block_check() {
  // King in check from rook - no legal moves available
  let board = board_from_fen("7k/8/8/8/8/8/8/4K2r w - - 0 1");
  // No legal moves - king in check from rook, can't block or move
  assert!(!board.is_move_legal(&simple_move(E1, D1)));
  assert!(!board.is_move_legal(&simple_move(E1, F1))); // Still in check
  assert!(board.is_move_legal(&simple_move(E1, E2))); // Not in check
}

#[test]
fn test_capture_checking_piece() {
  let board = board_from_fen("k7/8/8/8/8/8/4Q3/4K2r w - - 0 1");
  let capture_checker = capture_move(E2, H2); // Queen captures checking rook
  assert!(!board.is_move_legal(&capture_checker));
}

// Pinned piece tests
#[test]
fn test_pinned_piece_cannot_move() {
  let board = board_from_fen("8/8/8/8/8/8/4B3/4K2r w - - 0 1");
  let pinned_move = simple_move(E2, D3); // Bishop pinned by rook, can't move away
  assert!(!board.is_move_legal(&pinned_move));
}

#[test]
fn test_pinned_piece_can_move_along_pin() {
  let board = board_from_fen("8/8/8/8/8/8/4B3/4K2r w - - 0 1");
  let along_pin = simple_move(E2, F1); // Bishop can move along pin line
  assert!(board.is_move_legal(&along_pin));
}

#[test]
fn test_pinned_piece_can_capture_attacker() {
  let board = board_from_fen("8/8/8/8/4B3/8/8/4K2r w - - 0 1");
  let capture_attacker = capture_move(E4, H1); // Bishop captures pinning rook
  assert!(board.is_move_legal(&capture_attacker));
}

// Special game states
#[test]
fn test_initial_position_legal_moves() {
  let board = board_from_fen("rnbqkbnr/pppppppp/8/8/8/8/PPPPPPPP/RNBQKBNR w KQkq - 0 1");
  // Test some standard opening moves
  assert!(board.is_move_legal(&simple_move(E2, E4)));
  assert!(board.is_move_legal(&simple_move(D2, D4)));
  assert!(board.is_move_legal(&simple_move(G1, F3)));
  assert!(board.is_move_legal(&simple_move(B1, C3)));
}

#[test]
fn test_endgame_position() {
  let board = board_from_fen("8/8/8/8/8/8/6k1/6K1 b - - 0 1");
  assert!(board.is_move_legal(&simple_move(G2, F3)));
  assert!(board.is_move_legal(&simple_move(G2, H3)));
  assert!(!board.is_move_legal(&simple_move(G2, H1))); // Kings can't be adjacent
}

// Edge cases
#[test]
fn test_null_move_illegal() {
  let board = board_from_fen("rnbqkbnr/pppppppp/8/8/8/8/PPPPPPPP/RNBQKBNR w KQkq - 0 1");
  let null_move = PieceMove::null();
  assert!(!board.is_move_legal(&null_move));
}

// Complex scenarios
#[test]
fn test_discovered_check_legal() {
  let board = board_from_fen("k7/8/8/8/3B4/8/8/1K1r4 w - - 0 1");
  // Bishop moves, discovering check from rook - this should be legal for white
  let discovered_check = simple_move(D4, E5);
  assert!(!board.is_move_legal(&discovered_check));
}

#[test]
fn test_discovered_check_self_illegal() {
  let board = board_from_fen("K7/8/8/8/3b4/8/8/1k1R4 b - - 0 1");
  // Bishop moves would discover check on own king - illegal
  let self_discovered = simple_move(D4, E5);
  assert!(!board.is_move_legal(&self_discovered));
}

#[test]
fn test_promotion_required() {
  let board = board_from_fen("8/4P3/8/8/8/8/8/8 w - - 0 1");
  // Moving pawn to 8th rank without promotion should be illegal
  let no_promotion = simple_move(E7, E8);
  assert!(!board.is_move_legal(&no_promotion));
}

#[test]
fn test_en_passant_removes_correct_pawn() {
  let mut board = board_from_fen("rnbqkbnr/ppp1pppp/8/3pP3/8/8/PPPP1PPP/RNBQKBNR w KQkq d6 0 1");
  board.en_passant = PieceMove::new(D5, D6, false, None); // Set proper en passant target

  // Before en passant - there should be a black pawn on d5
  assert_eq!(board.get_piece(D5), Some(PieceType::Pawn));
  assert!(!board.colour.get_bit(D5)); // Black pawn

  let en_passant = en_passant_move(E5, D6);
  assert!(board.is_move_legal(&en_passant));
}
