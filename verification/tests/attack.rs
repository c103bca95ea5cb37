use lumifox_chess::legal::attack::is_square_attacked;
use lumifox_chess::model::gameboard::GameBoard;
use lumifox_chess::model::gamedata::GameData;
use lumifox_chess::constants::{
    A1, B1, D1, A2, B2, C2, D2, E2, F2, B3, C3, D3, E3, F3, A4, B4, C4, D4, E4, F4, H4, A5, B5, C5,
    D5, E5, F5, G5, H5, C6, D6, E6, F6, G7, D8, H8,
};

fn get_board(fen: &str) -> GameBoard {
  GameData::from_fen(fen).unwrap().board
}

// Pawn Tests
#[test]
fn test_pawn_attacks() {
  // It's white's turn, so we check for attacks by black pieces.
  // Black pawn on e4 attacks d3 and f3.
  let board = get_board("8/8/8/8/4p3/8/8/8 w - - 0 1");
  assert!(is_square_attacked(&board, D3));
  assert!(is_square_attacked(&board, F3));
  assert!(!is_square_attacked(&board, E4));
  assert!(!is_square_attacked(&board, E3));

  // It's black's turn, so we check for attacks by white pieces.
  // White pawn on e5 attacks d6 and f6.
  let board = get_board("8/8/8/4P3/8/8/8/8 b - - 0 1");
  assert!(is_square_attacked(&board, D6));
  assert!(is_square_attacked(&board, F6));
  assert!(!is_square_attacked(&board, E5));
  assert!(!is_square_attacked(&board, E6));
}

#[test]
fn test_pawn_edge_attacks() {
  // Black pawn on a5 only attacks b4 (not off-board to the left)
  let board = get_board("8/8/8/p7/8/8/8/8 w - - 0 1");
  assert!(is_square_attacked(&board, B4));
  assert!(!is_square_attacked(&board, A4));
  assert!(!is_square_attacked(&board, A5));

  // White pawn on h4 only attacks g5
  let board = get_board("8/8/8/8/7P/8/8/8 b - - 0 1");
  assert!(is_square_attacked(&board, G5));
  assert!(!is_square_attacked(&board, H5));
  assert!(!is_square_attacked(&board, H4));
}

#[test]
fn test_pawn_backward_not_attack() {
  // Black pawn on e4 should not attack forward squares e3/e5 nor backward like d5/f5 when side to move is white
  let board = get_board("8/8/8/8/4p3/8/8/8 w - - 0 1");
  assert!(!is_square_attacked(&board, E5));
  assert!(!is_square_attacked(&board, D5));
  assert!(!is_square_attacked(&board, F5));

  // White pawn on e5 should not attack backward squares d4/f4 when side to move is black
  let board = get_board("8/8/8/4P3/8/8/8/8 b - - 0 1");
  assert!(!is_square_attacked(&board, D4));
  assert!(!is_square_attacked(&board, F4));
}

#[test]
fn test_pawn_attacks_occupied_target() {
  // Even if the attacked square is occupied (by any piece), it's still considered attacked.
  // Black pawn on e4, black knight on d3. White to move -> checking black attacks.
  let board = get_board("8/8/8/8/4p3/3n4/8/8 w - - 0 1");
  assert!(is_square_attacked(&board, D3));
  // White pawn on e5, white knight on f6. Black to move -> checking white attacks.
  let board = get_board("8/8/5N2/4P3/8/8/8/8 b - - 0 1");
  assert!(is_square_attacked(&board, F6));
}

// Knight Tests
#[test]
fn test_knight_attacks() {
  // Black knight on d4 attacks 8 squares around it.
  let board = get_board("8/8/8/8/3n4/8/8/8 w - - 0 1");
  assert!(is_square_attacked(&board, C2));
  assert!(is_square_attacked(&board, E2));
  assert!(is_square_attacked(&board, B3));
  assert!(is_square_attacked(&board, F3));
  assert!(is_square_attacked(&board, B5));
  assert!(is_square_attacked(&board, F5));
  assert!(is_square_attacked(&board, C6));
  assert!(is_square_attacked(&board, E6));
  assert!(!is_square_attacked(&board, D4));
}

#[test]
fn test_knight_edge_attacks() {
  // Black knight on a1 only has 2 legal attack squares b3 & c2
  let board = get_board("8/8/8/8/8/8/8/n7 w - - 0 1");
  assert!(is_square_attacked(&board, B3));
  assert!(is_square_attacked(&board, C2));
  // Squares that would be off-board are naturally not attacked
  assert!(!is_square_attacked(&board, A1));
  assert!(!is_square_attacked(&board, A2));
}

#[test]
fn test_knight_blocking_irrelevant() {
  // Pieces between a knight and its destination do not matter.
  // Black knight on d4, white pawns placed where "blocking" would be for sliding pieces.
  let board = get_board("8/8/3P1P2/8/3n4/3P1P2/8/8 w - - 0 1");
  assert!(is_square_attacked(&board, C2));
  assert!(is_square_attacked(&board, E2));
  assert!(is_square_attacked(&board, B5));
  assert!(is_square_attacked(&board, F5));
}

#[test]
fn test_knight_only_opponent_counted() {
  // Side to move white -> counting black attacks. Include both black & white knights; only black's should count.
  let board = get_board("8/8/8/3N4/3n4/8/8/8 w - - 0 1");
  // Black knight d4 attacks C2; white knight d5 would also attack C3 but shouldn't influence C2
  assert!(is_square_attacked(&board, C2));
  // Square C3 attacked only by white knight -> should be false when evaluating black attacks
  assert!(!is_square_attacked(&board, C3));
}

// Bishop Tests
#[test]
fn test_bishop_attacks() {
  // Black bishop on d4 attacks along diagonals.
  let board = get_board("8/8/8/8/3b4/8/8/8 w - - 0 1");
  assert!(is_square_attacked(&board, A1));
  assert!(is_square_attacked(&board, B2));
  assert!(is_square_attacked(&board, C3));
  assert!(is_square_attacked(&board, E5));
  assert!(is_square_attacked(&board, F6));
  assert!(is_square_attacked(&board, G7));
  assert!(is_square_attacked(&board, H8));
  assert!(!is_square_attacked(&board, D4));
  assert!(!is_square_attacked(&board, D5));
}

#[test]
fn test_bishop_blocked() {
  // Black bishop on d4, but attacks are blocked by white pawns.
  let board = get_board("8/8/8/2P1P3/3b4/2P1P3/8/8 w - - 0 1");
  assert!(!is_square_attacked(&board, A1));
  assert!(!is_square_attacked(&board, H8));
  assert!(is_square_attacked(&board, C3));
  assert!(is_square_attacked(&board, E5));
}

#[test]
fn test_bishop_corner() {
  // Black bishop on a1 attacks diagonal up-right.
  let board = get_board("8/8/8/8/8/8/8/b7 w - - 0 1");
  assert!(is_square_attacked(&board, B2));
  assert!(is_square_attacked(&board, C3));
  assert!(is_square_attacked(&board, H8));
  assert!(!is_square_attacked(&board, A1));
}

// Rook Tests
#[test]
fn test_rook_attacks() {
  // Black rook on d4 attacks along rank and file.
  let board = get_board("8/8/8/8/3r4/8/8/8 w - - 0 1");
  assert!(is_square_attacked(&board, D1));
  assert!(is_square_attacked(&board, D8));
  assert!(is_square_attacked(&board, A4));
  assert!(is_square_attacked(&board, H4));
  assert!(!is_square_attacked(&board, E5));
}

#[test]
fn test_rook_blocked() {
  // Black rook on d4, but file attacks are blocked by white pawns.
  let board = get_board("8/8/3P4/3r4/3P4/8/8/8 w - - 0 1");
  assert!(!is_square_attacked(&board, D1));
  assert!(!is_square_attacked(&board, D8));
  assert!(is_square_attacked(&board, A5));
  assert!(is_square_attacked(&board, H5));
}

#[test]
fn test_rook_friendly_block() {
  // Black rook on d4 with black pawns blocking horizontally; horizontal rays blocked, vertical open.
  let board = get_board("8/8/8/8/2prp3/8/8/8 w - - 0 1");
  assert!(is_square_attacked(&board, D1));
  assert!(is_square_attacked(&board, D8));
  // Immediate friendly pieces mean those squares and beyond are not attacked horizontally
  assert!(is_square_attacked(&board, C4)); // occupied by friendly piece still attacked
  assert!(is_square_attacked(&board, E4)); // occupied by friendly piece still attacked
  assert!(!is_square_attacked(&board, A4));
  assert!(!is_square_attacked(&board, H4));
}

// Queen Tests
#[test]
fn test_queen_attacks() {
  // Black queen on d4 attacks like a rook and bishop.
  let board = get_board("8/8/8/8/3q4/8/8/8 w - - 0 1");
  // Rook-like moves
  assert!(is_square_attacked(&board, D1));
  assert!(is_square_attacked(&board, D8));
  assert!(is_square_attacked(&board, A4));
  assert!(is_square_attacked(&board, H4));
  // Bishop-like moves
  assert!(is_square_attacked(&board, A1));
  assert!(is_square_attacked(&board, H8));
  assert!(!is_square_attacked(&board, E2));
}

#[test]
fn test_queen_blocked() {
  // Black queen on d4 but surrounded by friendly pieces blocking lines.
  let board = get_board("8/8/8/3p1p2/2pqp3/5p2/8/8 w - - 0 1");
  // Immediate adjacent diagonals / orthogonals with blockers should not allow attacks beyond.
  assert!(is_square_attacked(&board, C3)); // adjacent blocker square itself attacked
  assert!(!is_square_attacked(&board, C2)); // not on queen line and no pawn now
  assert!(!is_square_attacked(&board, H4)); // far horizontal blocked
}

#[test]
fn test_queen_mixed_attacks() {
  // Black queen centralized with partial blockers allowing some rays.
  let board = get_board("8/8/8/8/3q4/3P4/8/8 w - - 0 1");
  // Up-left diagonal open
  assert!(is_square_attacked(&board, C3));
  // Up file blocked at d3 (white pawn) so further d2 not attacked
  assert!(is_square_attacked(&board, D3));
  assert!(!is_square_attacked(&board, D2));
  // Down-right diagonal open
  assert!(is_square_attacked(&board, E3));
}

// King Tests
#[test]
fn test_king_attacks() {
  // Black king on d4 attacks adjacent squares.
  let board = get_board("8/8/8/8/3k4/8/8/8 w - - 0 1");
  assert!(is_square_attacked(&board, C3));
  assert!(is_square_attacked(&board, D3));
  assert!(is_square_attacked(&board, E3));
  assert!(is_square_attacked(&board, C4));
  assert!(is_square_attacked(&board, E4));
  assert!(is_square_attacked(&board, C5));
  assert!(is_square_attacked(&board, D5));
  assert!(is_square_attacked(&board, E5));
  assert!(!is_square_attacked(&board, D4));
  assert!(!is_square_attacked(&board, A1));
}

#[test]
fn test_no_attacks() {
  let board = get_board("8/8/8/8/8/8/8/8 w - - 0 1");
  for i in 0..64 {
    assert!(!is_square_attacked(&board, i));
  }
}

#[test]
fn test_initial_position_no_attacks_in_center() {
  let board = get_board("rnbqkbnr/pppppppp/8/8/8/8/PPPPPPPP/RNBQKBNR w KQkq - 0 1");
  assert!(!is_square_attacked(&board, E4));
  assert!(!is_square_attacked(&board, D4));
  assert!(!is_square_attacked(&board, E5));
  assert!(!is_square_attacked(&board, D5));
}

#[test]
fn test_reciprocal_king_attack() {
  // Black king on e8, white king on e1. Black to move.
  // The white king on e1 is attacked by the black king on e8.
  let board = get_board("4k3/8/8/8/8/8/8/4K3 b - - 0 1");
  assert!(is_square_attacked(&board, E2));
  assert!(is_square_attacked(&board, D2));
  assert!(is_square_attacked(&board, F2));
}

#[test]
fn test_king_edge_attacks() {
  // Black king on a1 only 3 adjacent squares.
  let board = get_board("8/8/8/8/8/8/8/k7 w - - 0 1");
  assert!(is_square_attacked(&board, A2));
  assert!(is_square_attacked(&board, B1));
  assert!(is_square_attacked(&board, B2));
  assert!(!is_square_attacked(&board, A1));
  assert!(!is_square_attacked(&board, C2));
}
