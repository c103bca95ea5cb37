use lumifox_chess::errors::FenParseError;
use lumifox_chess::model::gamedata::GameData;

/// Helper function to test FEN round-tripping.
/// It parses a FEN, generates a new FEN from the result,
/// and asserts they are identical.
fn fen_roundtrip_test(fen: &str) {
  let gamedata =
    GameData::from_fen(fen).unwrap_or_else(|_| panic!("FEN parsing failed for: {fen}"));
  let new_fen = gamedata.to_fen();
  assert_eq!(fen, new_fen);
}

#[test]
fn test_fen_roundtrip_startpos() {
  fen_roundtrip_test("rnbqkbnr/pppppppp/8/8/8/8/PPPPPPPP/RNBQKBNR w KQkq - 0 1");
}

#[test]
fn test_fen_roundtrip_kiwipete() {
  // A complex mid-game position
  fen_roundtrip_test("r3k2r/p1ppqpb1/bn2pnp1/3PN3/1p2P3/2N2Q1p/PPPBBPPP/R3K2R w KQkq - 0 1");
}

#[test]
fn test_fen_roundtrip_en_passant_white() {
  // Position with en passant square e3 available to black
  fen_roundtrip_test("rnbqkbnr/ppp1pppp/8/3pP3/8/8/PPPP1PPP/RNBQKBNR w KQkq d6 0 2");
}

#[test]
fn test_fen_roundtrip_en_passant_black() {
  // Position with en passant square f6 available to white
  fen_roundtrip_test("rnbqkbnr/ppppp1pp/8/8/4Pp2/8/PPPP1PPP/RNBQKBNR b KQkq e3 0 3");
}

#[test]
fn test_fen_roundtrip_black_to_move() {
  fen_roundtrip_test("rnbqkbnr/pp1ppppp/8/2p5/4P3/5N2/PPPP1PPP/RNBQKB1R b KQkq - 1 2");
}

#[test]
fn test_fen_roundtrip_no_castling() {
  fen_roundtrip_test("r3k2r/p1ppqpb1/bn2pnp1/3PN3/1p2P3/2N2Q1p/PPPBBPPP/R3K2R b - - 1 1");
}

#[test]
fn test_fen_roundtrip_endgame() {
  fen_roundtrip_test("8/2p5/3p4/KP5r/1R3p1k/8/4P1P1/8 w - - 0 55");
}

#[test]
fn test_fen_roundtrip_only_kings() {
  fen_roundtrip_test("8/k7/8/8/8/8/7K/8 w - - 0 1");
}

// --- Tests for Invalid FENs ---

#[test]
fn test_from_fen_invalid_piece() {
  assert_eq!(
    GameData::from_fen("rnbqkbnr/ppppTppp/8/8/8/8/PPPPPPPP/RNBQKBNR w KQkq - 0 1").unwrap_err(),
    FenParseError::UnexpectedCharacter
  );
}

#[test]
fn test_from_fen_invalid_rank_length_too_long() {
  // 9 pawns on a rank
  assert_eq!(
    GameData::from_fen("rnbqkbnr/ppppppppp/8/8/8/8/PPPPPPPP/RNBQKBNR w KQkq - 0 1").unwrap_err(),
    FenParseError::InvalidRankLength
  );
}

#[test]
fn test_from_fen_invalid_rank_length_too_short() {
  // rank with 7 squares
  assert_eq!(
    GameData::from_fen("rnbqkbnr/ppppppp/8/8/8/8/PPPPPPPP/RNBQKBNR w KQkq - 0 1").unwrap_err(),
    FenParseError::InvalidRankLength
  );
}

#[test]
fn test_from_fen_invalid_rank_count() {
  // Missing a rank
  assert_eq!(
    GameData::from_fen("rnbqkbnr/pppppppp/8/8/8/PPPPPPPP/RNBQKBNR w KQkq - 0 1").unwrap_err(),
    FenParseError::InvalidRankCount
  );
}

#[test]
fn test_from_fen_invalid_active_color() {
  assert_eq!(
    GameData::from_fen("rnbqkbnr/pppppppp/8/8/8/8/PPPPPPPP/RNBQKBNR x KQkq - 0 1").unwrap_err(),
    FenParseError::InvalidActiveColor
  );
}

#[test]
fn test_from_fen_invalid_castling_char() {
  assert_eq!(
    GameData::from_fen("rnbqkbnr/pppppppp/8/8/8/8/PPPPPPPP/RNBQKBNR w KQXkq - 0 1").unwrap_err(),
    FenParseError::InvalidCastling
  );
}

#[test]
fn test_from_fen_invalid_en_passant_square() {
  // Invalid square "i9"
  assert_eq!(
    GameData::from_fen("rnbqkbnr/pppppppp/8/8/8/8/PPPPPPPP/RNBQKBNR w KQkq i9 0 1").unwrap_err(),
    FenParseError::InvalidEnPassantSquare
  );
}

#[test]
fn test_from_fen_invalid_en_passant_rank() {
  // En passant can only be on rank 3 or 6
  assert_eq!(
    GameData::from_fen("rnbqkbnr/pppppppp/8/8/8/8/PPPPPPPP/RNBQKBNR w KQkq e4 0 1").unwrap_err(),
    FenParseError::InvalidEnPassantSquare
  );
}

#[test]
fn test_from_fen_invalid_halfmove_clock() {
  assert_eq!(
    GameData::from_fen("rnbqkbnr/pppppppp/8/8/8/8/PPPPPPPP/RNBQKBNR w KQkq - a 1").unwrap_err(),
    FenParseError::ExpectedNumber
  );
}

#[test]
fn test_from_fen_invalid_fullmove_number() {
  assert_eq!(
    GameData::from_fen("rnbqkbnr/pppppppp/8/8/8/8/PPPPPPPP/RNBQKBNR w KQkq - 0 b").unwrap_err(),
    FenParseError::ExpectedNumber
  );
}

#[test]
fn test_from_fen_zero_fullmove_number() {
  // Fullmove number must be 1 or greater
  assert_eq!(
    GameData::from_fen("rnbqkbnr/pppppppp/8/8/8/8/PPPPPPPP/RNBQKBNR w KQkq - 0 0").unwrap_err(),
    FenParseError::InvalidFullmoveNumber
  );
}

#[test]
fn test_from_fen_invalid_en_passant_context_no_pawn() {
  // En passant square e6 but no black pawn on e5
  assert_eq!(
    GameData::from_fen("rnbqkbnr/pppp1ppp/8/8/4P3/8/PPPP1PPP/RNBQKBNR w KQkq e6 0 2")
      .unwrap_err(),
    FenParseError::InvalidEnPassantContext
  );
}

#[test]
fn test_from_fen_invalid_en_passant_context_no_attacker() {
  // En passant square e6 with black pawn on e5 but no white pawn to capture
  assert_eq!(
    GameData::from_fen("rnbqkbnr/pppp1ppp/8/4p3/8/8/PPPP1PPP/RNBQKBNR w KQkq e6 0 2")
      .unwrap_err(),
    FenParseError::InvalidEnPassantContext
  );
}

#[test]
fn test_from_fen_invalid_en_passant_context_wrong_side() {
  // Black to move but en passant on rank 6 (should be rank 3)
  assert_eq!(
    GameData::from_fen("rnbqkbnr/pppp1ppp/8/3pP3/8/8/PPPP1PPP/RNBQKBNR b KQkq e6 0 2")
      .unwrap_err(),
    FenParseError::InvalidEnPassantContext
  );
}

#[test]
fn test_from_fen_invalid_en_passant_target_occupied() {
  // En passant target square occupied by a piece
  assert_eq!(
    GameData::from_fen("rnbqkbnr/pppp1ppp/4P3/3p4/8/8/PPPP1PPP/RNBQKBNR w KQkq e6 0 2")
      .unwrap_err(),
    FenParseError::InvalidEnPassantContext
  );
}

#[test]
fn test_from_fen_valid_en_passant_white() {
  // Valid en passant: white to move, black pawn on d5, white pawn on e5
  assert!(
    GameData::from_fen("rnbqkbnr/ppp1pppp/8/3pP3/8/8/PPPP1PPP/RNBQKBNR w KQkq d6 0 2").is_ok()
  );
}

#[test]
fn test_from_fen_valid_en_passant_black() {
  // Valid en passant: black to move, white pawn on e4, black pawn on d4
  assert!(
    GameData::from_fen("rnbqkbnr/ppppp1pp/8/8/3pP3/8/PPPP1PPP/RNBQKBNR b KQkq e3 0 2").is_ok()
  );
}
