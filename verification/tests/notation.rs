use lumifox_chess::errors::MoveParseError;
use lumifox_chess::model::piecemove::{PieceMove, PromotionType};
use lumifox_chess::notation::{
  compress_rank, compress_rank_runtime, parse_uci_move, square_to_index,
};

#[test]
fn coordinate_moves_parse() {
  assert_eq!(
    PieceMove::from_str("e2e4"),
    Ok(PieceMove::new(12, 28, false, None))
  );
  assert_eq!(
    PieceMove::from_str("e7e8q"),
    Ok(PieceMove::new(52, 60, false, Some(PromotionType::Queen)))
  );
  assert_eq!(
    PieceMove::from_str("a7a8n"),
    Ok(PieceMove::new(48, 56, false, Some(PromotionType::Knight)))
  );
  assert_eq!(
    PieceMove::from_str("h2h1r"),
    Ok(PieceMove::new(15, 7, false, Some(PromotionType::Rook)))
  );
  assert_eq!(
    PieceMove::from_str("b7c8b"),
    Ok(PieceMove::new(49, 58, false, Some(PromotionType::Bishop)))
  );
}

#[test]
fn malformed_moves_are_rejected() {
  assert_eq!(PieceMove::from_str(""), Err(MoveParseError::TooShort));
  assert_eq!(PieceMove::from_str("e2e"), Err(MoveParseError::TooShort));
  assert_eq!(PieceMove::from_str("i2e4"), Err(MoveParseError::InvalidFromFile));
  assert_eq!(PieceMove::from_str("e9e4"), Err(MoveParseError::InvalidFromRank));
  assert_eq!(PieceMove::from_str("e2z4"), Err(MoveParseError::InvalidToFile));
  assert_eq!(PieceMove::from_str("e2e0"), Err(MoveParseError::InvalidToRank));
  assert_eq!(
    PieceMove::from_str("e7e8k"),
    Err(MoveParseError::InvalidPromotionPiece)
  );
  assert_eq!(
    PieceMove::from_str("e7e8qq"),
    Err(MoveParseError::InvalidPromotionPiece)
  );
  assert_eq!(PieceMove::from_str("e2e2"), Err(MoveParseError::OutOfBounds));
  assert_eq!(PieceMove::from_str("0000"), Err(MoveParseError::InvalidFromFile));
}

#[test]
fn square_literals() {
  assert_eq!(square_to_index("a1"), 0);
  assert_eq!(square_to_index("e4"), 28);
  assert_eq!(square_to_index("h8"), 63);
}

#[test]
fn move_literals() {
  assert_eq!(parse_uci_move("e2e4"), (12, 28, false, None));
  assert_eq!(parse_uci_move("e4xd5"), (28, 35, true, None));
  assert_eq!(parse_uci_move("e7e8q"), (52, 60, false, Some(0)));
  assert_eq!(parse_uci_move("e7e8R"), (52, 60, false, Some(1)));
  assert_eq!(parse_uci_move("e7xd8b"), (52, 59, true, Some(2)));
  assert_eq!(parse_uci_move("g7g8N"), (54, 62, false, Some(3)));
}

#[test]
fn ranks_are_compressed() {
  assert_eq!(compress_rank("r..k"), "r..k");
  assert_eq!(compress_rank_runtime("........"), "8");
  assert_eq!(compress_rank_runtime("r..k...r"), "r2k3r");
  assert_eq!(compress_rank_runtime("rnbqkbnr"), "rnbqkbnr");
  assert_eq!(compress_rank_runtime(". P  p."), "2P2p1");
  assert_eq!(compress_rank_runtime(""), "");
  assert_eq!(compress_rank_runtime("............"), "12");
}
