use lumifox_chess::legal::attack::{
  is_square_attacked, is_square_attacked_bishop, is_square_attacked_king,
  is_square_attacked_knight, is_square_attacked_pawn, is_square_attacked_rook,
  is_square_attacked_sliding,
};
use lumifox_chess::legal::batch::BatchLegalContext;
use lumifox_chess::model::bitboard::BitBoard;
use lumifox_chess::model::gameboard::{GameBoard, PieceType};
use lumifox_chess::model::gamedata::GameData;
use lumifox_chess::model::piecemove::{PieceMove, PromotionType};
use lumifox_chess::movegen::generate_moves;
use lumifox_chess::movegen::king::generate_king_moves;
use lumifox_chess::movegen::pawn::generate_pawn_moves;

fn position(fen: &str) -> GameBoard {
  GameData::from_fen(fen).unwrap().board
}

#[test]
fn castling_needs_right_empty_path_and_safe_squares() {
  let open = "r3k2r/pppppppp/8/8/8/8/PPPPPPPP/R3K2R w KQkq - 0 1";
  let e1g1 = PieceMove::new_castling(4, 6);
  let e1c1 = PieceMove::new_castling(4, 2);
  assert!(position(open).is_move_legal(&e1g1));
  assert!(position(open).is_move_legal(&e1c1));
  // A piece on d1 blocks the queen's side only.
  let blocked = position("r3k2r/pppppppp/8/8/8/8/PPPPPPPP/R2QK2R w KQkq - 0 1");
  assert!(!blocked.is_move_legal(&e1c1));
  assert!(blocked.is_move_legal(&e1g1));
  // A piece on b1 blocks the queen's side as well, though the king does not pass it.
  let far = position("r3k2r/pppppppp/8/8/8/8/PPPPPPPP/RN2K2R w KQkq - 0 1");
  assert!(!far.is_move_legal(&e1c1));
  // Without the right.
  let no_right = position("r3k2r/pppppppp/8/8/8/8/PPPPPPPP/R3K2R w Qkq - 0 1");
  assert!(!no_right.is_move_legal(&e1g1));
  assert!(no_right.is_move_legal(&e1c1));
  // The king's square, the square crossed or the landing square attacked.
  let in_check = position("r3k2r/pppp1ppp/8/8/8/4r3/PPPP1PPP/R3K2R w KQkq - 0 1");
  assert!(!in_check.is_move_legal(&e1g1));
  assert!(!in_check.is_move_legal(&e1c1));
  let crossed = position("r3k2r/ppppp1pp/8/8/8/5r2/PPPPP1PP/R3K2R w KQkq - 0 1");
  assert!(!crossed.is_move_legal(&e1g1));
  assert!(crossed.is_move_legal(&e1c1));
  let landing = position("r3k2r/pppppp1p/8/8/8/6r1/PPPPPP1P/R3K2R w KQkq - 0 1");
  assert!(!landing.is_move_legal(&e1g1));
  assert!(landing.is_move_legal(&e1c1));
  // An attack on b1, which the king does not touch, does not matter.
  let beside = position("r3k2r/p1pppppp/8/8/8/1r6/P1PPPPPP/R3K2R w KQkq - 0 1");
  assert!(beside.is_move_legal(&e1c1));
  // Black castles on the eighth rank.
  let black = position("r3k2r/pppppppp/8/8/8/8/PPPPPPPP/R3K2R b KQkq - 0 1");
  assert!(black.is_move_legal(&PieceMove::new_castling(60, 62)));
  assert!(black.is_move_legal(&PieceMove::new_castling(60, 58)));
  assert!(!black.is_move_legal(&e1g1));
}

#[test]
fn the_generator_castles_only_with_king_and_rook_in_place() {
  let castles = |fen: &str| -> Vec<(u8, u8)> {
    let (moves, count) = generate_king_moves(&position(fen));
    assert_eq!(count, moves.len());
    moves
      .iter()
      .filter(|m| m.from_square().abs_diff(m.to_square()) == 2)
      .map(|m| (m.from_square(), m.to_square()))
      .collect()
  };
  assert_eq!(
    castles("r3k2r/pppppppp/8/8/8/8/PPPPPPPP/R3K2R w KQkq - 0 1"),
    vec![(4, 2), (4, 6)]
  );
  assert_eq!(
    castles("r3k2r/pppppppp/8/8/8/8/PPPPPPPP/R3K2R b KQkq - 0 1"),
    vec![(60, 58), (60, 62)]
  );
  // Each right stands for its own side.
  assert_eq!(
    castles("r3k2r/pppppppp/8/8/8/8/PPPPPPPP/R3K2R w K - 0 1"),
    vec![(4, 6)]
  );
  assert_eq!(
    castles("r3k2r/pppppppp/8/8/8/8/PPPPPPPP/R3K2R w Q - 0 1"),
    vec![(4, 2)]
  );
  assert_eq!(
    castles("r3k2r/pppppppp/8/8/8/8/PPPPPPPP/R3K2R b k - 0 1"),
    vec![(60, 62)]
  );
  // No rook on h1; no king on e1.
  assert_eq!(
    castles("r3k2r/pppppppp/8/8/8/8/PPPPPPPP/R3K3 w KQ - 0 1"),
    vec![(4, 2)]
  );
  assert!(castles("r3k2r/pppppppp/8/8/8/8/PPPPPPPP/R2K3R w KQ - 0 1").is_empty());
  // A rook of the other side does not serve.
  assert!(castles("4k3/8/8/8/8/8/8/4K2r w K - 0 1").is_empty());
  // The king may not castle out of, through or into an attack.
  assert!(castles("4k3/8/8/8/8/4r3/8/R3K2R w KQ - 0 1").is_empty());
  assert_eq!(castles("4k3/8/8/8/8/5r2/8/R3K2R w KQ - 0 1"), vec![(4, 2)]);
  assert_eq!(castles("4k3/8/8/8/8/2r5/8/R3K2R w KQ - 0 1"), vec![(4, 6)]);
}

#[test]
fn promotion_comes_in_all_four_pieces_and_never_without() {
  // White pawns on a7 and g7; black rook on h8.
  let board = position("7r/P5P1/8/8/8/8/8/K6k w - - 0 1");
  let (moves, count) = generate_pawn_moves(&board);
  let to = |from: u8, to: u8, capture: bool| -> Vec<Option<PromotionType>> {
    moves[..count]
      .iter()
      .filter(|m| m.from_square() == from && m.to_square() == to && m.is_capture() == capture)
      .map(|m| m.promotion_type())
      .collect()
  };
  let all = vec![
    Some(PromotionType::Queen),
    Some(PromotionType::Rook),
    Some(PromotionType::Bishop),
    Some(PromotionType::Knight),
  ];
  assert_eq!(to(48, 56, false), all);
  assert_eq!(to(54, 62, false), all);
  assert_eq!(to(54, 63, true), all);
  assert_eq!(count, 12);
  // Black promotes on the first rank.
  let board = position("k6K/8/8/8/8/8/p7/1R6 b - - 0 1");
  let (moves, count) = generate_pawn_moves(&board);
  assert_eq!(count, 8);
  assert!(moves.iter().all(|m| m.is_promotion()));
  assert_eq!(moves.iter().filter(|m| m.is_capture()).count(), 4);
  // Every promotion move is legal as generated, and illegal without the flag.
  for m in moves.iter() {
    assert!(board.is_move_legal(m));
    let bare = PieceMove::new(m.from_square(), m.to_square(), m.is_capture(), None);
    assert!(!board.is_move_legal(&bare));
  }
}

#[test]
fn the_capture_flag_follows_the_board() {
  for fen in [
    "r3k2r/p1ppqpb1/bn2pnp1/3PN3/1p2P3/2N2Q1p/PPPBBPPP/R3K2R w KQkq - 0 1",
    "rnbqkbnr/ppp1pppp/8/3pP3/8/8/PPPP1PPP/RNBQKBNR w KQkq d6 0 3",
    "rnbqkbnr/pppp1ppp/8/8/3Pp3/8/PPP1PPPP/RNBQKBNR b KQkq d3 0 2",
    "7r/P5P1/8/8/8/8/8/K6k w - - 0 1",
  ] {
    let board = position(fen);
    let (moves, _) = generate_moves(&board);
    let enemies = board.combined_coloured(board.playing);
    for m in moves.iter() {
      let takes = enemies.get_bit(m.to_square());
      let en_passant = board.get_piece(m.from_square()) == Some(PieceType::Pawn)
        && !board.en_passant.is_null()
        && m.to_square() == board.en_passant.to_square();
      assert_eq!(m.is_capture(), takes || en_passant, "{m:?} in {fen}");
    }
  }
}

#[test]
fn no_legal_move_leaves_the_king_attacked() {
  for fen in [
    "r3k2r/p1ppqpb1/bn2pnp1/3PN3/1p2P3/2N2Q1p/PPPBBPPP/R3K2R w KQkq - 0 1",
    // The knight on e2 is pinned; the king is in check from the queen on h4.
    "4k3/8/8/8/7q/8/4N3/4r1K1 w - - 0 1",
    "rnb1kbnr/pppp1ppp/8/4p3/6Pq/5P2/PPPPP2P/RNBQKBNR w KQkq - 1 3",
  ] {
    let board = position(fen);
    let (moves, _) = generate_moves(&board);
    let mut legal = 0;
    for m in moves.iter() {
      let mut after = board;
      if after.move_piece(m).is_some() {
        legal += 1;
        // The mover's king is looked at from the mover's side.
        after.playing = board.playing;
        let king = after.find_king(board.playing).unwrap();
        assert!(!is_square_attacked(&after, king));
      } else {
        assert!(!board.is_move_legal(m));
      }
    }
    if fen.starts_with("rnb1kbnr") {
      // Checkmate.
      assert_eq!(legal, 0);
    }
  }
}

#[test]
fn en_passant_takes_the_pawn_behind_the_target() {
  let mut board = position("rnbqkbnr/ppp1pppp/8/3pP3/8/8/PPPP1PPP/RNBQKBNR w KQkq d6 0 3");
  let capture = PieceMove::new_en_passant(36, 43);
  assert!(board.is_move_legal(&capture));
  assert_eq!(board.move_piece(&capture), Some(()));
  assert_eq!(board.get_piece(43), Some(PieceType::Pawn));
  assert!(board.colour.get_bit(43));
  assert_eq!(board.get_piece(35), None);
  assert_eq!(board.get_piece(36), None);
  assert!(!board.playing);
  // Without a target there is no en passant.
  let board = position("rnbqkbnr/ppp1pppp/8/3pP3/8/8/PPPP1PPP/RNBQKBNR w KQkq - 0 3");
  assert!(!board.is_move_legal(&capture));
  // A pawn captures one rank ahead only.
  let board = position("4k3/8/8/1p6/8/8/P7/4K3 w - - 0 1");
  assert!(!board.is_move_legal(&PieceMove::new(8, 33, true, None)));
  let board = position("4k3/8/8/8/8/1p6/P7/4K3 w - - 0 1");
  assert!(board.is_move_legal(&PieceMove::new(8, 17, true, None)));
}

#[test]
fn promotion_puts_the_chosen_piece() {
  let mut board = position("8/P7/8/8/8/8/8/K6k w - - 0 1");
  let promote = PieceMove::new(48, 56, false, Some(PromotionType::Knight));
  assert_eq!(board.move_piece(&promote), Some(()));
  assert_eq!(board.get_piece(56), Some(PieceType::Knight));
  assert!(board.colour.get_bit(56));
  assert_eq!(board.get_piece(48), None);
}

#[test]
fn squares_are_set_and_cleared() {
  let mut board = GameBoard::new();
  assert!(board.playing);
  assert_eq!(board.castling, 0);
  assert!(board.en_passant.is_null());
  assert!(board.combined().is_empty());
  board.set_square(27, PieceType::Queen, false);
  board.set_square(0, PieceType::King, true);
  board.set_square(63, PieceType::King, false);
  board.set_square(1, PieceType::King, true);
  assert_eq!(board.get_piece(27), Some(PieceType::Queen));
  assert_eq!(board.combined().to_squares(), vec![0, 1, 27, 63]);
  // The pieces whose colour bit differs from the argument.
  assert_eq!(board.combined_coloured(true).to_squares(), vec![27, 63]);
  assert_eq!(board.combined_coloured(false).to_squares(), vec![0, 1]);
  // The lowest king of a colour.
  assert_eq!(board.find_king(true), Some(0));
  assert_eq!(board.find_king(false), Some(63));
  board.set_square(27, PieceType::Rook, true);
  assert_eq!(board.get_piece(27), Some(PieceType::Rook));
  assert!(!board.queens.get_bit(27));
  assert!(board.colour.get_bit(27));
  assert_eq!(board.clear_square(27), Some(PieceType::Rook));
  assert_eq!(board.clear_square(27), None);
  assert!(!board.colour.get_bit(27));
  assert_eq!(board.clear_square(63), Some(PieceType::King));
  assert_eq!(board.find_king(false), None);
  board.reset();
  assert!(board.combined().is_empty());
  assert_eq!(board.find_king(true), None);
}

#[test]
fn each_kind_of_attacker_is_seen() {
  // Black to move; the white pieces attack.
  let board = position("4k3/8/8/8/8/8/3P4/R3K1N1 b - - 0 1");
  assert!(is_square_attacked_pawn(&board, 18));
  assert!(is_square_attacked_pawn(&board, 20));
  assert!(!is_square_attacked_pawn(&board, 19));
  assert!(is_square_attacked_knight(&board, 21));
  assert!(is_square_attacked_knight(&board, 12));
  assert!(!is_square_attacked_knight(&board, 22));
  assert!(is_square_attacked_king(&board, 13));
  assert!(!is_square_attacked_king(&board, 4));
  assert!(is_square_attacked_rook(&board, 56));
  assert!(is_square_attacked_rook(&board, 3));
  assert!(!is_square_attacked_rook(&board, 5));
  assert!(!is_square_attacked_bishop(&board, 9));
  let rooks = BitBoard::new(1);
  assert!(is_square_attacked_sliding(&board, 2, &[1, -1, 8, -8], rooks, true));
  assert!(!is_square_attacked_sliding(&board, 2, &[1, 8, -8], rooks, true));
  assert!(!is_square_attacked_sliding(&board, 2, &[1, -1, 8, -8], rooks, false));
  // An offset that is no direction counts for nothing.
  assert!(!is_square_attacked_sliding(&board, 2, &[3, 0, 64], rooks, true));
  assert!(is_square_attacked_sliding(&board, 2, &[3, -1], rooks, true));
}

#[test]
fn the_batch_context_describes_the_position() {
  let board = position("4k3/8/8/8/8/8/3P4/R3K1N1 b - - 0 1");
  let context = BatchLegalContext::from_board(&board);
  assert_eq!(context.occ, board.combined().raw());
  assert_eq!(context.colour_mask, board.colour.raw());
  assert!(!context.playing);
  assert_eq!(context.opponent_pawns, 1 << 11);
  assert_eq!(context.opponent_knights, 1 << 6);
  assert_eq!(context.opponent_rooks, 1);
  assert_eq!(context.opponent_kings, 1 << 4);
  assert_eq!(context.opponent_bishops, 0);
  assert_eq!(context.opponent_queens, 0);
  for sq in 0..64u8 {
    let standing = board.combined_coloured(board.playing).get_bit(sq);
    assert_eq!(
      context.opponent_attacks & (1 << sq) != 0,
      is_square_attacked(&board, sq) || standing
    );
  }
  // The rook does not see past the king on e1, nor around the edge of the board.
  assert_eq!(context.opponent_attacks & (1 << 5), 1 << 5);
  assert_eq!(context.opponent_attacks & (1 << 7), 0);
  assert_eq!(context.opponent_attacks & (1 << 15), 0);
}
