use lumifox_chess::legal::checker::LegalChecker;
use lumifox_chess::model::gameboard::GameBoard;
use lumifox_chess::model::gamedata::GameData;
use lumifox_chess::model::piecemove::PieceMove;
use lumifox_chess::movegen::generate_moves;

fn position(fen: &str) -> GameBoard {
  GameData::from_fen(fen).unwrap().board
}

fn legal_moves(board: &GameBoard) -> Vec<PieceMove> {
  let (moves, count) = generate_moves(board);
  assert_eq!(count, moves.len());
  moves
    .iter()
    .copied()
    .filter(|m| board.is_move_legal(m))
    .collect()
}

fn perft(board: &GameBoard, depth: u32) -> u64 {
  if depth == 0 {
    return 1;
  }
  let mut nodes = 0;
  for m in legal_moves(board) {
    let mut next = *board;
    assert!(next.move_piece(&m).is_some());
    nodes += perft(&next, depth - 1);
  }
  nodes
}

const START: &str = "rnbqkbnr/pppppppp/8/8/8/8/PPPPPPPP/RNBQKBNR w KQkq - 0 1";
const KIWIPETE: &str = "r3k2r/p1ppqpb1/bn2pnp1/3PN3/1p2P3/2N2Q1p/PPPBBPPP/R3K2R w KQkq - 0 1";

#[test]
fn perft_start_depth_1() {
  assert_eq!(perft(&position(START), 1), 20);
}

#[test]
fn perft_start_depth_2() {
  assert_eq!(perft(&position(START), 2), 400);
}

#[test]
fn perft_kiwipete_depth_1() {
  assert_eq!(perft(&position(KIWIPETE), 1), 48);
}

#[test]
fn generated_moves_are_distinct() {
  for fen in [START, KIWIPETE, "8/P7/8/8/8/8/7p/K1k5 w - - 0 1"] {
    let (moves, count) = generate_moves(&position(fen));
    for i in 0..count {
      for j in (i + 1)..count {
        let (a, b) = (moves[i], moves[j]);
        assert!(
          !(a.from_square() == b.from_square()
            && a.to_square() == b.to_square()
            && a.promotion_type() == b.promotion_type())
        );
      }
    }
  }
}

#[test]
fn checker_agrees_with_board() {
  let board = position(KIWIPETE);
  let checker = LegalChecker::new(&board);
  let (moves, _) = generate_moves(&board);
  for m in moves.iter() {
    assert_eq!(checker.is_move_legal(m), board.is_move_legal(m));
  }
}

#[test]
fn illegal_move_leaves_position_unchanged() {
  let mut board = position(START);
  let before = board;
  let illegal = PieceMove::new(12, 36, false, None);
  assert!(board.move_piece(&illegal).is_none());
  assert_eq!(board.pawns.raw(), before.pawns.raw());
  assert_eq!(board.colour.raw(), before.colour.raw());
  assert_eq!(board.playing, before.playing);
}

#[test]
fn legal_move_flips_the_turn() {
  let mut board = position(START);
  let e2e4 = PieceMove::new(12, 28, false, None);
  assert!(board.move_piece(&e2e4).is_some());
  assert!(!board.playing);
  assert!(board.pawns.get_bit(28));
  assert!(!board.pawns.get_bit(12));
}
