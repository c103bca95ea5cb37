use lumifox_chess::model::bitboard::BitBoard;
use lumifox_chess::model::board::Board;
use lumifox_chess::utils::bitboard::{Direction, RayCast};

#[test]
fn rays_run_to_the_first_occupied_square() {
  // Occupied: a5 (32) and e1 (4).
  let occupied = BitBoard::new((1 << 32) | (1 << 4));
  assert_eq!(occupied.ray_cast(0, Direction::Down), vec![8, 16, 24]);
  assert_eq!(occupied.ray_attack(0, Direction::Down), 24);
  assert_eq!(occupied.ray_cast(0, Direction::Right), vec![1, 2, 3]);
  assert_eq!(occupied.ray_attack(0, Direction::Right), 3);
  assert_eq!(occupied.ray_cast(24, Direction::Down), Vec::<u8>::new());
  assert_eq!(occupied.ray_attack(24, Direction::Down), 24);
  assert_eq!(
    occupied.ray_cast(0, Direction::DownRight),
    vec![9, 18, 27, 36, 45, 54, 63]
  );
  assert_eq!(occupied.ray_attack(0, Direction::DownRight), 63);
}

#[test]
fn rays_do_not_stop_at_the_edge_of_a_rank() {
  let empty = BitBoard::new(0);
  // From g1 to the right the ray runs on into the next ranks.
  let squares = empty.ray_cast(6, Direction::Right);
  assert_eq!(squares.len(), 57);
  assert_eq!(squares[0], 7);
  assert_eq!(squares[1], 8);
  assert_eq!(empty.ray_attack(6, Direction::Right), 63);
  assert_eq!(empty.ray_cast(55, Direction::DownLeft), vec![62]);
}

#[test]
fn steps_with_a_negative_offset_lead_off_the_board() {
  let empty = BitBoard::new(0);
  for direction in [
    Direction::Up,
    Direction::Left,
    Direction::UpLeft,
    Direction::UpRight,
  ] {
    assert!(empty.ray_cast(36, direction).is_empty());
    assert_eq!(empty.ray_attack(36, direction), 36);
    assert!(empty.ray_cast(3, direction).is_empty());
  }
  assert_eq!(Direction::Up.step(), 248);
  assert_eq!(Direction::Left.step(), 255);
  assert_eq!(Direction::UpLeft.step(), 247);
  assert_eq!(Direction::UpRight.step(), 249);
  assert_eq!(Direction::Down.step(), 8);
  assert_eq!(Direction::Right.step(), 1);
  assert_eq!(Direction::DownLeft.step(), 7);
  assert_eq!(Direction::DownRight.step(), 9);
  // Squares past the board start no ray.
  assert!(empty.ray_cast(200, Direction::Right).is_empty());
  assert_eq!(empty.ray_attack(250, Direction::Down), 250);
}

#[test]
fn a_board_casts_rays_over_its_occupancy() {
  let mut board = Board::from_fen("rnbqkbnr/pppppppp/8/8/8/8/PPPPPPPP/RNBQKBNR w KQ - 0 1");
  // Reading a board leaves the occupancy empty.
  assert_eq!(board.ray_attack(0, Direction::Down), 56);
  board.combined.set_bit(16);
  assert_eq!(board.ray_cast(0, Direction::Down), vec![8]);
  assert_eq!(board.ray_attack(0, Direction::Down), 8);
}
