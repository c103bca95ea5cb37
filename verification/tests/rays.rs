use lumifox_chess::constants::{
  A1, A2, A3, A4, A5, A6, A7, A8, B1, B2, B3, B5, B6, C2, C3, C4, C5, C6, C7, D3, D4, D5, D6, E2,
  E3, E4, E5, E6, F3, F5, F6, G7, H1, H8,
};
use lumifox_chess::model::rays::{
  between_mask, build_ray_for, king_moves, knight_moves, line_mask, pawn_attack_black,
  pawn_attack_white, pawn_push_black, pawn_push_white, rays, DIR_OFFSETS,
};

#[test]
fn rays_table_nonzero() {
  let mut found = 0;
  for sq in 0..64u8 {
    for d in 0..8usize {
      let val = rays(sq, d);
      found += (val != 0) as usize;
    }
  }
  assert!(found > 0);
}

// Helper to build mask from list of square indices
fn mask_from(indices: &[u8]) -> u64 {
  let mut m: u64 = 0;
  for &i in indices {
    m |= 1u64 << i;
  }
  m
}

#[test]
fn knight_moves_corners_and_center() {
  // A1 -> squares: B3, C2
  assert_eq!(knight_moves(A1), mask_from(&[B3, C2]));

  // D4 -> expected 8 knight destinations
  let expected = mask_from(&[E6, C6, E2, C2, F5, B5, F3, B3]);
  assert_eq!(knight_moves(D4), expected);
}

#[test]
fn king_moves_corner_and_center() {
  // A1 -> B1, A2, B2
  assert_eq!(king_moves(A1), mask_from(&[B1, A2, B2]));

  // D4 neighbors
  let expected = mask_from(&[C3, D3, E3, C4, E4, C5, D5, E5]);
  assert_eq!(king_moves(D4), expected);
}

#[test]
fn pawn_attack_and_push_masks() {
  // White pawn on C2 attacks B3 and D3
  assert_eq!(pawn_attack_white(C2), mask_from(&[B3, D3]));

  // Black pawn on C7 attacks B6 and D6
  assert_eq!(pawn_attack_black(C7), mask_from(&[B6, D6]));

  // Single pushes
  assert_eq!(pawn_push_white(A2), mask_from(&[A3])); // A2 -> A3
  assert_eq!(pawn_push_black(A7), mask_from(&[A6])); // A7 -> A6
}

#[test]
fn between_and_line_masks_diagonals_and_files() {
  // Between A1 and H8: B2..G7
  let between_diag = mask_from(&[B2, C3, D4, E5, F6, G7]);
  assert_eq!(between_mask(A1, H8), between_diag);

  // Line should include endpoints
  let line_diag = between_diag | mask_from(&[A1, H8]);
  assert_eq!(line_mask(A1, H8), line_diag);

  // File A: between A1 and A8: A2..A7
  let between_file = mask_from(&[A2, A3, A4, A5, A6, A7]);
  assert_eq!(between_mask(A1, A8), between_file);
  assert_eq!(line_mask(A1, A8), between_file | mask_from(&[A1, A8]));
}

#[test]
fn rays_stop_at_the_edge() {
  // From d4 to the right: e4 to h4.
  assert_eq!(build_ray_for(D4, 1), mask_from(&[28, 29, 30, 31]));
  // From a1 to the left and down: nothing.
  assert_eq!(build_ray_for(A1, -1), 0);
  assert_eq!(build_ray_for(A1, -8), 0);
  assert_eq!(build_ray_for(A1, -9), 0);
  // From h1 up and to the left: g2 to a8.
  assert_eq!(build_ray_for(H1, 7), mask_from(&[14, 21, 28, 35, 42, 49, 56]));
  for (i, d) in DIR_OFFSETS.iter().enumerate() {
    assert_eq!(rays(D4, i), build_ray_for(D4, *d));
  }
}

#[test]
fn masks_of_edge_squares() {
  assert_eq!(pawn_attack_white(A2), mask_from(&[B3]));
  assert_eq!(pawn_attack_white(H8), 0);
  assert_eq!(pawn_attack_black(A1), 0);
  assert_eq!(pawn_push_white(H8), 0);
  assert_eq!(pawn_push_black(A1), 0);
  assert_eq!(knight_moves(H8), mask_from(&[46, 53]));
  assert_eq!(king_moves(H8), mask_from(&[54, 55, 62]));
  // Neighbours and squares that no line joins have nothing between them.
  assert_eq!(between_mask(A1, B2), 0);
  assert_eq!(line_mask(A1, B2), 0);
  assert_eq!(between_mask(A1, C2), 0);
  assert_eq!(line_mask(A1, C2), 0);
  assert_eq!(line_mask(E4, E4), mask_from(&[E4]));
  assert_eq!(between_mask(H8, A1), between_mask(A1, H8));
}
