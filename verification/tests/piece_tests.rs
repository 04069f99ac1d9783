use blockfall::piece::{
    HDirection, KickData, Piece, PieceColor, PieceShape, RotationAction, VDirection,
    shape_dimensions, shape_top_left,
};

fn empty_matrix(width: usize, height: usize) -> Vec<Vec<PieceColor>> {
    let mut m = Vec::new();
    for _ in 0..height {
        let mut row = Vec::new();
        for _ in 0..width {
            row.push(PieceColor::Empty);
        }
        m.push(row);
    }
    m
}

/// A 2x2 square in every rotation state.
fn square_shape() -> PieceShape {
    [
        vec![(0i8, 0i8), (1, 0), (0, 1), (1, 1)],
        vec![(0, 0), (1, 0), (0, 1), (1, 1)],
        vec![(0, 0), (1, 0), (0, 1), (1, 1)],
        vec![(0, 0), (1, 0), (0, 1), (1, 1)],
    ]
}

/// Horizontal bar at rotation 0 and 2, vertical at 1 and 3.
fn bar_shape() -> PieceShape {
    [
        vec![(0, 0), (1, 0), (2, 0), (3, 0)],
        vec![(0, 0), (0, 1), (0, 2), (0, 3)],
        vec![(0, 0), (1, 0), (2, 0), (3, 0)],
        vec![(0, 0), (0, 1), (0, 2), (0, 3)],
    ]
}

/// One kick table whose candidates for every transition are (2, 0) then
/// (-1, 0).
fn test_kick_table() -> KickData {
    let entry = || vec![(2i8, 0i8), (-1i8, 0i8)];
    [
        [entry(), entry(), entry()],
        [entry(), entry(), entry()],
        [entry(), entry(), entry()],
        [entry(), entry(), entry()],
    ]
}

#[test]
fn zero_delta_query_is_false_in_valid_state() {
    let m = empty_matrix(6, 8);
    let mut p = Piece::new(square_shape(), PieceColor::Yellow, 0, false);
    p.position.col = 2;
    p.position.row = 3;
    // A valid game state never collides with itself.
    assert!(!p.check_collision(&m, 0, 0, 0));
}

#[test]
fn collision_with_walls_and_stack() {
    let mut m = empty_matrix(4, 4);
    m[3][0] = PieceColor::Red;
    let mut p = Piece::new(square_shape(), PieceColor::Yellow, 0, false);
    // Out the left wall.
    assert!(p.check_collision(&m, -1, 0, 0));
    // Onto the occupied cell.
    p.position.col = 0;
    p.position.row = 2;
    assert!(p.check_collision(&m, 0, 1, 0));
    // In the clear.
    p.position.col = 2;
    p.position.row = 0;
    assert!(!p.check_collision(&m, 0, 0, 0));
}

#[test]
fn movement_updates_position_and_failure_is_a_noop() {
    let m = empty_matrix(4, 6);
    let mut p = Piece::new(square_shape(), PieceColor::Yellow, 0, false);
    p.update_ghost(&m);
    assert!(p.movement(&m, HDirection::Right, VDirection::Idle));
    assert_eq!(p.position.col, 1);
    assert!(p.movement(&m, HDirection::Right, VDirection::Idle));
    assert_eq!(p.position.col, 2);
    // The square sits at columns 2..4 now; another step right must fail.
    assert!(!p.movement(&m, HDirection::Right, VDirection::Idle));
    assert_eq!(p.position.col, 2);
    assert_eq!(p.position.row, 0);
}

#[test]
fn ghost_row_and_hard_drop_never_overlap_stack() {
    let mut m = empty_matrix(4, 8);
    m[6][0] = PieceColor::Red;
    m[7][0] = PieceColor::Red;
    let mut p = Piece::new(square_shape(), PieceColor::Yellow, 0, false);
    p.update_ghost(&m);
    // Columns 0..2: the stack at rows 6..8 blocks column 0, so the piece
    // may fall until its bottom row is row 5: ghost row 4.
    assert_eq!(p.ghost_position, 4);
    p.hard_drop();
    assert_eq!(p.position.row, 4);
    // Every cell the piece would lock into is empty.
    for (c, r) in p.get_orientation().iter() {
        let col = (*c as i32 + p.position.col) as usize;
        let row = (*r as i32 + p.position.row) as usize;
        assert_eq!(m[row][col], PieceColor::Empty);
    }
    // One more row down would collide: the ghost row is the lowest
    // reachable row.
    assert!(p.check_collision(&m, 0, 1, 0));
}

#[test]
fn lock_stamps_the_piece_colors() {
    let mut m = empty_matrix(4, 4);
    let mut p = Piece::new(square_shape(), PieceColor::Green, 0, false);
    p.position.col = 1;
    p.position.row = 2;
    p.lock(&mut m);
    assert_eq!(m[2][1], PieceColor::Green);
    assert_eq!(m[2][2], PieceColor::Green);
    assert_eq!(m[3][1], PieceColor::Green);
    assert_eq!(m[3][2], PieceColor::Green);
    assert_eq!(m[0][0], PieceColor::Empty);
}

#[test]
fn rotation_in_place_when_free() {
    let m = empty_matrix(6, 6);
    let kicks = vec![test_kick_table()];
    let mut p = Piece::new(bar_shape(), PieceColor::Cyan, 0, false);
    p.position.col = 1;
    p.position.row = 0;
    p.update_ghost(&m);
    assert!(p.rotate(&m, &kicks, RotationAction::RotateCW));
    assert_eq!(p.rotation, 1);
    // In-place rotation: the position did not move.
    assert_eq!(p.position.col, 1);
    assert_eq!(p.position.row, 0);
}

#[test]
fn rotation_applies_exactly_the_first_fitting_kick() {
    // A vertical bar near the right wall of a 7-wide board: rotating to
    // horizontal in place leaves the board, the first kick candidate
    // (2, 0) is even further out, and the second (-1, 0) fits.  The piece
    // must land exactly one column left -- never on an untested offset.
    let m = empty_matrix(7, 6);
    let kicks = vec![test_kick_table()];
    let mut p = Piece::new(bar_shape(), PieceColor::Cyan, 0, false);
    p.rotation = 1;
    p.position.col = 4;
    p.position.row = 0;
    p.update_ghost(&m);
    assert!(p.rotate(&m, &kicks, RotationAction::RotateCCW));
    assert_eq!(p.rotation, 0);
    assert_eq!(p.position.col, 3);
    assert_eq!(p.position.row, 0);
}

#[test]
fn rotation_fails_when_no_candidate_fits() {
    // A horizontal bar on a 4-wide board cannot become vertical at the
    // bottom row, and the single right-kick cannot help.
    let mut m = empty_matrix(4, 4);
    for j in 0..4 {
        m[0][j] = PieceColor::Red;
        m[1][j] = PieceColor::Red;
        m[2][j] = PieceColor::Red;
    }
    m[3][0] = PieceColor::Empty;
    m[3][1] = PieceColor::Empty;
    m[3][2] = PieceColor::Empty;
    m[3][3] = PieceColor::Empty;
    let kicks = vec![test_kick_table()];
    let mut p = Piece::new(bar_shape(), PieceColor::Cyan, 0, false);
    p.position.col = 0;
    p.position.row = 3;
    p.update_ghost(&m);
    let before_col = p.position.col;
    let before_rot = p.rotation;
    assert!(!p.rotate(&m, &kicks, RotationAction::RotateCW));
    assert_eq!(p.position.col, before_col);
    assert_eq!(p.rotation, before_rot);
}

#[test]
fn spin_bonus_needs_three_sided_wedge() {
    // A single-cell shape in a pocket: blocked up, left and right.
    let single: PieceShape = [vec![(0, 0)], vec![(0, 0)], vec![(0, 0)], vec![(0, 0)]];
    let mut m = empty_matrix(3, 3);
    m[2][0] = PieceColor::Red;
    m[2][2] = PieceColor::Red;
    m[1][1] = PieceColor::Red;
    let mut p = Piece::new(single, PieceColor::Magenta, 0, true);
    p.position.col = 1;
    p.position.row = 2;
    p.last_move_was_rotation = true;
    assert!(p.check_bonus(&m));
    p.last_move_was_rotation = false;
    assert!(!p.check_bonus(&m));
}

#[test]
fn shape_extent_helpers_use_the_tight_box() {
    let cells = vec![(1i8, 2i8), (2, 2), (3, 2), (2, 3)];
    assert_eq!(shape_dimensions(&cells), (3, 2));
    assert_eq!(shape_top_left(&cells), (1, 2));
}

#[test]
fn reset_position_centers_by_tight_box() {
    let m = empty_matrix(10, 10);
    let mut p = Piece::new(bar_shape(), PieceColor::Cyan, 0, false);
    p.position.col = 7;
    p.position.row = 5;
    p.rotation = 1;
    p.reset_position(&m);
    assert_eq!(p.rotation, 0);
    assert_eq!(p.position.row, 0);
    // Width 4 on a 10-wide board: centered at column (10 - 4) / 2 = 3.
    assert_eq!(p.position.col, 3);
}
