use blockfall::board::{filled_rows, remove_rows, resize_matrix};
use blockfall::piece::PieceColor;

fn occupied(m: &Vec<Vec<PieceColor>>) -> usize {
    let mut n = 0;
    for row in m.iter() {
        for c in row.iter() {
            if *c != PieceColor::Empty {
                n += 1;
            }
        }
    }
    n
}

fn empty_matrix(width: usize, height: usize) -> Vec<Vec<PieceColor>> {
    let mut m = Vec::new();
    for _ in 0..height {
        let mut row = Vec::new();
        for _ in 0..width {
            row.push(PieceColor::Empty);
        }
        m.push(row);
    }
    m
}

#[test]
fn filled_rows_detects_only_unbroken_rows() {
    let mut m = empty_matrix(4, 4);
    // Row 1 fully occupied.
    for j in 0..4 {
        m[1][j] = PieceColor::Red;
    }
    // Row 2 has a gap at column 1 but cells beyond the gap.
    m[2][0] = PieceColor::Blue;
    m[2][2] = PieceColor::Blue;
    m[2][3] = PieceColor::Blue;
    // Row 3 fully occupied.
    for j in 0..4 {
        m[3][j] = PieceColor::Green;
    }
    let full = filled_rows(&m);
    assert_eq!(full, vec![1, 3]);
}

#[test]
fn filled_rows_empty_board() {
    let m = empty_matrix(5, 3);
    assert!(filled_rows(&m).is_empty());
}

#[test]
fn clear_rows_empty_set_is_identity() {
    let mut m = empty_matrix(3, 3);
    m[2][0] = PieceColor::Cyan;
    let before = m.clone();
    remove_rows(&mut m, Vec::new());
    assert_eq!(m, before);
}

#[test]
fn clear_one_row_shifts_stack_down() {
    let mut m = empty_matrix(3, 4);
    // A full row at index 2, a marker above it and one below it.
    m[1][0] = PieceColor::Blue;
    for j in 0..3 {
        m[2][j] = PieceColor::Red;
    }
    m[3][1] = PieceColor::Green;
    let count_before = occupied(&m);
    remove_rows(&mut m, vec![2]);
    // Total occupied cells dropped by exactly the width.
    assert_eq!(occupied(&m) + 3, count_before);
    // The top row is fresh and empty.
    assert!(m[0].iter().all(|c| *c == PieceColor::Empty));
    // The marker above the cleared row moved down one row.
    assert_eq!(m[2][0], PieceColor::Blue);
    // The row below the cleared row is untouched.
    assert_eq!(m[3][1], PieceColor::Green);
}

#[test]
fn resize_grow_preserves_cell_count() {
    let mut m = empty_matrix(4, 4);
    m[3][0] = PieceColor::Red;
    m[3][3] = PieceColor::Blue;
    m[2][1] = PieceColor::Green;
    let grown = resize_matrix(&m, 8, 6);
    assert_eq!(grown.len(), 6);
    assert_eq!(grown[0].len(), 8);
    assert_eq!(occupied(&grown), occupied(&m));
}

#[test]
fn resize_grow_centers_columns() {
    let mut m = empty_matrix(2, 2);
    m[1][0] = PieceColor::Red;
    m[1][1] = PieceColor::Blue;
    let grown = resize_matrix(&m, 4, 2);
    // Old columns land centered: left edge at (4/2 - 2/2) = 1.
    assert_eq!(grown[1][1], PieceColor::Red);
    assert_eq!(grown[1][2], PieceColor::Blue);
}

#[test]
fn resize_shrink_below_stack_does_not_panic() {
    let mut m = empty_matrix(6, 6);
    for i in 0..6 {
        for j in 0..6 {
            m[i][j] = PieceColor::Gray;
        }
    }
    let shrunk = resize_matrix(&m, 2, 3);
    assert_eq!(shrunk.len(), 3);
    assert_eq!(shrunk[0].len(), 2);
    // The kept window is fully occupied.
    assert_eq!(occupied(&shrunk), 6);
}

#[test]
fn resize_shrink_trims_left_extra_on_odd_difference() {
    let mut m = empty_matrix(5, 1);
    for j in 0..5 {
        m[0][j] = PieceColor::Red;
    }
    m[0][3] = PieceColor::Blue;
    // Shrinking 5 -> 2 cuts 2 columns from the left, 1 from the right.
    let shrunk = resize_matrix(&m, 2, 1);
    assert_eq!(shrunk[0][0], PieceColor::Red);
    assert_eq!(shrunk[0][1], PieceColor::Blue);
}
