use blockfall::board::Board;
use blockfall::piece::Piece;
use blockfall::Color;
use blockfall::Point;

#[test]
fn collision_test_on_empty_board() {
    let b = Board::new();
    let o = Piece::new_o();
    assert!(!b.collision_test(&o, Point { x: 0, y: 0 }));
    assert!(!b.collision_test(&o, Point { x: 8, y: 18 }));
    assert!(b.collision_test(&o, Point { x: -1, y: 0 }));
    assert!(b.collision_test(&o, Point { x: 9, y: 0 }));
    assert!(b.collision_test(&o, Point { x: 0, y: -1 }));
    assert!(b.collision_test(&o, Point { x: 0, y: 19 }));
}

#[test]
fn collision_test_against_occupied_cell() {
    let mut b = Board::new();
    b.cells[10][5] = Some(Color::Red);
    let o = Piece::new_o();
    assert!(b.collision_test(&o, Point { x: 5, y: 10 }));
    assert!(b.collision_test(&o, Point { x: 4, y: 9 }));
    assert!(!b.collision_test(&o, Point { x: 6, y: 10 }));
    assert!(!b.collision_test(&o, Point { x: 3, y: 10 }));
}

#[test]
fn collision_test_ignores_empty_matrix_cells() {
    // The L piece's bottom row is empty, so the row below its origin's
    // second row may be occupied without a collision.
    let mut b = Board::new();
    b.cells[12][0] = Some(Color::Blue);
    let l = Piece::new_l();
    assert!(!b.collision_test(&l, Point { x: 0, y: 10 }));
    assert!(b.collision_test(&l, Point { x: 0, y: 11 }));
}

#[test]
fn lock_piece_writes_colors() {
    let mut b = Board::new();
    let o = Piece::new_o();
    b.lock_piece(&o, Point { x: 4, y: 18 });
    assert_eq!(b.cells[18][4], Some(Color::Cyan));
    assert_eq!(b.cells[18][5], Some(Color::Cyan));
    assert_eq!(b.cells[19][4], Some(Color::Cyan));
    assert_eq!(b.cells[19][5], Some(Color::Cyan));
    assert_eq!(b.cells[18][3], None);
    assert_eq!(b.cells[17][4], None);
}

#[test]
fn clear_lines_clears_two_bottom_rows_and_shifts_partial() {
    // Counting rows from the bottom: row 0 full, row 1 full, row 2 partial.
    let mut b = Board::new();
    for x in 0..10 {
        b.cells[19][x] = Some(Color::Red);
        b.cells[18][x] = Some(Color::Blue);
    }
    for x in 0..4 {
        b.cells[17][x] = Some(Color::Green);
    }
    let n = b.clear_lines();
    assert_eq!(n, 2);
    // The partial row's content sinks by two rows, to the bottom.
    for x in 0..4 {
        assert_eq!(b.cells[19][x], Some(Color::Green));
    }
    for x in 4..10 {
        assert_eq!(b.cells[19][x], None);
    }
    // Everything above is empty.
    for y in 0..19 {
        for x in 0..10 {
            assert_eq!(b.cells[y][x], None);
        }
    }
}

#[test]
fn clear_lines_on_untouched_board_clears_nothing() {
    let mut b = Board::new();
    b.cells[5][5] = Some(Color::Purple);
    let n = b.clear_lines();
    assert_eq!(n, 0);
    assert_eq!(b.cells[5][5], Some(Color::Purple));
}

#[test]
fn clear_lines_handles_separated_full_rows() {
    let mut b = Board::new();
    for x in 0..10 {
        b.cells[19][x] = Some(Color::Red);
        b.cells[16][x] = Some(Color::Blue);
    }
    b.cells[18][0] = Some(Color::Green);
    b.cells[17][1] = Some(Color::Purple);
    let n = b.clear_lines();
    assert_eq!(n, 2);
    // The two partial rows keep their order and sink to the bottom.
    assert_eq!(b.cells[19][0], Some(Color::Green));
    assert_eq!(b.cells[18][1], Some(Color::Purple));
    assert_eq!(b.cells[17][0], None);
}
