use tet_rust::board::{Board, HEIGHT, SHAPE, WIDTH};

fn occupied_cells(board: &Board) -> Vec<(usize, usize)> {
    let mut cells = Vec::new();
    for row in 0..HEIGHT {
        for col in 0..WIDTH {
            if board.is_occupied(row, col) {
                cells.push((row, col));
            }
        }
    }
    cells
}

fn fill_row(board: &mut Board, row: usize) {
    for col in 0..WIDTH {
        board.set(row, col, true);
    }
}

#[test]
fn dimensions_are_ten_by_twenty() {
    assert_eq!(WIDTH, 10);
    assert_eq!(HEIGHT, 20);
    assert_eq!(SHAPE, '\u{2588}');
}

#[test]
fn new_board_is_empty() {
    let board = Board::new();
    assert!(occupied_cells(&board).is_empty());
    for row in 0..HEIGHT {
        for col in 0..WIDTH {
            assert_eq!(board.cell(row, col), None);
        }
    }
}

#[test]
fn set_fills_and_empties_one_cell() {
    let mut board = Board::new();
    board.set(19, 0, true);
    assert!(board.is_occupied(19, 0));
    assert_eq!(board.cell(19, 0), Some(SHAPE));
    assert_eq!(occupied_cells(&board), vec![(19, 0)]);

    board.set(0, 9, true);
    assert_eq!(occupied_cells(&board), vec![(0, 9), (19, 0)]);

    board.set(19, 0, false);
    assert!(!board.is_occupied(19, 0));
    assert_eq!(board.cell(19, 0), None);
    assert_eq!(occupied_cells(&board), vec![(0, 9)]);
}

#[test]
fn set_on_a_filled_cell_keeps_it_filled() {
    let mut board = Board::new();
    board.set(5, 5, true);
    board.set(5, 5, true);
    assert_eq!(occupied_cells(&board), vec![(5, 5)]);
}

#[test]
fn clear_without_a_full_row_changes_nothing() {
    let mut board = Board::new();
    for col in 0..WIDTH - 1 {
        board.set(19, col, true);
    }
    board.set(3, 4, true);
    let before = occupied_cells(&board);
    assert_eq!(board.clear_full_rows(), 0);
    assert_eq!(occupied_cells(&board), before);
}

#[test]
fn clear_on_an_empty_board_returns_zero() {
    let mut board = Board::new();
    assert_eq!(board.clear_full_rows(), 0);
    assert!(occupied_cells(&board).is_empty());
}

#[test]
fn clear_removes_full_rows_and_pads_the_top() {
    let mut board = Board::new();
    fill_row(&mut board, 19);
    board.set(18, 2, true);
    fill_row(&mut board, 17);
    board.set(16, 5, true);
    board.set(0, 7, true);

    assert_eq!(board.clear_full_rows(), 2);
    // Rows 18, 16 and 0 are kept in order and sink by the rows removed
    // below them.
    assert_eq!(occupied_cells(&board), vec![(2, 7), (18, 5), (19, 2)]);
}

#[test]
fn clear_keeps_the_order_of_the_rows_between_full_rows() {
    let mut board = Board::new();
    board.set(10, 0, true);
    fill_row(&mut board, 11);
    board.set(12, 1, true);
    board.set(13, 2, true);
    fill_row(&mut board, 14);
    board.set(15, 3, true);

    assert_eq!(board.clear_full_rows(), 2);
    assert_eq!(occupied_cells(&board), vec![(12, 0), (13, 1), (14, 2), (15, 3)]);
}

#[test]
fn clear_of_a_full_board_leaves_an_empty_board_of_the_same_size() {
    let mut board = Board::new();
    for row in 0..HEIGHT {
        fill_row(&mut board, row);
    }
    assert_eq!(board.clear_full_rows(), HEIGHT);
    // Every one of the HEIGHT x WIDTH cells is still there to be read.
    let mut seen = 0;
    for row in 0..HEIGHT {
        for col in 0..WIDTH {
            assert!(!board.is_occupied(row, col));
            seen += 1;
        }
    }
    assert_eq!(seen, 200);
}

#[test]
fn clear_four_rows_at_once() {
    let mut board = Board::new();
    for row in 16..20 {
        fill_row(&mut board, row);
    }
    board.set(15, 9, true);
    assert_eq!(board.clear_full_rows(), 4);
    assert_eq!(occupied_cells(&board), vec![(19, 9)]);
    assert_eq!(board.clear_full_rows(), 0);
}
