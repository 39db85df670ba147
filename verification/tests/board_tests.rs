use tetris::board::Board;
use tetris::color::CellColor;

fn full_row(board: &mut Board, row: usize, color: CellColor) {
    for x in 0..board.columns() {
        board.set_cell(x, row, Some(color));
    }
}

fn count_occupied(board: &Board) -> usize {
    let mut n = 0;
    for x in 0..board.columns() {
        for y in 0..board.rows() {
            if board.occupied_at(x, y) {
                n += 1;
            }
        }
    }
    n
}

#[test]
fn board_new_is_empty() {
    let board = Board::new(10, 20);
    assert_eq!(board.columns(), 10);
    assert_eq!(board.rows(), 20);
    for x in 0..10 {
        for y in 0..20 {
            assert_eq!(board.cell_at(x, y), None);
            assert!(!board.occupied_at(x, y));
        }
    }
}

#[test]
fn set_and_read_cell() {
    let mut board = Board::new(10, 20);
    board.set_cell(3, 7, Some(CellColor::Red));
    assert_eq!(board.cell_at(3, 7), Some(CellColor::Red));
    assert!(board.occupied_at(3, 7));
    assert_eq!(board.cell_at(4, 7), None);
    assert_eq!(board.cell_at(3, 8), None);
    board.set_cell(3, 7, None);
    assert_eq!(board.cell_at(3, 7), None);
}

#[test]
fn clear_empties_every_cell() {
    let mut board = Board::new(10, 20);
    full_row(&mut board, 0, CellColor::Blue);
    board.set_cell(5, 13, Some(CellColor::Green));
    board.clear();
    assert_eq!(count_occupied(&board), 0);
}

#[test]
fn line_clear_full_row_shifts_down() {
    let mut board = Board::new(10, 20);
    full_row(&mut board, 0, CellColor::Red);
    board.set_cell(2, 1, Some(CellColor::Blue));
    board.set_cell(9, 2, Some(CellColor::Green));
    board.try_line_clear(0);
    // Row 0 is now what row 1 was, row 1 what row 2 was, the top is empty.
    assert_eq!(board.cell_at(2, 0), Some(CellColor::Blue));
    for x in 0..10 {
        if x != 2 {
            assert_eq!(board.cell_at(x, 0), None);
        }
    }
    assert_eq!(board.cell_at(9, 1), Some(CellColor::Green));
    for x in 0..9 {
        assert_eq!(board.cell_at(x, 1), None);
    }
    for x in 0..10 {
        assert_eq!(board.cell_at(x, 19), None);
        assert_eq!(board.cell_at(x, 2), None);
    }
    assert_eq!(count_occupied(&board), 2);
}

#[test]
fn line_clear_partial_row_is_noop() {
    let mut board = Board::new(10, 20);
    for x in 0..9 {
        board.set_cell(x, 0, Some(CellColor::Purple));
    }
    board.set_cell(4, 3, Some(CellColor::Cyan));
    board.try_line_clear(0);
    for x in 0..9 {
        assert_eq!(board.cell_at(x, 0), Some(CellColor::Purple));
    }
    assert_eq!(board.cell_at(9, 0), None);
    assert_eq!(board.cell_at(4, 3), Some(CellColor::Cyan));
    assert_eq!(count_occupied(&board), 10);
}

#[test]
fn line_clear_empty_row_is_noop() {
    let mut board = Board::new(10, 20);
    board.set_cell(0, 10, Some(CellColor::Orange));
    board.try_line_clear(5);
    assert_eq!(board.cell_at(0, 10), Some(CellColor::Orange));
    assert_eq!(count_occupied(&board), 1);
}

#[test]
fn line_clear_cascades_through_stacked_full_rows() {
    let mut board = Board::new(10, 20);
    full_row(&mut board, 0, CellColor::Red);
    full_row(&mut board, 1, CellColor::Blue);
    board.set_cell(5, 2, Some(CellColor::Yellow));
    board.try_line_clear(0);
    // Both full rows vanish in one call; the marker drops by two.
    assert_eq!(board.cell_at(5, 0), Some(CellColor::Yellow));
    assert_eq!(count_occupied(&board), 1);
}

#[test]
fn line_clear_at_top_row() {
    let mut board = Board::new(10, 20);
    full_row(&mut board, 19, CellColor::Green);
    board.try_line_clear(19);
    assert_eq!(count_occupied(&board), 0);
}

#[test]
fn smallest_board_line_clear() {
    let mut board = Board::new(1, 1);
    board.set_cell(0, 0, Some(CellColor::Red));
    board.try_line_clear(0);
    assert_eq!(board.cell_at(0, 0), None);
}
