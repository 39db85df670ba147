use tetris::board::Board;
use tetris::color::CellColor;
use tetris::state::{Command, State, BOARD_HEIGHT, BOARD_WIDTH};
use tetris::tetromino::{Tetromino, TetrominoName, TetrominoRotation};

fn state_with_piece(name: TetrominoName, x: isize, y: isize) -> State {
    let mut s = State::new();
    let mut t = Tetromino::new(name, &s.board);
    t.x = x;
    t.y = y;
    s.current_tetromino = Some(t);
    s
}

fn count_occupied(board: &Board) -> usize {
    let mut n = 0;
    for x in 0..board.columns() {
        for y in 0..board.rows() {
            if board.occupied_at(x, y) {
                n += 1;
            }
        }
    }
    n
}

#[test]
fn new_state_is_fresh() {
    let s = State::new();
    assert_eq!(s.board.columns(), BOARD_WIDTH);
    assert_eq!(s.board.rows(), BOARD_HEIGHT);
    assert_eq!(count_occupied(&s.board), 0);
    assert!(s.current_tetromino.is_none());
    assert_eq!(s.debounce_timer, 0);
    assert!(!s.speed_mode);
}

#[test]
fn timer_accumulates_until_threshold() {
    let mut s = State::new();
    s.step(Command::NoCommand, 100);
    assert_eq!(s.debounce_timer, 100);
    assert!(s.current_tetromino.is_none());
    s.step(Command::NoCommand, 200);
    assert_eq!(s.debounce_timer, 300);
    assert!(s.current_tetromino.is_none());
    // One more millisecond crosses the threshold: the timer resets and a
    // piece spawns.
    s.step(Command::NoCommand, 1);
    assert_eq!(s.debounce_timer, 0);
    let t = s.current_tetromino.as_ref().expect("a piece should spawn");
    assert_eq!(t.y, BOARD_HEIGHT as isize);
    assert_eq!(t.rotation, TetrominoRotation::Zero);
}

#[test]
fn move_left_and_right() {
    let mut s = state_with_piece(TetrominoName::O, 4, 5);
    s.step(Command::MoveLeft, 1);
    assert_eq!(s.current_tetromino.as_ref().unwrap().x, 3);
    s.step(Command::MoveRight, 1);
    s.step(Command::MoveRight, 1);
    assert_eq!(s.current_tetromino.as_ref().unwrap().x, 5);
}

#[test]
fn move_into_wall_reverts() {
    let mut s = state_with_piece(TetrominoName::O, 0, 5);
    s.step(Command::MoveLeft, 1);
    assert_eq!(s.current_tetromino.as_ref().unwrap().x, 0);
    let mut s = state_with_piece(TetrominoName::O, 8, 5);
    s.step(Command::MoveRight, 1);
    assert_eq!(s.current_tetromino.as_ref().unwrap().x, 8);
}

#[test]
fn rotate_applies_and_reverts_on_collision() {
    let mut s = state_with_piece(TetrominoName::I, 3, 5);
    s.step(Command::Rotate, 1);
    assert_eq!(
        s.current_tetromino.as_ref().unwrap().rotation,
        TetrominoRotation::HalfPi
    );
    // A vertical I against the right wall cannot turn flat: the rotated
    // cells would reach past the wall, so the rotation reverts.
    let mut s = state_with_piece(TetrominoName::I, 8, 5);
    let before = s.current_tetromino.as_ref().unwrap().get_cells();
    s.step(Command::Rotate, 1);
    assert_eq!(
        s.current_tetromino.as_ref().unwrap().rotation,
        TetrominoRotation::Zero
    );
    assert_eq!(s.current_tetromino.as_ref().unwrap().get_cells(), before);
}

#[test]
fn command_ignored_without_piece() {
    let mut s = State::new();
    s.step(Command::Rotate, 1);
    s.step(Command::MoveLeft, 1);
    assert!(s.current_tetromino.is_none());
    assert_eq!(count_occupied(&s.board), 0);
}

#[test]
fn fast_drop_engage_and_release() {
    let mut s = state_with_piece(TetrominoName::T, 4, 10);
    s.step(Command::FastDropEngage, 1);
    assert!(s.speed_mode);
    // Above the fast interval but below the normal one: the piece drops.
    let y_before = s.current_tetromino.as_ref().unwrap().y;
    s.step(Command::NoCommand, 60);
    assert_eq!(s.current_tetromino.as_ref().unwrap().y, y_before - 1);
    s.step(Command::FastDropRelease, 1);
    assert!(!s.speed_mode);
    // 60ms no longer crosses the 300ms threshold.
    let y_before = s.current_tetromino.as_ref().unwrap().y;
    s.step(Command::NoCommand, 60);
    assert_eq!(s.current_tetromino.as_ref().unwrap().y, y_before);
}

#[test]
fn fast_drop_engage_needs_piece() {
    let mut s = State::new();
    s.step(Command::FastDropEngage, 1);
    assert!(!s.speed_mode);
}

#[test]
fn gravity_moves_piece_down() {
    let mut s = state_with_piece(TetrominoName::O, 4, 10);
    s.step(Command::NoCommand, 301);
    assert_eq!(s.debounce_timer, 0);
    assert_eq!(s.current_tetromino.as_ref().unwrap().y, 9);
}

#[test]
fn landing_piece_locks_its_color() {
    let mut s = state_with_piece(TetrominoName::O, 4, 0);
    // The floor stops the piece at once: it locks where it stands.
    s.step(Command::NoCommand, 301);
    assert!(s.current_tetromino.is_none());
    assert_eq!(s.board.cell_at(4, 0), Some(CellColor::Yellow));
    assert_eq!(s.board.cell_at(5, 0), Some(CellColor::Yellow));
    assert_eq!(s.board.cell_at(4, 1), Some(CellColor::Yellow));
    assert_eq!(s.board.cell_at(5, 1), Some(CellColor::Yellow));
    assert_eq!(count_occupied(&s.board), 4);
}

#[test]
fn lock_completing_a_row_clears_it() {
    let mut s = state_with_piece(TetrominoName::O, 4, 0);
    // The bottom row is full except the two columns the O piece will fill.
    for x in 0..10 {
        if x != 4 && x != 5 {
            s.board.set_cell(x, 0, Some(CellColor::Red));
        }
    }
    s.step(Command::NoCommand, 301);
    assert!(s.current_tetromino.is_none());
    // The completed bottom row cleared; what was the piece's upper half
    // dropped into it, so its color shows in the two formerly empty columns.
    assert_eq!(s.board.cell_at(4, 0), Some(CellColor::Yellow));
    assert_eq!(s.board.cell_at(5, 0), Some(CellColor::Yellow));
    for x in 0..10 {
        if x != 4 && x != 5 {
            assert_eq!(s.board.cell_at(x, 0), None);
        }
    }
    assert_eq!(count_occupied(&s.board), 2);
}

#[test]
fn lock_above_top_resets_board() {
    // A blocker forces the piece to land while its upper cells are still at
    // or above the top row: the stack has overflowed and the board resets.
    let mut s = state_with_piece(TetrominoName::O, 4, 19);
    s.board.set_cell(4, 18, Some(CellColor::Red));
    s.step(Command::NoCommand, 301);
    assert!(s.current_tetromino.is_none());
    assert_eq!(count_occupied(&s.board), 0);
}

#[test]
fn only_one_command_per_tick() {
    let mut s = state_with_piece(TetrominoName::O, 4, 5);
    s.step(Command::MoveLeft, 1);
    let t = s.current_tetromino.as_ref().unwrap();
    assert_eq!(t.x, 3);
    assert_eq!(t.rotation, TetrominoRotation::Zero);
    assert_eq!(t.y, 5);
}
