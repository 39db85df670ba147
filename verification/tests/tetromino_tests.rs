use tetris::board::Board;
use tetris::tetromino::{Tetromino, TetrominoName, TetrominoRotation};

const ALL_NAMES: [TetrominoName; 7] = [
    TetrominoName::I,
    TetrominoName::J,
    TetrominoName::L,
    TetrominoName::O,
    TetrominoName::S,
    TetrominoName::T,
    TetrominoName::Z,
];

const ALL_ROTATIONS: [TetrominoRotation; 4] = [
    TetrominoRotation::Zero,
    TetrominoRotation::HalfPi,
    TetrominoRotation::Pi,
    TetrominoRotation::TwoPiOverThree,
];

fn piece_at(name: TetrominoName, board: &Board, x: isize, y: isize) -> Tetromino {
    let mut t = Tetromino::new(name, board);
    t.x = x;
    t.y = y;
    t
}

#[test]
fn rotation_cycles_forward_and_backward() {
    let mut r = TetrominoRotation::Zero;
    r.next();
    assert_eq!(r, TetrominoRotation::HalfPi);
    r.next();
    assert_eq!(r, TetrominoRotation::Pi);
    r.next();
    assert_eq!(r, TetrominoRotation::TwoPiOverThree);
    r.next();
    assert_eq!(r, TetrominoRotation::Zero);
    r.previous();
    assert_eq!(r, TetrominoRotation::TwoPiOverThree);
    r.previous();
    r.previous();
    r.previous();
    assert_eq!(r, TetrominoRotation::Zero);
}

#[test]
fn four_rotations_restore_cells() {
    let board = Board::new(10, 20);
    for name in ALL_NAMES {
        for start in ALL_ROTATIONS {
            let mut t = piece_at(name, &board, 2, 3);
            t.rotation = start;
            let before = t.get_cells();
            for _ in 0..4 {
                t.rotation.next();
            }
            assert_eq!(t.get_cells(), before);
            for _ in 0..4 {
                t.rotation.previous();
            }
            assert_eq!(t.get_cells(), before);
        }
    }
}

#[test]
fn get_cells_always_four_distinct() {
    let board = Board::new(10, 20);
    for name in ALL_NAMES {
        for rotation in ALL_ROTATIONS {
            let mut t = piece_at(name, &board, 3, 5);
            t.rotation = rotation;
            let cells = t.get_cells();
            assert_eq!(cells.len(), 4);
            for i in 0..4 {
                for j in 0..4 {
                    if i != j {
                        assert_ne!(cells[i], cells[j]);
                    }
                }
            }
        }
    }
}

#[test]
fn get_cells_exact_values() {
    let board = Board::new(10, 20);
    let i_piece = piece_at(TetrominoName::I, &board, 0, 0);
    assert_eq!(i_piece.get_cells(), vec![(1, 0), (1, 1), (1, 2), (1, 3)]);
    let o_piece = piece_at(TetrominoName::O, &board, 4, 0);
    assert_eq!(o_piece.get_cells(), vec![(4, 1), (4, 0), (5, 0), (5, 1)]);
    let t_piece = piece_at(TetrominoName::T, &board, 0, 0);
    assert_eq!(t_piece.get_cells(), vec![(0, 1), (1, 1), (2, 1), (1, 2)]);
    let mut i_flat = piece_at(TetrominoName::I, &board, 0, 0);
    i_flat.rotation = TetrominoRotation::HalfPi;
    assert_eq!(i_flat.get_cells(), vec![(1, 1), (2, 1), (3, 1), (0, 1)]);
}

#[test]
fn get_length_per_kind() {
    let board = Board::new(10, 20);
    assert_eq!(piece_at(TetrominoName::I, &board, 0, 0).get_length(), 4);
    assert_eq!(piece_at(TetrominoName::J, &board, 0, 0).get_length(), 3);
    assert_eq!(piece_at(TetrominoName::L, &board, 0, 0).get_length(), 3);
    assert_eq!(piece_at(TetrominoName::O, &board, 0, 0).get_length(), 2);
    assert_eq!(piece_at(TetrominoName::S, &board, 0, 0).get_length(), 3);
    assert_eq!(piece_at(TetrominoName::T, &board, 0, 0).get_length(), 3);
    assert_eq!(piece_at(TetrominoName::Z, &board, 0, 0).get_length(), 3);
}

#[test]
fn collides_out_of_bounds() {
    let board = Board::new(10, 20);
    for name in ALL_NAMES {
        for rotation in ALL_ROTATIONS {
            // Far past the left wall: some cell has x < 0.
            let mut t = piece_at(name, &board, -4, 5);
            t.rotation = rotation;
            assert!(t.collides(&board));
            // Past the right wall: some cell has x >= columns.
            let mut t = piece_at(name, &board, 9, 5);
            t.rotation = rotation;
            assert!(t.collides(&board));
            // Below the floor: some cell has y < 0.
            let mut t = piece_at(name, &board, 3, -4);
            t.rotation = rotation;
            assert!(t.collides(&board));
        }
    }
}

#[test]
fn above_top_does_not_collide() {
    let mut board = Board::new(10, 20);
    // Even over a completely full board, a piece wholly above the top is in
    // the air and collides with nothing.
    for x in 0..10 {
        for y in 0..20 {
            board.set_cell(x, y, Some(tetris::color::CellColor::Red));
        }
    }
    for name in ALL_NAMES {
        let t = piece_at(name, &board, 2, 20);
        assert!(!t.collides(&board));
    }
}

#[test]
fn collides_with_occupied_cell() {
    let mut board = Board::new(10, 20);
    board.set_cell(4, 0, Some(tetris::color::CellColor::Green));
    let t = piece_at(TetrominoName::O, &board, 4, 0);
    assert!(t.collides(&board));
    let beside = piece_at(TetrominoName::O, &board, 6, 0);
    assert!(!beside.collides(&board));
}

#[test]
fn spawn_is_within_bounds() {
    let board = Board::new(10, 20);
    for _ in 0..100 {
        let t = Tetromino::random(&board);
        assert_eq!(t.rotation, TetrominoRotation::Zero);
        assert_eq!(t.y, 20);
        assert!(t.x >= 0);
        assert!(t.x + t.get_length() <= 10);
        assert!(!t.collides(&board));
    }
}

#[test]
fn spawn_varies_kind_and_column() {
    let board = Board::new(10, 20);
    let mut names = std::collections::HashSet::new();
    let mut columns = std::collections::HashSet::new();
    for _ in 0..200 {
        let t = Tetromino::random(&board);
        names.insert(format!("{:?}", t.name));
        columns.insert(t.x);
    }
    // A generator that ignored its range bounds or always returned the same
    // value would fail here.
    assert!(names.len() >= 2);
    assert!(columns.len() >= 2);
}
