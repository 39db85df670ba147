//! The simulation loop: the game state, the per-tick command and gravity
//! handling, and the lock/merge that commits a landed piece into the board.
//!
//! Each tick takes at most one command and the elapsed time in milliseconds;
//! the state transition is deterministic but for the kind and column of a
//! freshly spawned piece.

use vstd::prelude::*;

use crate::board::{
    empty_grid, empty_row, grid_wf, lemma_line_clear_full_row, lemma_line_clear_noop,
    spec_line_clear, spec_row_full, spec_shift_down, Board,
};
use crate::color::CellColor;
use crate::tetromino::{
    lemma_no_collision_anchor_bounds, lemma_rotation_cycle, spec_cells, spec_collides, spec_color,
    spec_length, spec_next_rotation, Tetromino, TetrominoName, TetrominoRotation,
};

verus! {

/// Board width, in cells.
pub const BOARD_WIDTH: usize = 10;

/// Board height, in cells.
pub const BOARD_HEIGHT: usize = 20;

/// Gravity interval at normal speed, in milliseconds.
pub const DEBOUNCE_TIME_MS: u64 = 300;

/// Gravity interval while fast drop is engaged, in milliseconds.
pub const FAST_DEBOUNCE_TIME_MS: u64 = 50;

/// The one command a tick may carry.
#[derive(Clone, Copy, PartialEq, Eq, Structural, Debug)]
pub enum Command {
    NoCommand,
    Rotate,
    MoveLeft,
    MoveRight,
    FastDropEngage,
    FastDropRelease,
}

/// The gravity interval the timer is measured against.
pub open spec fn spec_threshold(speed_mode: bool) -> int {
    if speed_mode {
        FAST_DEBOUNCE_TIME_MS as int
    } else {
        DEBOUNCE_TIME_MS as int
    }
}

/// The board cells a piece occupies where it stands.
pub open spec fn piece_cells(t: Tetromino) -> Seq<(int, int)> {
    spec_cells(t.name, t.rotation, t.x as int, t.y as int)
}

/// Whether a piece collides with the given board.
pub open spec fn spec_piece_collides(t: Tetromino, b: Board) -> bool {
    spec_collides(piece_cells(t), b@, b.spec_columns(), b.spec_rows())
}

/// The piece turned a quarter forward, in place.
pub open spec fn spec_rotated(t: Tetromino) -> Tetromino {
    Tetromino { rotation: spec_next_rotation(t.rotation), ..t }
}

/// The piece moved by a column or row offset.
pub open spec fn spec_moved(t: Tetromino, dx: int, dy: int) -> Tetromino {
    Tetromino { x: (t.x + dx) as isize, y: (t.y + dy) as isize, ..t }
}

/// What one command does to an active piece: a rotation or sideways move is
/// kept only when the result does not collide, otherwise it is reverted;
/// the fast-drop commands leave the piece alone.
pub open spec fn spec_command_piece(t: Tetromino, b: Board, cmd: Command) -> Tetromino {
    match cmd {
        Command::Rotate => {
            let rt = spec_rotated(t);
            if spec_piece_collides(rt, b) {
                t
            } else {
                rt
            }
        },
        Command::MoveLeft => {
            let mt = spec_moved(t, -1, 0);
            if spec_piece_collides(mt, b) {
                t
            } else {
                mt
            }
        },
        Command::MoveRight => {
            let mt = spec_moved(t, 1, 0);
            if spec_piece_collides(mt, b) {
                t
            } else {
                mt
            }
        },
        _ => t,
    }
}

/// What one command does to the fast-drop flag: release always clears it,
/// engage sets it while a piece is active, anything else leaves it.
pub open spec fn spec_speed_after(speed: bool, has_piece: bool, cmd: Command) -> bool {
    if cmd == Command::FastDropRelease {
        false
    } else if cmd == Command::FastDropEngage && has_piece {
        true
    } else {
        speed
    }
}

/// The grid after writing a locking piece's cells, in order: a cell inside
/// the side walls but at or above the top row overflows the stack and resets
/// the whole board, stopping the writes; a cell inside the grid takes the
/// piece's color; any other cell is skipped.
pub open spec fn spec_place_cells(
    g: Seq<Seq<Option<CellColor>>>,
    columns: int,
    rows: int,
    cells: Seq<(int, int)>,
    i: int,
    color: CellColor,
) -> Seq<Seq<Option<CellColor>>>
    decreases cells.len() - i,
{
    if i >= cells.len() {
        g
    } else {
        let c = cells[i];
        if 0 <= c.0 < columns && 0 <= c.1 {
            if c.1 >= rows {
                empty_grid(columns, rows)
            } else {
                spec_place_cells(
                    g.update(c.1, g[c.1].update(c.0, Option::Some(color))),
                    columns,
                    rows,
                    cells,
                    i + 1,
                    color,
                )
            }
        } else {
            spec_place_cells(g, columns, rows, cells, i + 1, color)
        }
    }
}

/// The grid after running the line clear at each locked cell's row, in order.
pub open spec fn spec_clear_rows(
    g: Seq<Seq<Option<CellColor>>>,
    columns: int,
    rows: int,
    cells: Seq<(int, int)>,
    i: int,
) -> Seq<Seq<Option<CellColor>>>
    decreases cells.len() - i,
{
    if i >= cells.len() {
        g
    } else {
        let y = cells[i].1;
        if 0 <= y < rows {
            spec_clear_rows(spec_line_clear(g, columns, y), columns, rows, cells, i + 1)
        } else {
            spec_clear_rows(g, columns, rows, cells, i + 1)
        }
    }
}

/// The grid after a piece with the given cells and color locks: the cells
/// are written (or the board reset on stack overflow), then every touched
/// row is checked for clearing. This is the meaning of the lock/merge step.
pub open spec fn spec_lock(
    g: Seq<Seq<Option<CellColor>>>,
    columns: int,
    rows: int,
    cells: Seq<(int, int)>,
    color: CellColor,
) -> Seq<Seq<Option<CellColor>>> {
    spec_clear_rows(
        spec_place_cells(g, columns, rows, cells, 0, color),
        columns,
        rows,
        cells,
        0,
    )
}

/// Clearing any valid row of an all-empty grid changes nothing.
proof fn lemma_line_clear_empty_grid(columns: int, rows: int, row: int)
    requires
        1 <= columns,
        0 <= row < rows,
    ensures
        spec_line_clear(empty_grid(columns, rows), columns, row) == empty_grid(columns, rows),
{
    let g = empty_grid(columns, rows);
    assert(g[row][0] is None);
    assert(!spec_row_full(g, columns, row));
    lemma_line_clear_noop(g, columns, row);
}

/// The per-cell row clears after a board reset leave the grid empty.
proof fn lemma_clear_rows_empty_grid(columns: int, rows: int, cells: Seq<(int, int)>, i: int)
    requires
        1 <= columns,
        1 <= rows,
    ensures
        spec_clear_rows(empty_grid(columns, rows), columns, rows, cells, i) == empty_grid(
            columns,
            rows,
        ),
    decreases cells.len() - i,
{
    if i < cells.len() {
        let y = cells[i].1;
        if 0 <= y < rows {
            lemma_line_clear_empty_grid(columns, rows, y);
        }
        lemma_clear_rows_empty_grid(columns, rows, cells, i + 1);
    }
}

/// Writing the cells from index `j` on empties the grid whenever some later
/// cell (at index `i`) stands inside the side walls at or above the top row:
/// the walk reaches that cell — or an earlier overflowing one — and resets.
proof fn lemma_place_cells_overflow(
    g: Seq<Seq<Option<CellColor>>>,
    columns: int,
    rows: int,
    cells: Seq<(int, int)>,
    j: int,
    i: int,
    color: CellColor,
)
    requires
        1 <= rows,
        0 <= j <= i < cells.len(),
        0 <= cells[i].0 < columns,
        cells[i].1 >= rows,
    ensures
        spec_place_cells(g, columns, rows, cells, j, color) == empty_grid(columns, rows),
    decreases i - j,
{
    if j < i {
        let c = cells[j];
        if 0 <= c.0 < columns && 0 <= c.1 {
            if c.1 < rows {
                lemma_place_cells_overflow(
                    g.update(c.1, g[c.1].update(c.0, Option::Some(color))),
                    columns,
                    rows,
                    cells,
                    j + 1,
                    i,
                    color,
                );
            }
        } else {
            lemma_place_cells_overflow(g, columns, rows, cells, j + 1, i, color);
        }
    }
}

/// Law (stack-out): a locking piece with any cell inside the side walls at or
/// above the top row resets the whole board. Whatever was settled, whatever
/// the piece's other cells, the lock leaves the grid entirely empty: cells
/// written before the overflowing one are wiped with the rest, cells after
/// it are never written, and the row clears that follow find nothing full.
pub proof fn lemma_lock_overflow_resets(
    g: Seq<Seq<Option<CellColor>>>,
    columns: int,
    rows: int,
    cells: Seq<(int, int)>,
    color: CellColor,
    i: int,
)
    requires
        1 <= columns,
        1 <= rows,
        0 <= i < cells.len(),
        0 <= cells[i].0 < columns,
        cells[i].1 >= rows,
    ensures
        spec_lock(g, columns, rows, cells, color) == empty_grid(columns, rows),
{
    lemma_place_cells_overflow(g, columns, rows, cells, 0, i, color);
    lemma_clear_rows_empty_grid(columns, rows, cells, 0);
}

/// Law: an O piece resting on the floor that completes the bottom row clears
/// it at lock. Over a board whose bottom row is occupied everywhere but in
/// the piece's two columns and which is empty above, the lock writes the
/// piece's color, the completed row clears, and the piece's upper half drops
/// into the bottom row: the grid ends empty but for the piece's color in its
/// two columns of the bottom row.
pub proof fn lemma_lock_completes_bottom_row(
    g: Seq<Seq<Option<CellColor>>>,
    columns: int,
    rows: int,
    a: int,
)
    requires
        grid_wf(g, columns, rows),
        4 <= columns,
        2 <= rows,
        0 <= a <= columns - 2,
        forall|x: int| 0 <= x < columns && x != a && x != a + 1 ==> (#[trigger] g[0][x]) is Some,
        forall|y: int, x: int|
            1 <= y < rows && 0 <= x < columns ==> (#[trigger] g[y][x]) is None,
    ensures
        spec_lock(
            g,
            columns,
            rows,
            spec_cells(TetrominoName::O, TetrominoRotation::Zero, a, 0),
            spec_color(TetrominoName::O),
        ) == empty_grid(columns, rows).update(
            0,
            empty_row(columns).update(a, Option::Some(spec_color(TetrominoName::O))).update(
                a + 1,
                Option::Some(spec_color(TetrominoName::O)),
            ),
        ),
{
    let color = spec_color(TetrominoName::O);
    let cs = spec_cells(TetrominoName::O, TetrominoRotation::Zero, a, 0);
    assert(cs =~= seq![(a, 1), (a, 0), (a + 1, 0), (a + 1, 1)]) by {
        reveal_with_fuel(crate::tetromino::fill_from, 6);
        assert(crate::tetromino::local_cells(TetrominoName::O, TetrominoRotation::Zero) =~= seq![
            (0int, 1int),
            (0int, 0int),
            (1int, 0int),
            (1int, 1int),
        ]);
    }
    // Writing the four cells in walk order.
    let g1 = g.update(1, g[1].update(a, Option::Some(color)));
    let g2 = g1.update(0, g1[0].update(a, Option::Some(color)));
    let g3 = g2.update(0, g2[0].update(a + 1, Option::Some(color)));
    let g4 = g3.update(1, g3[1].update(a + 1, Option::Some(color)));
    assert(spec_place_cells(g, columns, rows, cs, 0, color) == g4) by {
        reveal_with_fuel(spec_place_cells, 6);
    }
    // A column untouched by the piece witnesses that rows above stay open.
    let x0: int = if a == 0 {
        2
    } else {
        0
    };
    assert(g4[1][x0] == g[1][x0]);
    assert(!spec_row_full(g4, columns, 1));
    // The bottom row, though, is now complete and shifts away.
    assert forall|x: int| 0 <= x < columns implies (#[trigger] g4[0][x]) is Some by {
        if x != a && x != a + 1 {
            assert(g4[0][x] == g[0][x]);
        }
    }
    assert(spec_row_full(g4, columns, 0));
    let s = spec_shift_down(g4, columns, 0);
    assert(s[0] == g4[1]);
    assert(s[0][x0] is None);
    assert(!spec_row_full(s, columns, 0));
    lemma_line_clear_full_row(g4, columns, 0);
    assert(spec_line_clear(g4, columns, 0) == s);
    // After the shift nothing is full: row 0 keeps the open column, higher
    // rows came from empty ones (or are the blanked top row).
    assert(!spec_row_full(s, columns, 1)) by {
        if 2 < rows {
            assert(s[1] == g4[2]);
            assert(g4[2][x0] == g[2][x0]);
        } else {
            assert(s[1] == empty_row(columns));
        }
        assert(s[1][x0] is None);
    }
    lemma_line_clear_noop(g4, columns, 1);
    lemma_line_clear_noop(s, columns, 0);
    lemma_line_clear_noop(s, columns, 1);
    assert(spec_clear_rows(g4, columns, rows, cs, 0) == s) by {
        reveal_with_fuel(spec_clear_rows, 6);
    }
    // The shifted grid is the empty grid with the piece's color dropped into
    // the bottom row.
    let want = empty_grid(columns, rows).update(
        0,
        empty_row(columns).update(a, Option::Some(color)).update(
            a + 1,
            Option::Some(color),
        ),
    );
    assert forall|y: int| 0 <= y < rows implies s[y] =~= want[y] by {
        if y == 0 {
            assert(s[0] == g4[1]);
            assert forall|x: int| 0 <= x < columns implies s[0][x] == want[0][x] by {
                if x != a && x != a + 1 {
                    assert(g4[1][x] == g[1][x]);
                }
            }
        } else if y + 1 < rows {
            assert(s[y] == g4[y + 1]);
            assert forall|x: int| 0 <= x < columns implies s[y][x] == want[y][x] by {
                assert(g4[y + 1][x] == g[y + 1][x]);
            }
        } else {
            assert(s[y] == empty_row(columns));
        }
    }
    assert(s =~~= want);
}

/// What holds of every freshly spawned piece: well-formed, unrotated, one
/// row above the visible top, and horizontally within the walls.
pub open spec fn spawned_ok(t: Tetromino, b: Board) -> bool {
    &&& t.wf()
    &&& t.rotation == TetrominoRotation::Zero
    &&& t.y == b.spec_rows()
    &&& 0 <= t.x <= b.spec_columns() - spec_length(t.name)
}

/// The whole game state: board, active piece, gravity timer, fast-drop flag.
pub struct State {
    pub board: Board,
    pub current_tetromino: Option<Tetromino>,
    pub debounce_timer: u64,
    pub speed_mode: bool,
}

impl State {
    /// The board is well-formed and wide enough for every piece, and the
    /// active piece, if any, is well-formed and stands near the grid.
    pub open spec fn wf(&self) -> bool {
        &&& self.board.wf()
        &&& 4 <= self.board.spec_columns()
        &&& self.board.spec_columns() <= i32::MAX as int
        &&& self.board.spec_columns() + 8 <= isize::MAX as int
        &&& self.board.spec_rows() + 8 <= isize::MAX as int
        &&& match self.current_tetromino {
            Option::Some(t) => {
                &&& t.wf()
                &&& -4 <= t.x <= self.board.spec_columns()
                &&& -4 <= t.y <= self.board.spec_rows()
            },
            Option::None => true,
        }
    }

    /// A fresh game: an empty board of the fixed size, no active piece, the
    /// timer at zero and fast drop off.
    pub fn new() -> (s: State)
        ensures
            s.wf(),
            s.board.spec_columns() == BOARD_WIDTH as int,
            s.board.spec_rows() == BOARD_HEIGHT as int,
            s.board@ == empty_grid(BOARD_WIDTH as int, BOARD_HEIGHT as int),
            s.current_tetromino is None,
            s.debounce_timer == 0,
            !s.speed_mode,
    {
        let board = Board::new(BOARD_WIDTH, BOARD_HEIGHT);
        State { board, current_tetromino: Option::None, debounce_timer: 0, speed_mode: false }
    }

    /// Commits the active piece into the board: writes its cells (resetting
    /// the whole board if a cell inside the walls lies at or above the top),
    /// runs the line clear on every row the piece touched, and retires the
    /// piece.
    fn lock_current(&mut self)
        requires
            old(self).wf(),
            old(self).current_tetromino is Some,
        ensures
            final(self).wf(),
            final(self).board.spec_columns() == old(self).board.spec_columns(),
            final(self).board.spec_rows() == old(self).board.spec_rows(),
            final(self).current_tetromino is None,
            final(self).debounce_timer == old(self).debounce_timer,
            final(self).speed_mode == old(self).speed_mode,
            final(self).board@ == ({
                let t = old(self).current_tetromino.unwrap();
                spec_lock(
                    old(self).board@,
                    old(self).board.spec_columns(),
                    old(self).board.spec_rows(),
                    piece_cells(t),
                    spec_color(t.name),
                )
            }),
    {
        proof {
            self.board.lemma_shape();
        }
        let ghost c = self.board.spec_columns();
        let ghost r = self.board.spec_rows();
        let t = self.current_tetromino.as_ref().unwrap();
        let ghost tt = *t;
        let cells = t.get_cells();
        let color = t.structure.color;
        let ghost cs = piece_cells(tt);
        let ghost g0 = self.board@;
        let columns = self.board.columns();
        let rows = self.board.rows();
        let n = cells.len();
        let mut i: usize = 0;
        while i < n
            invariant_except_break
                spec_place_cells(g0, c, r, cs, 0, color) == spec_place_cells(
                    self.board@,
                    c,
                    r,
                    cs,
                    i as int,
                    color,
                ),
            invariant
                self.board.wf(),
                self.board.spec_columns() == c,
                self.board.spec_rows() == r,
                columns == c,
                rows == r,
                1 <= c <= isize::MAX as int,
                1 <= r <= isize::MAX as int,
                i <= n,
                n == cells@.len(),
                crate::tetromino::view_points(cells@) == cs,
                self.current_tetromino == old(self).current_tetromino,
                self.debounce_timer == old(self).debounce_timer,
                self.speed_mode == old(self).speed_mode,
            ensures
                self.board@ == spec_place_cells(g0, c, r, cs, 0, color),
            decreases n - i,
        {
            let p = cells[i];
            let (x, y) = p;
            proof {
                assert(crate::tetromino::view_points(cells@)[i as int] == (x as int, y as int));
                assert((x as int, y as int) == cs[i as int]);
            }
            if x >= 0 && y >= 0 && x < columns as isize {
                if y >= rows as isize {
                    let ghost gp = self.board@;
                    self.board.clear();
                    proof {
                        assert(spec_place_cells(gp, c, r, cs, i as int, color) == empty_grid(c, r));
                    }
                    break;
                }
                self.board.set_cell(x as usize, y as usize, Option::Some(color));
            }
            i += 1;
        }
        let ghost g1 = self.board@;
        let mut j: usize = 0;
        while j < n
            invariant
                self.board.wf(),
                self.board.spec_columns() == c,
                self.board.spec_rows() == r,
                rows == r,
                1 <= c <= isize::MAX as int,
                1 <= r <= isize::MAX as int,
                j <= n,
                n == cells@.len(),
                crate::tetromino::view_points(cells@) == cs,
                self.current_tetromino == old(self).current_tetromino,
                self.debounce_timer == old(self).debounce_timer,
                self.speed_mode == old(self).speed_mode,
                spec_clear_rows(g1, c, r, cs, 0) == spec_clear_rows(
                    self.board@,
                    c,
                    r,
                    cs,
                    j as int,
                ),
            decreases n - j,
        {
            let p = cells[j];
            let y = p.1;
            proof {
                assert(crate::tetromino::view_points(cells@)[j as int] == (p.0 as int, p.1 as int));
                assert(cs[j as int].1 == y as int);
            }
            if y >= 0 && y < rows as isize {
                self.board.try_line_clear(y);
            }
            j += 1;
        }
        self.current_tetromino = Option::None;
    }

    /// One tick of the simulation. The timer advances by `dt_ms`; the
    /// command, if any, acts on the active piece or the fast-drop flag; and
    /// once the timer passes the gravity interval it resets and the piece
    /// falls one row — locking into the board where it cannot — or, with no
    /// piece active, a new one spawns.
    pub fn step(&mut self, command: Command, dt_ms: u64)
        requires
            old(self).wf(),
            old(self).debounce_timer + dt_ms <= u64::MAX,
        ensures
            final(self).wf(),
            final(self).board.spec_columns() == old(self).board.spec_columns(),
            final(self).board.spec_rows() == old(self).board.spec_rows(),
            ({
                let timer1 = old(self).debounce_timer + dt_ms;
                let piece1 = match old(self).current_tetromino {
                    Option::Some(t) => Option::Some(
                        spec_command_piece(t, old(self).board, command),
                    ),
                    Option::None => Option::<Tetromino>::None,
                };
                let speed1 = spec_speed_after(
                    old(self).speed_mode,
                    old(self).current_tetromino is Some,
                    command,
                );
                &&& final(self).speed_mode == speed1
                &&& (timer1 <= spec_threshold(speed1) ==> {
                    &&& final(self).debounce_timer == timer1
                    &&& final(self).current_tetromino == piece1
                    &&& final(self).board@ == old(self).board@
                })
                &&& (timer1 > spec_threshold(speed1) ==> {
                    &&& final(self).debounce_timer == 0
                    &&& (piece1 is None ==> {
                        &&& final(self).board@ == old(self).board@
                        &&& final(self).current_tetromino is Some
                        &&& spawned_ok(final(self).current_tetromino.unwrap(), old(self).board)
                    })
                    &&& (piece1 is Some ==> {
                        let t1 = piece1.unwrap();
                        let down = spec_moved(t1, 0, -1);
                        if spec_piece_collides(down, old(self).board) {
                            &&& final(self).current_tetromino is None
                            &&& final(self).board@ == spec_lock(
                                old(self).board@,
                                old(self).board.spec_columns(),
                                old(self).board.spec_rows(),
                                piece_cells(t1),
                                spec_color(t1.name),
                            )
                        } else {
                            &&& final(self).current_tetromino == Option::Some(down)
                            &&& final(self).board@ == old(self).board@
                        }
                    })
                })
            }),
    {
        proof {
            self.board.lemma_shape();
        }
        let ghost b0 = self.board;
        self.debounce_timer = self.debounce_timer + dt_ms;
        if let Option::Some(t) = &mut self.current_tetromino {
            let ghost t0 = *t;
            match command {
                Command::Rotate => {
                    t.rotation.next();
                    if t.collides(&self.board) {
                        t.rotation.previous();
                        proof {
                            lemma_rotation_cycle(t0.rotation);
                            assert(*t == t0);
                        }
                    } else {
                        proof {
                            assert(*t == spec_rotated(t0));
                        }
                    }
                },
                Command::MoveLeft => {
                    t.x = t.x - 1;
                    if t.collides(&self.board) {
                        t.x = t.x + 1;
                        proof {
                            assert(*t == t0);
                        }
                    } else {
                        proof {
                            assert(*t == spec_moved(t0, -1, 0));
                            lemma_no_collision_anchor_bounds(
                                t.name,
                                t.rotation,
                                t.x as int,
                                t.y as int,
                                self.board@,
                                self.board.spec_columns(),
                                self.board.spec_rows(),
                            );
                        }
                    }
                },
                Command::MoveRight => {
                    t.x = t.x + 1;
                    if t.collides(&self.board) {
                        t.x = t.x - 1;
                        proof {
                            assert(*t == t0);
                        }
                    } else {
                        proof {
                            assert(*t == spec_moved(t0, 1, 0));
                            lemma_no_collision_anchor_bounds(
                                t.name,
                                t.rotation,
                                t.x as int,
                                t.y as int,
                                self.board@,
                                self.board.spec_columns(),
                                self.board.spec_rows(),
                            );
                        }
                    }
                },
                Command::FastDropEngage => {
                    self.speed_mode = true;
                },
                Command::NoCommand => {},
                Command::FastDropRelease => {},
            }
        }
        if command == Command::FastDropRelease {
            self.speed_mode = false;
        }
        let threshold = if self.speed_mode {
            FAST_DEBOUNCE_TIME_MS
        } else {
            DEBOUNCE_TIME_MS
        };
        if self.debounce_timer > threshold {
            self.debounce_timer = 0;
            if self.current_tetromino.is_some() {
                let mut landed = false;
                if let Option::Some(t) = &mut self.current_tetromino {
                    let ghost t1 = *t;
                    t.y = t.y - 1;
                    if t.collides(&self.board) {
                        t.y = t.y + 1;
                        landed = true;
                        proof {
                            assert(*t == t1);
                        }
                    } else {
                        proof {
                            assert(*t == spec_moved(t1, 0, -1));
                            lemma_no_collision_anchor_bounds(
                                t.name,
                                t.rotation,
                                t.x as int,
                                t.y as int,
                                self.board@,
                                self.board.spec_columns(),
                                self.board.spec_rows(),
                            );
                        }
                    }
                }
                if landed {
                    self.lock_current();
                }
            } else {
                let t = Tetromino::random(&self.board);
                self.current_tetromino = Option::Some(t);
            }
        }
    }
}

} // verus!
