//! The board: a `columns x rows` grid of optional color tags, stored flat in
//! row-major order with `y = 0` as the bottom row. Besides single-cell access
//! it offers the row-clearing operation that compacts the stack downward.

use vstd::prelude::*;

use crate::color::CellColor;

verus! {

/// A row of `columns` empty cells.
pub open spec fn empty_row(columns: int) -> Seq<Option<CellColor>> {
    Seq::new(columns as nat, |x: int| Option::<CellColor>::None)
}

/// A grid of `rows` empty rows.
pub open spec fn empty_grid(columns: int, rows: int) -> Seq<Seq<Option<CellColor>>> {
    Seq::new(rows as nat, |y: int| empty_row(columns))
}

/// The grid has `rows` rows of `columns` cells each.
pub open spec fn grid_wf(g: Seq<Seq<Option<CellColor>>>, columns: int, rows: int) -> bool {
    &&& g.len() == rows
    &&& forall|y: int| 0 <= y < rows ==> (#[trigger] g[y]).len() == columns
}

/// Every cell of row `row` is occupied.
pub open spec fn spec_row_full(g: Seq<Seq<Option<CellColor>>>, columns: int, row: int) -> bool {
    forall|x: int| 0 <= x < columns ==> (#[trigger] g[row][x]) is Some
}

/// The grid after one downward shift at `row`: rows below `row` keep their
/// contents, each row from `row` up takes the row above it, and the top row
/// becomes empty.
pub open spec fn spec_shift_down(
    g: Seq<Seq<Option<CellColor>>>,
    columns: int,
    row: int,
) -> Seq<Seq<Option<CellColor>>> {
    Seq::new(
        g.len(),
        |y: int|
            if y < row {
                g[y]
            } else if y + 1 < g.len() {
                g[y + 1]
            } else {
                empty_row(columns)
            },
    )
}

/// How many consecutive rows, starting at `row`, are fully occupied.
pub open spec fn full_rows_from(g: Seq<Seq<Option<CellColor>>>, columns: int, row: int) -> nat
    decreases g.len() - row,
{
    if row >= g.len() || !spec_row_full(g, columns, row) {
        0
    } else {
        1 + full_rows_from(g, columns, row + 1)
    }
}

/// Shifting at a full `row` shortens the run of full rows starting there:
/// each shifted row is the old row above it, and the new top row is empty.
pub proof fn lemma_shift_full_rows_at_most(
    g: Seq<Seq<Option<CellColor>>>,
    columns: int,
    row: int,
    y: int,
)
    requires
        1 <= columns,
        0 <= row <= y <= g.len(),
    ensures
        full_rows_from(spec_shift_down(g, columns, row), columns, y) <= full_rows_from(
            g,
            columns,
            y + 1,
        ),
    decreases g.len() - y,
{
    let s = spec_shift_down(g, columns, row);
    if y >= g.len() {
        assert(full_rows_from(s, columns, y) == 0);
    } else if y + 1 >= g.len() {
        assert(s[y] == empty_row(columns));
        assert(s[y][0] is None);
        assert(!spec_row_full(s, columns, y));
    } else {
        if spec_row_full(s, columns, y) {
            assert(s[y] == g[y + 1]);
            assert forall|x: int| 0 <= x < columns implies (#[trigger] g[y + 1][x]) is Some by {
                assert(s[y][x] is Some);
            }
            assert(spec_row_full(g, columns, y + 1));
            lemma_shift_full_rows_at_most(g, columns, row, y + 1);
        }
    }
}

/// Shifting away a full row strictly decreases the run of full rows at `row`.
pub proof fn lemma_shift_decreases_full_rows(g: Seq<Seq<Option<CellColor>>>, columns: int, row: int)
    requires
        1 <= columns,
        0 <= row < g.len(),
        spec_row_full(g, columns, row),
    ensures
        full_rows_from(spec_shift_down(g, columns, row), columns, row) < full_rows_from(
            g,
            columns,
            row,
        ),
{
    lemma_shift_full_rows_at_most(g, columns, row, row);
    assert(full_rows_from(g, columns, row) == 1 + full_rows_from(g, columns, row + 1));
}

/// The grid after clearing at `row`: while row `row` is fully occupied, the
/// rows above shift down into it; the first time it is not full, the grid is
/// left as it stands. This is the meaning of `Board::try_line_clear`.
pub open spec fn spec_line_clear(
    g: Seq<Seq<Option<CellColor>>>,
    columns: int,
    row: int,
) -> Seq<Seq<Option<CellColor>>>
    decreases full_rows_from(g, columns, row),
        when 1 <= columns && 0 <= row < g.len()
{
    if spec_row_full(g, columns, row) {
        proof {
            lemma_shift_decreases_full_rows(g, columns, row);
        }
        spec_line_clear(spec_shift_down(g, columns, row), columns, row)
    } else {
        g
    }
}

/// A downward shift keeps the grid's shape.
pub proof fn lemma_shift_down_wf(g: Seq<Seq<Option<CellColor>>>, columns: int, rows: int, row: int)
    requires
        grid_wf(g, columns, rows),
        1 <= columns,
        0 <= row,
    ensures
        grid_wf(spec_shift_down(g, columns, row), columns, rows),
{
    assert(empty_row(columns).len() == columns);
}

/// Clearing keeps the grid's shape.
pub proof fn lemma_line_clear_wf(g: Seq<Seq<Option<CellColor>>>, columns: int, rows: int, row: int)
    requires
        grid_wf(g, columns, rows),
        1 <= columns,
        0 <= row < rows,
    ensures
        grid_wf(spec_line_clear(g, columns, row), columns, rows),
    decreases full_rows_from(g, columns, row),
{
    if spec_row_full(g, columns, row) {
        lemma_shift_decreases_full_rows(g, columns, row);
        lemma_shift_down_wf(g, columns, rows, row);
        lemma_line_clear_wf(spec_shift_down(g, columns, row), columns, rows, row);
    }
}

/// Law: clearing a row that is not fully occupied leaves the grid unchanged.
pub proof fn lemma_line_clear_noop(g: Seq<Seq<Option<CellColor>>>, columns: int, row: int)
    requires
        1 <= columns,
        0 <= row < g.len(),
        !spec_row_full(g, columns, row),
    ensures
        spec_line_clear(g, columns, row) == g,
{
}

/// Law: clearing one full row (whose shift does not make `row` full again)
/// moves every row above `row` down by one and empties the top row; rows
/// below `row` are untouched.
pub proof fn lemma_line_clear_full_row(g: Seq<Seq<Option<CellColor>>>, columns: int, row: int)
    requires
        1 <= columns,
        0 <= row < g.len(),
        spec_row_full(g, columns, row),
        !spec_row_full(spec_shift_down(g, columns, row), columns, row),
    ensures
        spec_line_clear(g, columns, row) == spec_shift_down(g, columns, row),
        forall|y: int| 0 <= y < row ==> spec_line_clear(g, columns, row)[y] == g[y],
        forall|y: int|
            row <= y < g.len() - 1 ==> spec_line_clear(g, columns, row)[y] == g[y + 1],
        spec_line_clear(g, columns, row)[g.len() - 1] == empty_row(columns),
{
    let s = spec_shift_down(g, columns, row);
    assert(spec_line_clear(s, columns, row) == s);
    assert(spec_line_clear(g, columns, row) == spec_line_clear(s, columns, row));
}

/// Law: when `row` and `row + 1` are both fully occupied, a single clearing
/// call at `row` removes both, shifting everything above down by two.
pub proof fn lemma_line_clear_cascade(g: Seq<Seq<Option<CellColor>>>, columns: int, row: int)
    requires
        1 <= columns,
        0 <= row,
        row + 1 < g.len(),
        spec_row_full(g, columns, row),
        spec_row_full(g, columns, row + 1),
        !spec_row_full(
            spec_shift_down(spec_shift_down(g, columns, row), columns, row),
            columns,
            row,
        ),
    ensures
        spec_line_clear(g, columns, row) == spec_shift_down(
            spec_shift_down(g, columns, row),
            columns,
            row,
        ),
{
    let s1 = spec_shift_down(g, columns, row);
    assert(s1[row] == g[row + 1]);
    assert forall|x: int| 0 <= x < columns implies (#[trigger] s1[row][x]) is Some by {
        assert(g[row + 1][x] is Some);
    }
    assert(spec_row_full(s1, columns, row));
    let s2 = spec_shift_down(s1, columns, row);
    assert(spec_line_clear(s2, columns, row) == s2);
    assert(spec_line_clear(s1, columns, row) == spec_line_clear(s2, columns, row));
    assert(spec_line_clear(g, columns, row) == spec_line_clear(s1, columns, row));
}

/// Flat row-major indices stay inside the allocation.
proof fn lemma_flat_index_bound(x: int, y: int, columns: int, rows: int)
    by (nonlinear_arith)
    requires
        0 <= x < columns,
        0 <= y < rows,
    ensures
        0 <= x + y * columns,
        x + y * columns < columns * rows,
{
}

/// Distinct in-range coordinates have distinct flat indices.
proof fn lemma_flat_index_injective(x1: int, y1: int, x2: int, y2: int, columns: int)
    by (nonlinear_arith)
    requires
        0 <= x1 < columns,
        0 <= x2 < columns,
        0 <= y1,
        0 <= y2,
        x1 + y1 * columns == x2 + y2 * columns,
    ensures
        x1 == x2,
        y1 == y2,
{
}

/// The playing field. Cells are stored flat, row-major from the bottom row.
pub struct Board {
    columns: usize,
    rows: usize,
    cells: Vec<Option<CellColor>>,
}

impl View for Board {
    type V = Seq<Seq<Option<CellColor>>>;

    closed spec fn view(&self) -> Seq<Seq<Option<CellColor>>> {
        Seq::new(
            self.rows as nat,
            |y: int|
                Seq::new(
                    self.columns as nat,
                    |x: int| self.cells@[x + y * (self.columns as int)],
                ),
        )
    }
}

impl Board {
    /// The board's width, as contracts speak of it.
    pub closed spec fn spec_columns(&self) -> int {
        self.columns as int
    }

    /// The board's height, as contracts speak of it.
    pub closed spec fn spec_rows(&self) -> int {
        self.rows as int
    }

    /// The allocation matches the dimensions, and the dimensions fit the
    /// signed coordinate space the piece logic works in.
    pub closed spec fn wf(&self) -> bool {
        &&& 1 <= self.columns
        &&& 1 <= self.rows
        &&& self.columns as int <= isize::MAX as int
        &&& self.rows as int <= isize::MAX as int
        &&& self.columns * self.rows <= usize::MAX
        &&& self.cells@.len() == self.columns * self.rows
    }

    /// A well-formed board's view has the shape its dimensions promise.
    pub proof fn lemma_shape(&self)
        requires
            self.wf(),
        ensures
            grid_wf(self@, self.spec_columns(), self.spec_rows()),
            1 <= self.spec_columns() <= isize::MAX as int,
            1 <= self.spec_rows() <= isize::MAX as int,
    {
    }

    /// Allocates a `columns x rows` board of empty cells.
    pub fn new(columns: usize, rows: usize) -> (r: Board)
        requires
            1 <= columns,
            1 <= rows,
            columns as int <= isize::MAX as int,
            rows as int <= isize::MAX as int,
            columns * rows <= usize::MAX,
        ensures
            r.wf(),
            r.spec_columns() == columns,
            r.spec_rows() == rows,
            r@ == empty_grid(columns as int, rows as int),
    {
        let n = columns * rows;
        let mut cells: Vec<Option<CellColor>> = Vec::new();
        let mut i: usize = 0;
        while i < n
            invariant
                i <= n,
                cells@.len() == i,
                forall|j: int| 0 <= j < i ==> cells@[j] is None,
            decreases n - i,
        {
            cells.push(Option::None);
            i += 1;
        }
        let r = Board { columns, rows, cells };
        proof {
            assert forall|y: int| 0 <= y < rows implies r@[y] =~= empty_row(columns as int) by {
                assert forall|x: int| 0 <= x < columns implies r@[y][x] is None by {
                    lemma_flat_index_bound(x, y, columns as int, rows as int);
                }
            }
            assert(r@ =~= empty_grid(columns as int, rows as int));
        }
        r
    }

    /// The board's width.
    pub fn columns(&self) -> (r: usize)
        ensures
            r == self.spec_columns(),
    {
        self.columns
    }

    /// The board's height.
    pub fn rows(&self) -> (r: usize)
        ensures
            r == self.spec_rows(),
    {
        self.rows
    }

    /// The cell at `(x, y)`. Callers must stay inside the allocated range;
    /// an out-of-range access is a programming error, not a recoverable one.
    pub fn cell_at(&self, x: usize, y: usize) -> (r: Option<CellColor>)
        requires
            self.wf(),
            x < self.spec_columns(),
            y < self.spec_rows(),
        ensures
            r == self@[y as int][x as int],
    {
        proof {
            lemma_flat_index_bound(x as int, y as int, self.columns as int, self.rows as int);
        }
        self.cells[x + y * self.columns]
    }

    /// Overwrites the cell at `(x, y)`; callers pre-validate the coordinates.
    pub fn set_cell(&mut self, x: usize, y: usize, color: Option<CellColor>)
        requires
            old(self).wf(),
            x < old(self).spec_columns(),
            y < old(self).spec_rows(),
        ensures
            final(self).wf(),
            final(self).spec_columns() == old(self).spec_columns(),
            final(self).spec_rows() == old(self).spec_rows(),
            final(self)@ == old(self)@.update(y as int, old(self)@[y as int].update(x as int, color)),
    {
        proof {
            lemma_flat_index_bound(x as int, y as int, self.columns as int, self.rows as int);
        }
        let ghost g0 = self@;
        self.cells.set(x + y * self.columns, color);
        proof {
            let c = self.columns as int;
            let rows = self.rows as int;
            let expected = g0.update(y as int, g0[y as int].update(x as int, color));
            assert forall|yy: int| 0 <= yy < rows implies self@[yy] =~= expected[yy] by {
                assert forall|xx: int| 0 <= xx < c implies self@[yy][xx] == expected[yy][xx] by {
                    lemma_flat_index_bound(xx, yy, c, rows);
                    if xx + yy * c == x + y * c {
                        lemma_flat_index_injective(xx, yy, x as int, y as int, c);
                    }
                }
            }
            assert(self@ =~= expected);
        }
    }

    /// Whether the cell at `(x, y)` holds a color.
    pub fn occupied_at(&self, x: usize, y: usize) -> (r: bool)
        requires
            self.wf(),
            x < self.spec_columns(),
            y < self.spec_rows(),
        ensures
            r == self@[y as int][x as int] is Some,
    {
        match self.cell_at(x, y) {
            Option::None => false,
            Option::Some(_) => true,
        }
    }

    /// Resets every cell to empty.
    pub fn clear(&mut self)
        requires
            old(self).wf(),
        ensures
            final(self).wf(),
            final(self).spec_columns() == old(self).spec_columns(),
            final(self).spec_rows() == old(self).spec_rows(),
            final(self)@ == empty_grid(old(self).spec_columns(), old(self).spec_rows()),
    {
        let mut i: usize = 0;
        let n = self.cells.len();
        while i < n
            invariant
                i <= n,
                n == self.cells@.len(),
                self.columns == old(self).columns,
                self.rows == old(self).rows,
                self.cells@.len() == old(self).cells@.len(),
                forall|j: int| 0 <= j < i ==> self.cells@[j] is None,
            decreases n - i,
        {
            self.cells.set(i, Option::None);
            i += 1;
        }
        proof {
            let c = self.columns as int;
            let rows = self.rows as int;
            assert forall|y: int| 0 <= y < rows implies self@[y] =~= empty_row(c) by {
                assert forall|x: int| 0 <= x < c implies self@[y][x] is None by {
                    lemma_flat_index_bound(x, y, c, rows);
                }
            }
            assert(self@ =~= empty_grid(c, rows));
        }
    }

    /// Whether row `row` is fully occupied.
    fn row_is_full(&self, row: usize) -> (r: bool)
        requires
            self.wf(),
            row < self.spec_rows(),
        ensures
            r == spec_row_full(self@, self.spec_columns(), row as int),
    {
        let mut x: usize = 0;
        while x < self.columns
            invariant
                self.wf(),
                row < self.spec_rows(),
                x <= self.spec_columns(),
                forall|i: int| 0 <= i < x ==> (#[trigger] self@[row as int][i]) is Some,
            decreases self.spec_columns() - x,
        {
            if !self.occupied_at(x, row) {
                assert(!spec_row_full(self@, self.spec_columns(), row as int));
                return false;
            }
            x += 1;
        }
        true
    }

    /// Copies each row above `row` one row down and empties the top row.
    fn shift_rows_down(&mut self, row: usize)
        requires
            old(self).wf(),
            row < old(self).spec_rows(),
        ensures
            final(self).wf(),
            final(self).spec_columns() == old(self).spec_columns(),
            final(self).spec_rows() == old(self).spec_rows(),
            final(self)@ == spec_shift_down(old(self)@, old(self).spec_columns(), row as int),
    {
        let ghost g0 = self@;
        let ghost c = self.spec_columns();
        let ghost r = self.spec_rows();
        let rows = self.rows;
        let mut y = row;
        while y + 1 < rows
            invariant
                self.wf(),
                self.spec_columns() == c,
                self.spec_rows() == r,
                rows == r,
                row <= y < r,
                forall|yy: int| 0 <= yy < r && !(row <= yy < y) ==> self@[yy] == g0[yy],
                forall|yy: int| row <= yy < y ==> self@[yy] == g0[yy + 1],
            decreases r - y,
        {
            let ghost g1 = self@;
            let mut x: usize = 0;
            while x < self.columns
                invariant
                    self.wf(),
                    self.spec_columns() == c,
                    self.spec_rows() == r,
                    row <= y,
                    y + 1 < r,
                    x <= c,
                    forall|yy: int| 0 <= yy < r && yy != y ==> self@[yy] == g1[yy],
                    forall|xx: int|
                        0 <= xx < x ==> (#[trigger] self@[y as int][xx]) == g1[y + 1][xx],
                decreases c - x,
            {
                let v = self.cell_at(x, y + 1);
                self.set_cell(x, y, v);
                x += 1;
            }
            proof {
                assert(self@[y as int] =~= g1[y + 1]);
                assert(g1[y + 1] == g0[y + 1]);
                assert forall|yy: int| row <= yy < y + 1 implies self@[yy] == g0[yy + 1] by {
                    if yy < y {
                        assert(self@[yy] == g1[yy]);
                        assert(g1[yy] == g0[yy + 1]);
                    }
                }
                assert forall|yy: int|
                    0 <= yy < r && !(row <= yy < y + 1) implies self@[yy] == g0[yy] by {
                    assert(self@[yy] == g1[yy]);
                    assert(g1[yy] == g0[yy]);
                }
            }
            y += 1;
        }
        let ghost g2 = self@;
        let mut x: usize = 0;
        while x < self.columns
            invariant
                self.wf(),
                self.spec_columns() == c,
                self.spec_rows() == r,
                rows == r,
                y == r - 1,
                x <= c,
                forall|yy: int| 0 <= yy < r && yy != y ==> self@[yy] == g2[yy],
                forall|xx: int| 0 <= xx < x ==> (#[trigger] self@[y as int][xx]) is None,
            decreases c - x,
        {
            self.set_cell(x, rows - 1, Option::None);
            x += 1;
        }
        proof {
            assert(self@[r - 1] =~= empty_row(c));
            assert(g0.len() == r);
            assert forall|yy: int| 0 <= yy < r implies self@[yy] == spec_shift_down(
                g0,
                c,
                row as int,
            )[yy] by {
                if yy < row {
                    assert(self@[yy] == g2[yy]);
                    assert(g2[yy] == g0[yy]);
                } else if yy + 1 < r {
                    assert(yy != r - 1);
                    assert(self@[yy] == g2[yy]);
                    assert(g2[yy] == g0[yy + 1]);
                } else {
                    assert(yy == r - 1);
                    assert(self@[yy] =~= empty_row(c));
                }
            }
            assert(self@ =~= spec_shift_down(g0, c, row as int));
        }
    }

    /// If row `row` is fully occupied, shift every row above it down by one
    /// (emptying the top row), and repeat at the same index until the row is
    /// no longer full; otherwise leave the board unchanged.
    pub fn try_line_clear(&mut self, row: isize)
        requires
            old(self).wf(),
            0 <= row < old(self).spec_rows(),
        ensures
            final(self).wf(),
            final(self).spec_columns() == old(self).spec_columns(),
            final(self).spec_rows() == old(self).spec_rows(),
            final(self)@ == spec_line_clear(old(self)@, old(self).spec_columns(), row as int),
    {
        let ghost g0 = self@;
        let ghost c = self.spec_columns();
        let r = row as usize;
        loop
            invariant
                self.wf(),
                self.spec_columns() == c,
                self.spec_rows() == old(self).spec_rows(),
                r == row as int,
                0 <= row,
                row < self.spec_rows(),
                spec_line_clear(g0, c, row as int) == spec_line_clear(self@, c, row as int),
            ensures
                self.wf(),
                self.spec_columns() == c,
                self.spec_rows() == old(self).spec_rows(),
                !spec_row_full(self@, c, row as int),
                spec_line_clear(g0, c, row as int) == spec_line_clear(self@, c, row as int),
            decreases full_rows_from(self@, c, row as int),
        {
            if !self.row_is_full(r) {
                break;
            }
            let ghost gp = self@;
            self.shift_rows_down(r);
            proof {
                lemma_shift_decreases_full_rows(gp, c, row as int);
            }
        }
        proof {
            assert(spec_line_clear(self@, c, row as int) == self@);
        }
    }
}

} // verus!
