//! Piece kinds, rotation states, and the geometry that turns a piece's
//! canonical turning points into the four grid cells it occupies.
//!
//! A kind's shape is a short sequence of turning points; consecutive
//! axis-aligned pairs trace a filled line of unit cells, a disjoint pair
//! (the T shape's two strokes) emits the previous point as a lone cell, and
//! the final point is always emitted. Rotation maps the turning points before
//! the walk; the anchor is added to every filled cell afterwards.

use vstd::prelude::*;

use crate::board::Board;
use crate::color::CellColor;

verus! {

/// The four rotation states of a piece, a quarter turn apart.
#[derive(Clone, Copy, PartialEq, Eq, Structural, Debug)]
pub enum TetrominoRotation {
    Zero,
    HalfPi,
    Pi,
    TwoPiOverThree,
}

/// The rotation state one quarter turn forward from `r`.
pub open spec fn spec_next_rotation(r: TetrominoRotation) -> TetrominoRotation {
    match r {
        TetrominoRotation::Zero => TetrominoRotation::HalfPi,
        TetrominoRotation::HalfPi => TetrominoRotation::Pi,
        TetrominoRotation::Pi => TetrominoRotation::TwoPiOverThree,
        TetrominoRotation::TwoPiOverThree => TetrominoRotation::Zero,
    }
}

/// The rotation state one quarter turn backward from `r`.
pub open spec fn spec_previous_rotation(r: TetrominoRotation) -> TetrominoRotation {
    match r {
        TetrominoRotation::Zero => TetrominoRotation::TwoPiOverThree,
        TetrominoRotation::TwoPiOverThree => TetrominoRotation::Pi,
        TetrominoRotation::Pi => TetrominoRotation::HalfPi,
        TetrominoRotation::HalfPi => TetrominoRotation::Zero,
    }
}

impl TetrominoRotation {
    /// Advance to the next rotation state (a quarter turn forward).
    pub fn next(&mut self)
        ensures
            *final(self) == spec_next_rotation(*old(self)),
    {
        *self = match self {
            Self::Zero => Self::HalfPi,
            Self::HalfPi => Self::Pi,
            Self::Pi => Self::TwoPiOverThree,
            Self::TwoPiOverThree => Self::Zero,
        }
    }

    /// Step back to the previous rotation state (a quarter turn backward).
    pub fn previous(&mut self)
        ensures
            *final(self) == spec_previous_rotation(*old(self)),
    {
        *self = match self {
            Self::Zero => Self::TwoPiOverThree,
            Self::TwoPiOverThree => Self::Pi,
            Self::Pi => Self::HalfPi,
            Self::HalfPi => Self::Zero,
        }
    }
}

/// Law: rotation is a cyclic group of order four. Four forward turns, or four
/// backward turns, return a rotation state to itself, and a backward turn
/// undoes a forward one.
pub proof fn lemma_rotation_cycle(r: TetrominoRotation)
    ensures
        spec_next_rotation(spec_next_rotation(spec_next_rotation(spec_next_rotation(r)))) == r,
        spec_previous_rotation(spec_previous_rotation(spec_previous_rotation(
            spec_previous_rotation(r),
        ))) == r,
        spec_previous_rotation(spec_next_rotation(r)) == r,
        spec_next_rotation(spec_previous_rotation(r)) == r,
{
}

/// The seven piece kinds.
#[derive(Clone, Copy, PartialEq, Eq, Structural, Debug)]
pub enum TetrominoName {
    I,
    J,
    L,
    O,
    S,
    T,
    Z,
}

/// The canonical turning points of a kind's outline at zero rotation.
pub open spec fn spec_points(name: TetrominoName) -> Seq<(int, int)> {
    match name {
        TetrominoName::I => seq![(1, 0), (1, 3)],
        TetrominoName::J => seq![(0, 0), (1, 0), (1, 2)],
        TetrominoName::L => seq![(1, 2), (1, 0), (2, 0)],
        TetrominoName::O => seq![(0, 1), (0, 0), (1, 0), (1, 1)],
        TetrominoName::S => seq![(0, 1), (1, 1), (1, 2), (2, 2)],
        TetrominoName::T => seq![(0, 1), (2, 1), (1, 2)],
        TetrominoName::Z => seq![(0, 2), (1, 2), (1, 1), (2, 1)],
    }
}

/// The fixed color tag of a kind.
pub open spec fn spec_color(name: TetrominoName) -> CellColor {
    match name {
        TetrominoName::I => CellColor::Cyan,
        TetrominoName::J => CellColor::Blue,
        TetrominoName::L => CellColor::Orange,
        TetrominoName::O => CellColor::Yellow,
        TetrominoName::S => CellColor::Green,
        TetrominoName::T => CellColor::Purple,
        TetrominoName::Z => CellColor::Red,
    }
}

/// A kind's bounding length: the largest canonical coordinate plus one.
pub open spec fn spec_length(name: TetrominoName) -> int {
    match name {
        TetrominoName::I => 4,
        TetrominoName::J => 3,
        TetrominoName::L => 3,
        TetrominoName::O => 2,
        TetrominoName::S => 3,
        TetrominoName::T => 3,
        TetrominoName::Z => 3,
    }
}

/// A stored point sequence, read as mathematical pairs.
pub open spec fn view_points(s: Seq<(isize, isize)>) -> Seq<(int, int)> {
    Seq::new(s.len(), |i: int| (s[i].0 as int, s[i].1 as int))
}

/// How far a single point reaches: its larger coordinate plus one.
pub open spec fn point_extent(p: (int, int)) -> int {
    (if p.0 >= p.1 {
        p.0
    } else {
        p.1
    }) + 1
}

/// The largest extent among the points from index `i` on (zero when none).
pub open spec fn max_extent_from(points: Seq<(int, int)>, i: int) -> int
    decreases points.len() - i,
{
    if i >= points.len() {
        0
    } else {
        let rest = max_extent_from(points, i + 1);
        if point_extent(points[i]) >= rest {
            point_extent(points[i])
        } else {
            rest
        }
    }
}

/// The bounding length of a point set.
pub open spec fn max_extent(points: Seq<(int, int)>) -> int {
    max_extent_from(points, 0)
}

/// A canonical point rotated within a bounding box of side `length`.
pub open spec fn rotate_point(p: (int, int), length: int, r: TetrominoRotation) -> (int, int) {
    match r {
        TetrominoRotation::Zero => p,
        TetrominoRotation::HalfPi => (length - p.1 - 1, p.0),
        TetrominoRotation::Pi => (length - p.0 - 1, length - p.1 - 1),
        TetrominoRotation::TwoPiOverThree => (p.1, length - p.0 - 1),
    }
}

/// The canonical points of `name`, each rotated by `r`.
pub open spec fn spec_rotated_points(name: TetrominoName, r: TetrominoRotation) -> Seq<(int, int)> {
    Seq::new(
        spec_points(name).len(),
        |i: int| rotate_point(spec_points(name)[i], spec_length(name), r),
    )
}

/// The cells the walk emits when stepping from `last` to `cur`: an aligned
/// pair traces the line between them (excluding whichever endpoint the walk
/// direction leaves to a later step), a disjoint pair emits `last` alone.
pub open spec fn span_cells(last: (int, int), cur: (int, int)) -> Seq<(int, int)> {
    if cur.0 == last.0 {
        if last.1 < cur.1 {
            Seq::new((cur.1 - last.1) as nat, |k: int| (cur.0, last.1 + k))
        } else {
            Seq::new((last.1 - cur.1) as nat, |k: int| (cur.0, cur.1 + 1 + k))
        }
    } else if cur.1 == last.1 {
        if last.0 < cur.0 {
            Seq::new((cur.0 - last.0) as nat, |k: int| (last.0 + k, cur.1))
        } else {
            Seq::new((last.0 - cur.0) as nat, |k: int| (cur.0 + 1 + k, cur.1))
        }
    } else {
        seq![last]
    }
}

/// The rest of the fill walk: step through the points from index `i` with
/// `last` as the previous turning point, then emit the final point.
pub open spec fn fill_from(points: Seq<(int, int)>, i: int, last: (int, int)) -> Seq<(int, int)>
    decreases points.len() - i,
{
    if i >= points.len() {
        seq![last]
    } else {
        span_cells(last, points[i]) + fill_from(points, i + 1, points[i])
    }
}

/// The unit cells filled by walking a point sequence from its first point.
pub open spec fn fill_cells(points: Seq<(int, int)>) -> Seq<(int, int)> {
    fill_from(points, 0, points[0])
}

/// The cells a kind occupies under rotation `r`, relative to its anchor.
pub open spec fn local_cells(name: TetrominoName, r: TetrominoRotation) -> Seq<(int, int)> {
    fill_cells(spec_rotated_points(name, r))
}

/// Every cell offset by the anchor `(x, y)`.
pub open spec fn add_anchor(cells: Seq<(int, int)>, x: int, y: int) -> Seq<(int, int)> {
    Seq::new(cells.len(), |i: int| (x + cells[i].0, y + cells[i].1))
}

/// The board cells a piece of kind `name`, rotation `r`, anchored at
/// `(x, y)`, occupies. This is the meaning of `Tetromino::get_cells`.
pub open spec fn spec_cells(
    name: TetrominoName,
    r: TetrominoRotation,
    x: int,
    y: int,
) -> Seq<(int, int)> {
    add_anchor(local_cells(name, r), x, y)
}

/// Anchoring distributes over concatenation.
proof fn lemma_add_anchor_concat(a: Seq<(int, int)>, b: Seq<(int, int)>, x: int, y: int)
    ensures
        add_anchor(a + b, x, y) == add_anchor(a, x, y) + add_anchor(b, x, y),
{
    assert(add_anchor(a + b, x, y) =~= add_anchor(a, x, y) + add_anchor(b, x, y));
}

/// A stored cell list that extends `cells0` by the anchored cells of `span`
/// reads as the concatenation of the two.
proof fn lemma_view_concat(
    cells: Seq<(isize, isize)>,
    cells0: Seq<(isize, isize)>,
    span: Seq<(int, int)>,
    gx: int,
    gy: int,
)
    requires
        cells.len() == cells0.len() + span.len(),
        forall|j: int| 0 <= j < cells0.len() ==> cells[j] == cells0[j],
        forall|k: int|
            0 <= k < span.len() ==> {
                &&& (#[trigger] cells[cells0.len() + k]).0 as int == gx + span[k].0
                &&& cells[cells0.len() + k].1 as int == gy + span[k].1
            },
    ensures
        view_points(cells) == view_points(cells0) + add_anchor(span, gx, gy),
{
    assert forall|j: int| 0 <= j < cells.len() implies view_points(cells)[j] == (view_points(
        cells0,
    ) + add_anchor(span, gx, gy))[j] by {
        if j >= cells0.len() {
            let k = j - cells0.len();
            assert(cells[cells0.len() + k].0 as int == gx + span[k].0);
        }
    }
    assert(view_points(cells) =~= view_points(cells0) + add_anchor(span, gx, gy));
}

/// The canonical points are at least two and lie inside the bounding box.
pub proof fn lemma_canonical_points_in_range(name: TetrominoName)
    ensures
        2 <= spec_points(name).len() <= 4,
        2 <= spec_length(name) <= 4,
        forall|i: int|
            0 <= i < spec_points(name).len() ==> {
                &&& 0 <= (#[trigger] spec_points(name)[i]).0 < spec_length(name)
                &&& 0 <= spec_points(name)[i].1 < spec_length(name)
            },
{
    match name {
        TetrominoName::I => {
            assert(spec_points(name).len() == 2);
        },
        TetrominoName::J => {
            assert(spec_points(name).len() == 3);
        },
        TetrominoName::L => {
            assert(spec_points(name).len() == 3);
        },
        TetrominoName::O => {
            assert(spec_points(name).len() == 4);
        },
        TetrominoName::S => {
            assert(spec_points(name).len() == 4);
        },
        TetrominoName::T => {
            assert(spec_points(name).len() == 3);
        },
        TetrominoName::Z => {
            assert(spec_points(name).len() == 4);
        },
    }
}

/// The bounding length computed from the canonical points is the kind's
/// fixed length.
pub proof fn lemma_canonical_length(name: TetrominoName)
    ensures
        max_extent(spec_points(name)) == spec_length(name),
{
    reveal_with_fuel(max_extent_from, 6);
    match name {
        TetrominoName::I => {
            assert(max_extent(spec_points(name)) == 4);
        },
        TetrominoName::J => {
            assert(max_extent(spec_points(name)) == 3);
        },
        TetrominoName::L => {
            assert(max_extent(spec_points(name)) == 3);
        },
        TetrominoName::O => {
            assert(max_extent(spec_points(name)) == 2);
        },
        TetrominoName::S => {
            assert(max_extent(spec_points(name)) == 3);
        },
        TetrominoName::T => {
            assert(max_extent(spec_points(name)) == 3);
        },
        TetrominoName::Z => {
            assert(max_extent(spec_points(name)) == 3);
        },
    }
}

/// Rotated points stay inside the bounding box.
pub proof fn lemma_rotated_points_in_range(name: TetrominoName, r: TetrominoRotation)
    ensures
        spec_rotated_points(name, r).len() == spec_points(name).len(),
        forall|i: int|
            0 <= i < spec_rotated_points(name, r).len() ==> {
                &&& 0 <= (#[trigger] spec_rotated_points(name, r)[i]).0 < spec_length(name)
                &&& 0 <= spec_rotated_points(name, r)[i].1 < spec_length(name)
            },
{
    lemma_canonical_points_in_range(name);
    assert forall|i: int| 0 <= i < spec_rotated_points(name, r).len() implies {
        &&& 0 <= (#[trigger] spec_rotated_points(name, r)[i]).0 < spec_length(name)
        &&& 0 <= spec_rotated_points(name, r)[i].1 < spec_length(name)
    } by {
        assert(0 <= spec_points(name)[i].0 < spec_length(name));
        assert(0 <= spec_points(name)[i].1 < spec_length(name));
    }
}

/// The catalog entry of one kind: its color tag and canonical points.
pub struct TetrominoStructure {
    pub color: CellColor,
    pub points: Vec<(isize, isize)>,
}

impl TetrominoStructure {
    /// The bounding length of this structure: its largest coordinate plus one.
    pub fn get_length(&self) -> (r: isize)
        requires
            self.points@.len() >= 1,
            forall|i: int|
                0 <= i < self.points@.len() ==> {
                    &&& 0 <= (#[trigger] self.points@[i]).0 < isize::MAX
                    &&& 0 <= self.points@[i].1 < isize::MAX
                },
        ensures
            r == max_extent(view_points(self.points@)),
    {
        let ghost v = view_points(self.points@);
        let mut m: isize = 0;
        let mut i: usize = self.points.len();
        while i > 0
            invariant
                i <= self.points@.len(),
                v == view_points(self.points@),
                forall|j: int|
                    0 <= j < self.points@.len() ==> {
                        &&& 0 <= (#[trigger] self.points@[j]).0 < isize::MAX
                        &&& 0 <= self.points@[j].1 < isize::MAX
                    },
                m == max_extent_from(v, i as int),
                0 <= m,
            decreases i,
        {
            i = i - 1;
            let p = self.points[i];
            let big = if p.0 >= p.1 {
                p.0
            } else {
                p.1
            };
            let e = big + 1;
            if e >= m {
                m = e;
            }
            proof {
                assert(v[i as int] == (p.0 as int, p.1 as int));
                assert(point_extent(v[i as int]) == e as int);
            }
        }
        m
    }
}

/// An active piece: its kind, catalog entry, rotation state, and the board
/// coordinate of its bounding box's bottom-left corner.
pub struct Tetromino {
    pub name: TetrominoName,
    pub structure: TetrominoStructure,
    pub rotation: TetrominoRotation,
    pub x: isize,
    pub y: isize,
}

/// One cell collides when it lies beyond a side wall, below the floor, or on
/// an occupied cell of the visible grid; cells at or above the top are in
/// the air and collide with nothing.
pub open spec fn spec_cell_collides(
    g: Seq<Seq<Option<CellColor>>>,
    columns: int,
    rows: int,
    c: (int, int),
) -> bool {
    ||| c.0 < 0
    ||| c.0 >= columns
    ||| c.1 < 0
    ||| (c.1 < rows && g[c.1][c.0] is Some)
}

/// A cell set collides when any of its cells does.
pub open spec fn spec_collides(
    cells: Seq<(int, int)>,
    g: Seq<Seq<Option<CellColor>>>,
    columns: int,
    rows: int,
) -> bool {
    exists|i: int|
        0 <= i < cells.len() && spec_cell_collides(g, columns, rows, #[trigger] cells[i])
}

/// Relies on macroquad::rand::gen_range (quad_rand's PCG generator). It
/// computes `low + (high - low) * rand() / 2^32` through f64 and truncates,
/// so for a large `low` the final addition can round up to exactly `high`;
/// with `low == 0` there is no addition, the product stays strictly below
/// `high`, and truncation lands in [0, high).
#[verifier::external_body]
fn gen_range_i32(low: i32, high: i32) -> (r: i32)
    requires
        low == 0,
        0 < high,
    ensures
        0 <= r < high,
{
    macroquad::rand::gen_range(low, high)
}

impl Tetromino {
    /// The stored catalog entry matches the piece's kind.
    pub open spec fn wf(&self) -> bool {
        &&& view_points(self.structure.points@) == spec_points(self.name)
        &&& self.structure.color == spec_color(self.name)
    }

    /// The catalog entry of `name`.
    fn make_structure(name: TetrominoName) -> (s: TetrominoStructure)
        ensures
            view_points(s.points@) == spec_points(name),
            s.color == spec_color(name),
    {
        let mut points: Vec<(isize, isize)> = Vec::new();
        let color: CellColor;
        match name {
            TetrominoName::I => {
                color = CellColor::Cyan;
                points.push((1, 0));
                points.push((1, 3));
            },
            TetrominoName::J => {
                color = CellColor::Blue;
                points.push((0, 0));
                points.push((1, 0));
                points.push((1, 2));
            },
            TetrominoName::L => {
                color = CellColor::Orange;
                points.push((1, 2));
                points.push((1, 0));
                points.push((2, 0));
            },
            TetrominoName::O => {
                color = CellColor::Yellow;
                points.push((0, 1));
                points.push((0, 0));
                points.push((1, 0));
                points.push((1, 1));
            },
            TetrominoName::S => {
                color = CellColor::Green;
                points.push((0, 1));
                points.push((1, 1));
                points.push((1, 2));
                points.push((2, 2));
            },
            TetrominoName::T => {
                color = CellColor::Purple;
                points.push((0, 1));
                points.push((2, 1));
                points.push((1, 2));
            },
            TetrominoName::Z => {
                color = CellColor::Red;
                points.push((0, 2));
                points.push((1, 2));
                points.push((1, 1));
                points.push((2, 1));
            },
        }
        proof {
            assert(view_points(points@) =~= spec_points(name));
        }
        TetrominoStructure { color, points }
    }

    /// Spawns a piece of the given kind just above the board's top row, at a
    /// pseudo-random column chosen so the piece fits between the walls.
    pub fn new(tetromino_name: TetrominoName, board: &Board) -> (r: Tetromino)
        requires
            board.wf(),
            spec_length(tetromino_name) <= board.spec_columns(),
            board.spec_columns() <= i32::MAX as int,
        ensures
            r.wf(),
            r.name == tetromino_name,
            r.rotation == TetrominoRotation::Zero,
            r.y == board.spec_rows(),
            0 <= r.x <= board.spec_columns() - spec_length(tetromino_name),
    {
        proof {
            board.lemma_shape();
            lemma_canonical_points_in_range(tetromino_name);
            lemma_canonical_length(tetromino_name);
        }
        let structure = Self::make_structure(tetromino_name);
        let structure_length = structure.get_length();
        let columns = board.columns();
        let hi: i32 = (columns as i32) - (structure_length as i32) + 1;
        let x = gen_range_i32(0, hi);
        Tetromino {
            name: tetromino_name,
            structure,
            rotation: TetrominoRotation::Zero,
            x: x as isize,
            y: board.rows() as isize,
        }
    }

    /// Spawns a piece of a pseudo-random kind, each of the seven equally
    /// likely, just above the board's top row.
    pub fn random(board: &Board) -> (r: Tetromino)
        requires
            board.wf(),
            4 <= board.spec_columns(),
            board.spec_columns() <= i32::MAX as int,
        ensures
            r.wf(),
            r.rotation == TetrominoRotation::Zero,
            r.y == board.spec_rows(),
            0 <= r.x <= board.spec_columns() - spec_length(r.name),
    {
        let k = gen_range_i32(0, 7);
        let name = if k == 0 {
            TetrominoName::I
        } else if k == 1 {
            TetrominoName::J
        } else if k == 2 {
            TetrominoName::L
        } else if k == 3 {
            TetrominoName::O
        } else if k == 4 {
            TetrominoName::S
        } else if k == 5 {
            TetrominoName::T
        } else {
            TetrominoName::Z
        };
        proof {
            lemma_canonical_points_in_range(name);
        }
        Tetromino::new(name, board)
    }

    /// The piece's bounding length.
    pub fn get_length(&self) -> (r: isize)
        requires
            self.wf(),
        ensures
            r == spec_length(self.name),
    {
        proof {
            lemma_canonical_points_in_range(self.name);
            lemma_canonical_length(self.name);
        }
        self.structure.get_length()
    }

    /// The piece's turning points under its current rotation.
    fn get_points_for_rotation(&self) -> (r: Vec<(isize, isize)>)
        requires
            self.wf(),
        ensures
            view_points(r@) == spec_rotated_points(self.name, self.rotation),
    {
        proof {
            lemma_canonical_points_in_range(self.name);
        }
        let length = self.get_length();
        let n = self.structure.points.len();
        let mut out: Vec<(isize, isize)> = Vec::new();
        let mut i: usize = 0;
        while i < n
            invariant
                self.wf(),
                n == self.structure.points@.len(),
                i <= n,
                length == spec_length(self.name),
                2 <= length <= 4,
                forall|j: int|
                    0 <= j < n ==> {
                        &&& 0 <= (#[trigger] spec_points(self.name)[j]).0 < length
                        &&& 0 <= spec_points(self.name)[j].1 < length
                    },
                out@.len() == i,
                forall|j: int|
                    0 <= j < i ==> (#[trigger] view_points(out@)[j]) == spec_rotated_points(
                        self.name,
                        self.rotation,
                    )[j],
            decreases n - i,
        {
            let p = self.structure.points[i];
            let (a, b) = p;
            proof {
                assert(view_points(self.structure.points@)[i as int] == (a as int, b as int));
                assert((a as int, b as int) == spec_points(self.name)[i as int]);
            }
            let q: (isize, isize) = match self.rotation {
                TetrominoRotation::Zero => (a, b),
                TetrominoRotation::HalfPi => (length - b - 1, a),
                TetrominoRotation::Pi => (length - a - 1, length - b - 1),
                TetrominoRotation::TwoPiOverThree => (b, length - a - 1),
            };
            let ghost out0 = out@;
            out.push(q);
            proof {
                assert((q.0 as int, q.1 as int) == rotate_point(
                    spec_points(self.name)[i as int],
                    spec_length(self.name),
                    self.rotation,
                ));
                assert forall|j: int| 0 <= j < i + 1 implies (#[trigger] view_points(out@)[j])
                    == spec_rotated_points(self.name, self.rotation)[j] by {
                    if j < i {
                        assert(out@[j] == out0[j]);
                        assert(view_points(out0)[j] == spec_rotated_points(
                            self.name,
                            self.rotation,
                        )[j]);
                    } else {
                        assert(out@[j] == q);
                    }
                }
            }
            i += 1;
        }
        proof {
            assert(view_points(out@) =~= spec_rotated_points(self.name, self.rotation));
        }
        out
    }

    /// The four board cells the piece occupies: the fill walk over its
    /// rotated turning points, each cell offset by the anchor.
    pub fn get_cells(&self) -> (r: Vec<(isize, isize)>)
        requires
            self.wf(),
            self.x + 4 <= isize::MAX,
            self.y + 4 <= isize::MAX,
        ensures
            view_points(r@) == spec_cells(
                self.name,
                self.rotation,
                self.x as int,
                self.y as int,
            ),
    {
        proof {
            lemma_canonical_points_in_range(self.name);
            lemma_rotated_points_in_range(self.name, self.rotation);
        }
        let ghost rp = spec_rotated_points(self.name, self.rotation);
        let ghost ll = spec_length(self.name);
        let ghost gx = self.x as int;
        let ghost gy = self.y as int;
        let points = self.get_points_for_rotation();
        let mut cells: Vec<(isize, isize)> = Vec::new();
        let first = points[0];
        let mut lx = first.0;
        let mut ly = first.1;
        proof {
            assert(view_points(points@)[0] == (first.0 as int, first.1 as int));
            assert((lx as int, ly as int) == rp[0]);
            assert(0 <= rp[0].0 < ll && 0 <= rp[0].1 < ll);
        }
        let n = points.len();
        let mut i: usize = 0;
        while i < n
            invariant
                view_points(points@) == rp,
                n == points@.len(),
                n == rp.len(),
                2 <= rp.len(),
                i <= n,
                2 <= ll <= 4,
                gx == self.x as int,
                gy == self.y as int,
                gx + 4 <= isize::MAX,
                gy + 4 <= isize::MAX,
                forall|j: int|
                    0 <= j < rp.len() ==> {
                        &&& 0 <= (#[trigger] rp[j]).0 < ll
                        &&& 0 <= rp[j].1 < ll
                    },
                0 <= lx < ll,
                0 <= ly < ll,
                spec_cells(self.name, self.rotation, gx, gy) == view_points(cells@) + add_anchor(
                    fill_from(rp, i as int, (lx as int, ly as int)),
                    gx,
                    gy,
                ),
            decreases n - i,
        {
            let ghost cells0 = cells@;
            let ghost last = (lx as int, ly as int);
            let p = points[i];
            let (cx, cy) = p;
            proof {
                assert(view_points(points@)[i as int] == (cx as int, cy as int));
                assert((cx as int, cy as int) == rp[i as int]);
            }
            let ghost cur = (cx as int, cy as int);
            let ghost span = span_cells(last, cur);
            if cx == lx {
                if ly < cy {
                    let mut v = ly;
                    while v < cy
                        invariant
                            ly <= v <= cy,
                            0 <= ly,
                            cy < ll <= 4,
                            gx == self.x as int,
                            gy == self.y as int,
                            gx + 4 <= isize::MAX,
                            gy + 4 <= isize::MAX,
                            0 <= cx < ll,
                            cells@.len() == cells0.len() + (v - ly),
                            forall|j: int| 0 <= j < cells0.len() ==> cells@[j] == cells0[j],
                            forall|k: int|
                                0 <= k < v - ly ==> (#[trigger] cells@[cells0.len() + k]) == ((
                                (gx + cx as int) as isize,
                                (gy + ly as int + k) as isize,
                                )),
                        decreases cy - v,
                    {
                        cells.push((self.x + cx, self.y + v));
                        v += 1;
                    }
                    proof {
                        lemma_view_concat(cells@, cells0, span, gx, gy);
                    }
                } else {
                    let mut v = cy + 1;
                    while v <= ly
                        invariant
                            cy + 1 <= v <= ly + 1,
                            0 <= cy,
                            ly < ll <= 4,
                            gx == self.x as int,
                            gy == self.y as int,
                            gx + 4 <= isize::MAX,
                            gy + 4 <= isize::MAX,
                            0 <= cx < ll,
                            cells@.len() == cells0.len() + (v - cy - 1),
                            forall|j: int| 0 <= j < cells0.len() ==> cells@[j] == cells0[j],
                            forall|k: int|
                                0 <= k < v - cy - 1 ==> (#[trigger] cells@[cells0.len() + k]) == ((
                                (gx + cx as int) as isize,
                                (gy + cy as int + 1 + k) as isize,
                                )),
                        decreases ly + 1 - v,
                    {
                        cells.push((self.x + cx, self.y + v));
                        v += 1;
                    }
                    proof {
                        lemma_view_concat(cells@, cells0, span, gx, gy);
                    }
                }
            } else if cy == ly {
                if lx < cx {
                    let mut h = lx;
                    while h < cx
                        invariant
                            lx <= h <= cx,
                            0 <= lx,
                            cx < ll <= 4,
                            gx == self.x as int,
                            gy == self.y as int,
                            gx + 4 <= isize::MAX,
                            gy + 4 <= isize::MAX,
                            0 <= cy < ll,
                            cells@.len() == cells0.len() + (h - lx),
                            forall|j: int| 0 <= j < cells0.len() ==> cells@[j] == cells0[j],
                            forall|k: int|
                                0 <= k < h - lx ==> (#[trigger] cells@[cells0.len() + k]) == ((
                                (gx + lx as int + k) as isize,
                                (gy + cy as int) as isize,
                                )),
                        decreases cx - h,
                    {
                        cells.push((self.x + h, self.y + cy));
                        h += 1;
                    }
                    proof {
                        lemma_view_concat(cells@, cells0, span, gx, gy);
                    }
                } else {
                    let mut h = cx + 1;
                    while h <= lx
                        invariant
                            cx + 1 <= h <= lx + 1,
                            0 <= cx,
                            lx < ll <= 4,
                            gx == self.x as int,
                            gy == self.y as int,
                            gx + 4 <= isize::MAX,
                            gy + 4 <= isize::MAX,
                            0 <= cy < ll,
                            cells@.len() == cells0.len() + (h - cx - 1),
                            forall|j: int| 0 <= j < cells0.len() ==> cells@[j] == cells0[j],
                            forall|k: int|
                                0 <= k < h - cx - 1 ==> (#[trigger] cells@[cells0.len() + k]) == ((
                                (gx + cx as int + 1 + k) as isize,
                                (gy + cy as int) as isize,
                                )),
                        decreases lx + 1 - h,
                    {
                        cells.push((self.x + h, self.y + cy));
                        h += 1;
                    }
                    proof {
                        lemma_view_concat(cells@, cells0, span, gx, gy);
                    }
                }
            } else {
                cells.push((self.x + lx, self.y + ly));
                proof {
                    assert(span =~= seq![last]);
                    assert(view_points(cells@) =~= view_points(cells0) + add_anchor(span, gx, gy));
                }
            }
            proof {
                assert(fill_from(rp, i as int, last) == span + fill_from(
                    rp,
                    i as int + 1,
                    rp[i as int],
                ));
                lemma_add_anchor_concat(span, fill_from(rp, i as int + 1, rp[i as int]), gx, gy);
                assert(view_points(cells0) + (add_anchor(span, gx, gy) + add_anchor(
                    fill_from(rp, i as int + 1, rp[i as int]),
                    gx,
                    gy,
                )) =~= (view_points(cells0) + add_anchor(span, gx, gy)) + add_anchor(
                    fill_from(rp, i as int + 1, rp[i as int]),
                    gx,
                    gy,
                ));
            }
            lx = cx;
            ly = cy;
            i += 1;
        }
        let ghost before_final = cells@;
        cells.push((self.x + lx, self.y + ly));
        proof {
            assert(fill_from(rp, n as int, (lx as int, ly as int)) == seq![(lx as int, ly as int)]);
            assert(add_anchor(seq![(lx as int, ly as int)], gx, gy) =~= seq![
                (gx + lx as int, gy + ly as int),
            ]);
            assert(view_points(cells@) =~= view_points(before_final) + seq![
                (gx + lx as int, gy + ly as int),
            ]);
            assert(view_points(cells@) =~= spec_cells(self.name, self.rotation, gx, gy));
        }
        cells
    }

    /// Whether the piece, where it stands, collides with a wall, the floor,
    /// or a settled cell. Cells at or above the top row collide with nothing.
    pub fn collides(&self, board: &Board) -> (r: bool)
        requires
            self.wf(),
            board.wf(),
            self.x + 4 <= isize::MAX,
            self.y + 4 <= isize::MAX,
        ensures
            r == spec_collides(
                spec_cells(self.name, self.rotation, self.x as int, self.y as int),
                board@,
                board.spec_columns(),
                board.spec_rows(),
            ),
    {
        proof {
            board.lemma_shape();
        }
        let ghost sc = spec_cells(self.name, self.rotation, self.x as int, self.y as int);
        let cells = self.get_cells();
        let columns = board.columns();
        let rows = board.rows();
        let n = cells.len();
        let mut i: usize = 0;
        while i < n
            invariant
                sc == spec_cells(self.name, self.rotation, self.x as int, self.y as int),
                view_points(cells@) == sc,
                n == cells@.len(),
                i <= n,
                board.wf(),
                columns == board.spec_columns(),
                rows == board.spec_rows(),
                columns as int <= isize::MAX as int,
                rows as int <= isize::MAX as int,
                1 <= rows,
                forall|j: int|
                    0 <= j < i ==> !spec_cell_collides(
                        board@,
                        columns as int,
                        rows as int,
                        #[trigger] sc[j],
                    ),
            decreases n - i,
        {
            let p = cells[i];
            let (x, y) = p;
            proof {
                assert(view_points(cells@)[i as int] == (x as int, y as int));
                assert((x as int, y as int) == sc[i as int]);
            }
            if x < 0 || y < 0 || x >= columns as isize {
                assert(spec_cell_collides(board@, columns as int, rows as int, sc[i as int]));
                return true;
            }
            if y < rows as isize {
                if board.occupied_at(x as usize, y as usize) {
                    assert(spec_cell_collides(board@, columns as int, rows as int, sc[i as int]));
                    return true;
                }
            }
            i += 1;
        }
        assert(!spec_collides(sc, board@, board.spec_columns(), board.spec_rows()));
        false
    }
}

/// A sequence extensionally equal to four pairwise-distinct pairs has length
/// four and no repeated element.
proof fn four_distinct(s: Seq<(int, int)>, a: (int, int), b: (int, int), c: (int, int), d: (int, int))
    requires
        s =~= seq![a, b, c, d],
        a != b,
        a != c,
        a != d,
        b != c,
        b != d,
        c != d,
    ensures
        s.len() == 4,
        forall|i: int, j: int| 0 <= i < 4 && 0 <= j < 4 && i != j ==> s[i] != s[j],
{
    assert(s[0] == a);
    assert(s[1] == b);
    assert(s[2] == c);
    assert(s[3] == d);
}

/// Law: every piece kind, in every rotation, fills exactly four distinct
/// cells relative to its anchor.
#[verifier::rlimit(50)]
pub proof fn lemma_four_distinct_cells(name: TetrominoName, r: TetrominoRotation)
    ensures
        local_cells(name, r).len() == 4,
        forall|i: int, j: int|
            0 <= i < 4 && 0 <= j < 4 && i != j ==> local_cells(name, r)[i] != local_cells(
                name,
                r,
            )[j],
{
    reveal_with_fuel(fill_from, 6);
    let lc = local_cells(name, r);
    match name {
        TetrominoName::I => match r {
            TetrominoRotation::Zero => four_distinct(lc, (1, 0), (1, 1), (1, 2), (1, 3)),
            TetrominoRotation::HalfPi => four_distinct(lc, (1, 1), (2, 1), (3, 1), (0, 1)),
            TetrominoRotation::Pi => four_distinct(lc, (2, 1), (2, 2), (2, 3), (2, 0)),
            TetrominoRotation::TwoPiOverThree => four_distinct(lc, (0, 2), (1, 2), (2, 2), (3, 2)),
        },
        TetrominoName::J => match r {
            TetrominoRotation::Zero => four_distinct(lc, (0, 0), (1, 0), (1, 1), (1, 2)),
            TetrominoRotation::HalfPi => four_distinct(lc, (2, 0), (1, 1), (2, 1), (0, 1)),
            TetrominoRotation::Pi => four_distinct(lc, (2, 2), (1, 1), (1, 2), (1, 0)),
            TetrominoRotation::TwoPiOverThree => four_distinct(lc, (0, 2), (0, 1), (1, 1), (2, 1)),
        },
        TetrominoName::L => match r {
            TetrominoRotation::Zero => four_distinct(lc, (1, 1), (1, 2), (1, 0), (2, 0)),
            TetrominoRotation::HalfPi => four_distinct(lc, (0, 1), (1, 1), (2, 1), (2, 2)),
            TetrominoRotation::Pi => four_distinct(lc, (1, 0), (1, 1), (1, 2), (0, 2)),
            TetrominoRotation::TwoPiOverThree => four_distinct(lc, (1, 1), (2, 1), (0, 1), (0, 0)),
        },
        TetrominoName::O => match r {
            TetrominoRotation::Zero => four_distinct(lc, (0, 1), (0, 0), (1, 0), (1, 1)),
            TetrominoRotation::HalfPi => four_distinct(lc, (0, 0), (1, 0), (1, 1), (0, 1)),
            TetrominoRotation::Pi => four_distinct(lc, (1, 0), (1, 1), (0, 1), (0, 0)),
            TetrominoRotation::TwoPiOverThree => four_distinct(lc, (1, 1), (0, 1), (0, 0), (1, 0)),
        },
        TetrominoName::S => match r {
            TetrominoRotation::Zero => four_distinct(lc, (0, 1), (1, 1), (1, 2), (2, 2)),
            TetrominoRotation::HalfPi => four_distinct(lc, (1, 0), (1, 1), (0, 1), (0, 2)),
            TetrominoRotation::Pi => four_distinct(lc, (2, 1), (1, 1), (1, 0), (0, 0)),
            TetrominoRotation::TwoPiOverThree => four_distinct(lc, (1, 2), (1, 1), (2, 1), (2, 0)),
        },
        TetrominoName::T => match r {
            TetrominoRotation::Zero => four_distinct(lc, (0, 1), (1, 1), (2, 1), (1, 2)),
            TetrominoRotation::HalfPi => four_distinct(lc, (1, 0), (1, 1), (1, 2), (0, 1)),
            TetrominoRotation::Pi => four_distinct(lc, (1, 1), (2, 1), (0, 1), (1, 0)),
            TetrominoRotation::TwoPiOverThree => four_distinct(lc, (1, 1), (1, 2), (1, 0), (2, 1)),
        },
        TetrominoName::Z => match r {
            TetrominoRotation::Zero => four_distinct(lc, (0, 2), (1, 2), (1, 1), (2, 1)),
            TetrominoRotation::HalfPi => four_distinct(lc, (0, 0), (0, 1), (1, 1), (1, 2)),
            TetrominoRotation::Pi => four_distinct(lc, (2, 0), (1, 0), (1, 1), (0, 1)),
            TetrominoRotation::TwoPiOverThree => four_distinct(lc, (2, 2), (2, 1), (1, 1), (1, 0)),
        },
    }
}

/// A sequence extensionally equal to four given pairs fills exactly their set.
proof fn four_cell_set(
    s: Seq<(int, int)>,
    a: (int, int),
    b: (int, int),
    c: (int, int),
    d: (int, int),
)
    requires
        s =~= seq![a, b, c, d],
    ensures
        s.to_set() == set![a, b, c, d],
{
    assert(s[0] == a && s[1] == b && s[2] == c && s[3] == d);
    assert forall|x: (int, int)| s.to_set().contains(x) == set![a, b, c, d].contains(x) by {
        if x == a {
            assert(s[0] == x);
        } else if x == b {
            assert(s[1] == x);
        } else if x == c {
            assert(s[2] == x);
        } else if x == d {
            assert(s[3] == x);
        }
        if s.contains(x) {
            let i = choose|i: int| 0 <= i < s.len() && s[i] == x;
            assert(x == a || x == b || x == c || x == d);
        }
    }
    assert(s.to_set() =~= set![a, b, c, d]);
}

/// Law: the fill walk is direction-independent. Walking a kind's canonical
/// turning points in reverse order fills the same set of cells: each aligned
/// pair traces the same inclusive segment whichever endpoint the walk leaves
/// to the following step.
pub proof fn lemma_fill_direction_independent(name: TetrominoName)
    ensures
        fill_cells(spec_points(name).reverse()).to_set() == fill_cells(spec_points(name)).to_set(),
{
    reveal_with_fuel(fill_from, 6);
    let fwd = fill_cells(spec_points(name));
    let bwd = fill_cells(spec_points(name).reverse());
    match name {
        TetrominoName::I => {
            assert(spec_points(name).reverse() =~= seq![(1int, 3int), (1int, 0int)]);
            four_cell_set(fwd, (1, 0), (1, 1), (1, 2), (1, 3));
            four_cell_set(bwd, (1, 1), (1, 2), (1, 3), (1, 0));
            assert(set![(1int, 0int), (1int, 1int), (1int, 2int), (1int, 3int)] =~= set![
                (1int, 1int),
                (1int, 2int),
                (1int, 3int),
                (1int, 0int),
            ]);
        },
        TetrominoName::J => {
            assert(spec_points(name).reverse() =~= seq![(1int, 2int), (1int, 0int), (0int, 0int)]);
            four_cell_set(fwd, (0, 0), (1, 0), (1, 1), (1, 2));
            four_cell_set(bwd, (1, 1), (1, 2), (1, 0), (0, 0));
            assert(set![(0int, 0int), (1int, 0int), (1int, 1int), (1int, 2int)] =~= set![
                (1int, 1int),
                (1int, 2int),
                (1int, 0int),
                (0int, 0int),
            ]);
        },
        TetrominoName::L => {
            assert(spec_points(name).reverse() =~= seq![(2int, 0int), (1int, 0int), (1int, 2int)]);
            four_cell_set(fwd, (1, 1), (1, 2), (1, 0), (2, 0));
            four_cell_set(bwd, (2, 0), (1, 0), (1, 1), (1, 2));
            assert(set![(1int, 1int), (1int, 2int), (1int, 0int), (2int, 0int)] =~= set![
                (2int, 0int),
                (1int, 0int),
                (1int, 1int),
                (1int, 2int),
            ]);
        },
        TetrominoName::O => {
            assert(spec_points(name).reverse() =~= seq![
                (1int, 1int),
                (1int, 0int),
                (0int, 0int),
                (0int, 1int),
            ]);
            four_cell_set(fwd, (0, 1), (0, 0), (1, 0), (1, 1));
            four_cell_set(bwd, (1, 1), (1, 0), (0, 0), (0, 1));
            assert(set![(0int, 1int), (0int, 0int), (1int, 0int), (1int, 1int)] =~= set![
                (1int, 1int),
                (1int, 0int),
                (0int, 0int),
                (0int, 1int),
            ]);
        },
        TetrominoName::S => {
            assert(spec_points(name).reverse() =~= seq![
                (2int, 2int),
                (1int, 2int),
                (1int, 1int),
                (0int, 1int),
            ]);
            four_cell_set(fwd, (0, 1), (1, 1), (1, 2), (2, 2));
            four_cell_set(bwd, (2, 2), (1, 2), (1, 1), (0, 1));
            assert(set![(0int, 1int), (1int, 1int), (1int, 2int), (2int, 2int)] =~= set![
                (2int, 2int),
                (1int, 2int),
                (1int, 1int),
                (0int, 1int),
            ]);
        },
        TetrominoName::T => {
            assert(spec_points(name).reverse() =~= seq![(1int, 2int), (2int, 1int), (0int, 1int)]);
            four_cell_set(fwd, (0, 1), (1, 1), (2, 1), (1, 2));
            four_cell_set(bwd, (1, 2), (1, 1), (2, 1), (0, 1));
            assert(set![(0int, 1int), (1int, 1int), (2int, 1int), (1int, 2int)] =~= set![
                (1int, 2int),
                (1int, 1int),
                (2int, 1int),
                (0int, 1int),
            ]);
        },
        TetrominoName::Z => {
            assert(spec_points(name).reverse() =~= seq![
                (2int, 1int),
                (1int, 1int),
                (1int, 2int),
                (0int, 2int),
            ]);
            four_cell_set(fwd, (0, 2), (1, 2), (1, 1), (2, 1));
            four_cell_set(bwd, (2, 1), (1, 1), (1, 2), (0, 2));
            assert(set![(0int, 2int), (1int, 2int), (1int, 1int), (2int, 1int)] =~= set![
                (2int, 1int),
                (1int, 1int),
                (1int, 2int),
                (0int, 2int),
            ]);
        },
    }
}

/// Law: the four cells of a placed piece stay distinct wherever the piece is
/// anchored, and there are always exactly four of them.
pub proof fn lemma_cells_distinct(name: TetrominoName, r: TetrominoRotation, x: int, y: int)
    ensures
        spec_cells(name, r, x, y).len() == 4,
        forall|i: int, j: int|
            0 <= i < 4 && 0 <= j < 4 && i != j ==> spec_cells(name, r, x, y)[i] != spec_cells(
                name,
                r,
                x,
                y,
            )[j],
{
    lemma_four_distinct_cells(name, r);
    let lc = local_cells(name, r);
    assert forall|i: int, j: int|
        0 <= i < 4 && 0 <= j < 4 && i != j implies spec_cells(name, r, x, y)[i] != spec_cells(
        name,
        r,
        x,
        y,
    )[j] by {
        assert(lc[i] != lc[j]);
        assert(spec_cells(name, r, x, y)[i] == (x + lc[i].0, y + lc[i].1));
        assert(spec_cells(name, r, x, y)[j] == (x + lc[j].0, y + lc[j].1));
    }
}

/// Cells spanned between two in-range points stay in range.
proof fn lemma_span_in_range(last: (int, int), cur: (int, int), l: int)
    requires
        0 <= last.0 < l,
        0 <= last.1 < l,
        0 <= cur.0 < l,
        0 <= cur.1 < l,
    ensures
        forall|k: int|
            0 <= k < span_cells(last, cur).len() ==> {
                &&& 0 <= (#[trigger] span_cells(last, cur)[k]).0 < l
                &&& 0 <= span_cells(last, cur)[k].1 < l
            },
{
}

/// The fill walk over in-range points emits only in-range cells.
proof fn lemma_fill_in_range(points: Seq<(int, int)>, i: int, last: (int, int), l: int)
    requires
        0 <= i,
        forall|j: int|
            0 <= j < points.len() ==> {
                &&& 0 <= (#[trigger] points[j]).0 < l
                &&& 0 <= points[j].1 < l
            },
        0 <= last.0 < l,
        0 <= last.1 < l,
    ensures
        forall|k: int|
            0 <= k < fill_from(points, i, last).len() ==> {
                &&& 0 <= (#[trigger] fill_from(points, i, last)[k]).0 < l
                &&& 0 <= fill_from(points, i, last)[k].1 < l
            },
    decreases points.len() - i,
{
    if i < points.len() {
        lemma_span_in_range(last, points[i], l);
        lemma_fill_in_range(points, i + 1, points[i], l);
        let span = span_cells(last, points[i]);
        let rest = fill_from(points, i + 1, points[i]);
        assert forall|k: int| 0 <= k < fill_from(points, i, last).len() implies {
            &&& 0 <= (#[trigger] fill_from(points, i, last)[k]).0 < l
            &&& 0 <= fill_from(points, i, last)[k].1 < l
        } by {
            if k < span.len() {
                assert(fill_from(points, i, last)[k] == span[k]);
            } else {
                assert(fill_from(points, i, last)[k] == rest[k - span.len()]);
            }
        }
    }
}

/// A piece's cells, relative to its anchor, lie inside its bounding box.
pub proof fn lemma_local_cells_in_range(name: TetrominoName, r: TetrominoRotation)
    ensures
        forall|k: int|
            0 <= k < local_cells(name, r).len() ==> {
                &&& 0 <= (#[trigger] local_cells(name, r)[k]).0 < spec_length(name)
                &&& 0 <= local_cells(name, r)[k].1 < spec_length(name)
            },
{
    lemma_canonical_points_in_range(name);
    lemma_rotated_points_in_range(name, r);
    let rp = spec_rotated_points(name, r);
    lemma_fill_in_range(rp, 0, rp[0], spec_length(name));
}

/// A piece that does not collide stands close to the grid: no cell lies
/// outside the side walls or below the floor, so its anchor is at most three
/// cells left of or below the origin and inside the right wall.
pub proof fn lemma_no_collision_anchor_bounds(
    name: TetrominoName,
    r: TetrominoRotation,
    x: int,
    y: int,
    g: Seq<Seq<Option<CellColor>>>,
    columns: int,
    rows: int,
)
    requires
        !spec_collides(spec_cells(name, r, x, y), g, columns, rows),
    ensures
        -3 <= x <= columns - 1,
        -3 <= y,
{
    lemma_four_distinct_cells(name, r);
    lemma_local_cells_in_range(name, r);
    let sc = spec_cells(name, r, x, y);
    let lc = local_cells(name, r);
    assert(sc.len() == 4);
    assert(!spec_cell_collides(g, columns, rows, sc[0]));
    assert(sc[0] == (x + lc[0].0, y + lc[0].1));
    assert(0 <= lc[0].0 < spec_length(name));
    assert(0 <= lc[0].1 < spec_length(name));
    assert(spec_length(name) <= 4) by {
        lemma_canonical_points_in_range(name);
    }
}

/// Law: a piece with any cell beyond a side wall or below the floor collides,
/// whatever its kind, rotation, or anchor.
pub proof fn lemma_out_of_bounds_collides(
    cells: Seq<(int, int)>,
    g: Seq<Seq<Option<CellColor>>>,
    columns: int,
    rows: int,
    i: int,
)
    requires
        0 <= i < cells.len(),
        cells[i].0 < 0 || cells[i].0 >= columns || cells[i].1 < 0,
    ensures
        spec_collides(cells, g, columns, rows),
{
    assert(spec_cell_collides(g, columns, rows, cells[i]));
}

/// Law: a piece resting entirely at or above the top row, within the side
/// walls, does not collide merely for its height.
pub proof fn lemma_above_grid_no_collision(
    cells: Seq<(int, int)>,
    g: Seq<Seq<Option<CellColor>>>,
    columns: int,
    rows: int,
)
    requires
        rows >= 0,
        forall|i: int|
            0 <= i < cells.len() ==> {
                &&& 0 <= (#[trigger] cells[i]).0 < columns
                &&& cells[i].1 >= rows
            },
    ensures
        !spec_collides(cells, g, columns, rows),
{
}

/// Law: four quarter turns, forward or backward, restore a piece's cell set.
pub proof fn lemma_rotation_cycle_cells(
    name: TetrominoName,
    r: TetrominoRotation,
    x: int,
    y: int,
)
    ensures
        spec_cells(
            name,
            spec_next_rotation(spec_next_rotation(spec_next_rotation(spec_next_rotation(r)))),
            x,
            y,
        ) == spec_cells(name, r, x, y),
        spec_cells(
            name,
            spec_previous_rotation(spec_previous_rotation(spec_previous_rotation(
                spec_previous_rotation(r),
            ))),
            x,
            y,
        ) == spec_cells(name, r, x, y),
{
    lemma_rotation_cycle(r);
}

} // verus!
