//! The voxel grid: a box of cells, each empty or holding sand of one colour.
//!
//! The cells lie in one flat vector. The cell `(x, y, z)` is found at
//! `x + y * width + z * (width * height)`; `x` runs along the width, `y` is up,
//! `z` runs along the length.

use crate::color::Color;
use vstd::prelude::*;

verus! {

/// The largest number of cells a grid may have. A cell can show six faces of
/// six vertices each, and a vertex is numbered with a `u32`.
pub const MAX_CELLS: usize = 119_304_647;

/// What a cell holds: `None` when it is empty, else the colour of its sand.
pub type Cell = Option<Color>;

/// The mathematical value of a grid.
pub struct GridView {
    pub width: nat,
    pub height: nat,
    pub length: nat,
    pub cells: Seq<Cell>,
}

/// How many of the cells of `s` are occupied.
pub open spec fn count_occupied(s: Seq<Cell>) -> nat
    decreases s.len(),
{
    if s.len() == 0 {
        0
    } else {
        count_occupied(s.drop_last()) + if s.last() is Some {
            1nat
        } else {
            0nat
        }
    }
}

impl GridView {
    /// The dimensions are positive and there is one cell for each position.
    pub open spec fn wf(self) -> bool {
        &&& self.width > 0
        &&& self.height > 0
        &&& self.length > 0
        &&& self.cells.len() == self.width * self.height * self.length
        &&& self.cells.len() <= MAX_CELLS
    }

    /// Whether `(x, y, z)` names a cell of the grid.
    pub open spec fn in_bounds(self, x: int, y: int, z: int) -> bool {
        &&& 0 <= x < self.width
        &&& 0 <= y < self.height
        &&& 0 <= z < self.length
    }

    /// Where the cell `(x, y, z)` lies in `cells`.
    pub open spec fn index(self, x: int, y: int, z: int) -> int {
        x + y * self.width + z * (self.width * self.height)
    }

    /// What the cell `(x, y, z)` holds.
    pub open spec fn at(self, x: int, y: int, z: int) -> Cell
        recommends
            self.in_bounds(x, y, z),
    {
        self.cells[self.index(x, y, z)]
    }

    /// The grid with the cell `(x, y, z)` holding `state` and every other cell
    /// as it is.
    pub open spec fn set(self, x: int, y: int, z: int, state: Cell) -> GridView
        recommends
            self.in_bounds(x, y, z),
    {
        GridView { cells: self.cells.update(self.index(x, y, z), state), ..self }
    }

    /// The number of occupied cells.
    pub open spec fn occupied(self) -> nat {
        count_occupied(self.cells)
    }

    /// Every cell is empty.
    pub open spec fn is_empty(self) -> bool {
        forall|i: int| 0 <= i < self.cells.len() ==> self.cells[i] is None
    }

    /// The two grids have the same dimensions.
    pub open spec fn same_shape(self, other: GridView) -> bool {
        &&& self.width == other.width
        &&& self.height == other.height
        &&& self.length == other.length
    }
}

/// The index of a cell of the grid is an index into its cells.
pub proof fn lemma_index_in_range(g: GridView, x: int, y: int, z: int)
    requires
        g.wf(),
        g.in_bounds(x, y, z),
    ensures
        0 <= g.index(x, y, z) < g.cells.len(),
        0 <= y * g.width <= g.index(x, y, z),
        0 <= z * (g.width * g.height) <= g.index(x, y, z),
        0 < g.width * g.height <= g.cells.len(),
{
    let w = g.width as int;
    let h = g.height as int;
    let l = g.length as int;
    assert(0 <= y * w && y * w + w <= h * w && w * h == h * w && 0 < w * h) by (nonlinear_arith)
        requires
            0 <= y < h,
            0 < w,
    ;
    assert(0 <= z * (w * h) && z * (w * h) + w * h <= l * (w * h) && l * (w * h) == w * h * l)
        by (nonlinear_arith)
        requires
            0 <= z < l,
            0 < w * h,
    ;
}

/// No dimension of a grid is larger than its number of cells.
pub proof fn lemma_dimensions_bounded(g: GridView)
    requires
        g.wf(),
    ensures
        g.width <= g.cells.len() <= MAX_CELLS,
        g.height <= g.cells.len(),
        g.length <= g.cells.len(),
{
    let w = g.width as int;
    let h = g.height as int;
    let l = g.length as int;
    assert(w <= w * h * l && h <= w * h * l && l <= w * h * l) by (nonlinear_arith)
        requires
            w > 0,
            h > 0,
            l > 0,
    ;
}

/// Two cells of the grid with the same index are the same cell.
pub proof fn lemma_index_injective(g: GridView, x1: int, y1: int, z1: int, x2: int, y2: int, z2: int)
    requires
        g.wf(),
        g.in_bounds(x1, y1, z1),
        g.in_bounds(x2, y2, z2),
        g.index(x1, y1, z1) == g.index(x2, y2, z2),
    ensures
        x1 == x2,
        y1 == y2,
        z1 == z2,
{
    let w = g.width as int;
    let h = g.height as int;
    let a1 = x1 + y1 * w;
    let a2 = x2 + y2 * w;
    assert(0 <= a1 < w * h && 0 <= a2 < w * h) by (nonlinear_arith)
        requires
            0 <= x1 < w,
            0 <= y1 < h,
            0 <= x2 < w,
            0 <= y2 < h,
            a1 == x1 + y1 * w,
            a2 == x2 + y2 * w,
    ;
    assert(z1 == z2) by (nonlinear_arith)
        requires
            0 <= a1 < w * h,
            0 <= a2 < w * h,
            a1 + z1 * (w * h) == a2 + z2 * (w * h),
    ;
    assert(y1 == y2) by (nonlinear_arith)
        requires
            0 <= x1 < w,
            0 <= x2 < w,
            x1 + y1 * w == x2 + y2 * w,
    ;
}

/// Writing a cell of a grid gives a grid of the same shape that holds what was
/// written there, and at every other cell what it held before.
pub proof fn lemma_set(g: GridView, x: int, y: int, z: int, state: Cell)
    requires
        g.wf(),
        g.in_bounds(x, y, z),
    ensures
        g.set(x, y, z, state).wf(),
        g.set(x, y, z, state).same_shape(g),
        g.set(x, y, z, state).at(x, y, z) == state,
        forall|a: int, b: int, c: int|
            g.in_bounds(a, b, c) && !(a == x && b == y && c == z) ==> #[trigger] g.set(x, y, z, state).at(a, b, c)
                == g.at(a, b, c),
{
    lemma_index_in_range(g, x, y, z);
    assert forall|a: int, b: int, c: int| g.in_bounds(a, b, c) && !(a == x && b == y && c == z) implies #[trigger] g.set(
        x,
        y,
        z,
        state,
    ).at(a, b, c) == g.at(a, b, c) by {
        lemma_index_in_range(g, a, b, c);
        if g.index(a, b, c) == g.index(x, y, z) {
            lemma_index_injective(g, a, b, c, x, y, z);
        }
    }
}

/// Writing one cell changes the count of occupied cells by what the cell
/// gains or loses.
pub proof fn lemma_count_update(s: Seq<Cell>, i: int, state: Cell)
    requires
        0 <= i < s.len(),
    ensures
        count_occupied(s.update(i, state)) + (if s[i] is Some {
            1int
        } else {
            0int
        }) == count_occupied(s) + (if state is Some {
            1int
        } else {
            0int
        }),
    decreases s.len(),
{
    let t = s.update(i, state);
    if i == s.len() - 1 {
        assert(t.drop_last() =~= s.drop_last());
    } else {
        assert(t.drop_last() =~= s.drop_last().update(i, state));
        lemma_count_update(s.drop_last(), i, state);
    }
}

/// A sequence of empty cells has no occupied cell.
pub proof fn lemma_count_empty(s: Seq<Cell>)
    requires
        forall|i: int| 0 <= i < s.len() ==> s[i] is None,
    ensures
        count_occupied(s) == 0,
    decreases s.len(),
{
    if s.len() > 0 {
        lemma_count_empty(s.drop_last());
    }
}

/// The coordinate `c` moved by `d`, if that is a coordinate below `limit`.
pub fn shifted(c: usize, d: i32, limit: usize) -> (r: Option<usize>)
    requires
        c < limit <= MAX_CELLS,
    ensures
        r is Some <==> 0 <= c + d < limit,
        r is Some ==> r->0 == c + d,
{
    let t: i64 = c as i64 + d as i64;
    if 0 <= t && t < limit as i64 {
        Some(t as usize)
    } else {
        None
    }
}

/// The grid of cells.
pub struct Grid {
    width: usize,
    height: usize,
    length: usize,
    cells: Vec<Cell>,
}

impl View for Grid {
    type V = GridView;

    closed spec fn view(&self) -> GridView {
        GridView {
            width: self.width as nat,
            height: self.height as nat,
            length: self.length as nat,
            cells: self.cells@,
        }
    }
}

impl Grid {
    /// The grid's invariant: that of its value.
    pub open spec fn wf(&self) -> bool {
        self@.wf()
    }

    /// A grid of the given dimensions with every cell empty.
    pub fn new(width: usize, height: usize, length: usize) -> (g: Grid)
        requires
            width > 0,
            height > 0,
            length > 0,
            width * height * length <= MAX_CELLS,
        ensures
            g.wf(),
            g@.width == width,
            g@.height == height,
            g@.length == length,
            g@.is_empty(),
            g@.occupied() == 0,
    {
        assert(width * height <= width * height * length) by (nonlinear_arith)
            requires
                length > 0,
        ;
        let n: usize = width * height * length;
        let mut cells: Vec<Cell> = Vec::new();
        let mut i: usize = 0;
        while i < n
            invariant
                i <= n,
                cells.len() == i,
                forall|j: int| 0 <= j < i ==> cells@[j] is None,
            decreases n - i,
        {
            cells.push(None);
            i = i + 1;
        }
        proof {
            lemma_count_empty(cells@);
        }
        Grid { width, height, length, cells }
    }

    /// The extent along `x`.
    pub fn width(&self) -> (w: usize)
        ensures
            w == self@.width,
    {
        self.width
    }

    /// The extent along `y`, the vertical.
    pub fn height(&self) -> (h: usize)
        ensures
            h == self@.height,
    {
        self.height
    }

    /// The extent along `z`.
    pub fn length(&self) -> (l: usize)
        ensures
            l == self@.length,
    {
        self.length
    }

    /// Where the cell `(x, y, z)` lies in the vector of cells.
    fn offset(&self, x: usize, y: usize, z: usize) -> (i: usize)
        requires
            self.wf(),
            self@.in_bounds(x as int, y as int, z as int),
        ensures
            i == self@.index(x as int, y as int, z as int),
            i < self.cells.len(),
    {
        proof {
            lemma_index_in_range(self@, x as int, y as int, z as int);
        }
        x + y * self.width + z * (self.width * self.height)
    }

    /// What the cell `(x, y, z)` holds.
    pub fn get(&self, x: usize, y: usize, z: usize) -> (state: Cell)
        requires
            self.wf(),
            self@.in_bounds(x as int, y as int, z as int),
        ensures
            state == self@.at(x as int, y as int, z as int),
    {
        let i = self.offset(x, y, z);
        self.cells[i]
    }

    /// Makes the cell `(x, y, z)` hold `state`.
    pub fn set(&mut self, x: usize, y: usize, z: usize, state: Cell)
        requires
            old(self).wf(),
            old(self)@.in_bounds(x as int, y as int, z as int),
        ensures
            final(self).wf(),
            final(self)@ == old(self)@.set(x as int, y as int, z as int, state),
            final(self)@.same_shape(old(self)@),
            final(self)@.at(x as int, y as int, z as int) == state,
            forall|a: int, b: int, c: int|
                old(self)@.in_bounds(a, b, c) && !(a == x && b == y && c == z) ==> #[trigger] final(self)@.at(
                    a,
                    b,
                    c,
                ) == old(self)@.at(a, b, c),
    {
        proof {
            lemma_set(self@, x as int, y as int, z as int, state);
        }
        let i = self.offset(x, y, z);
        self.cells.set(i, state);
    }

    /// The cell that lies `(dx, dy, dz)` away from `(x, y, z)`, if the grid
    /// has such a cell.
    pub fn neighbor(&self, x: usize, y: usize, z: usize, dx: i32, dy: i32, dz: i32) -> (r: Option<
        (usize, usize, usize),
    >)
        requires
            self.wf(),
            self@.in_bounds(x as int, y as int, z as int),
        ensures
            r is Some <==> self@.in_bounds(x + dx, y + dy, z + dz),
            r matches Some((tx, ty, tz)) ==> tx == x + dx && ty == y + dy && tz == z + dz,
    {
        proof {
            lemma_dimensions_bounded(self@);
        }
        let tx = shifted(x, dx, self.width);
        let ty = shifted(y, dy, self.height);
        let tz = shifted(z, dz, self.length);
        if tx.is_some() && ty.is_some() && tz.is_some() {
            Some((tx.unwrap(), ty.unwrap(), tz.unwrap()))
        } else {
            None
        }
    }

    /// Whether `(x, y, z)` names a cell of the grid.
    pub fn contains(&self, x: usize, y: usize, z: usize) -> (b: bool)
        ensures
            b == self@.in_bounds(x as int, y as int, z as int),
    {
        x < self.width && y < self.height && z < self.length
    }

    /// The number of occupied cells.
    pub fn count(&self) -> (n: usize)
        requires
            self.wf(),
        ensures
            n == self@.occupied(),
    {
        let mut n: usize = 0;
        let mut i: usize = 0;
        while i < self.cells.len()
            invariant
                i <= self.cells.len(),
                n == count_occupied(self.cells@.take(i as int)),
                n <= i,
            decreases self.cells.len() - i,
        {
            assert(self.cells@.take(i as int + 1).drop_last() =~= self.cells@.take(i as int));
            if self.cells[i].is_some() {
                n = n + 1;
            }
            i = i + 1;
        }
        assert(self.cells@.take(i as int) =~= self.cells@);
        n
    }
}

} // verus!
