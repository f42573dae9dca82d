//! One tick of the sand automaton: gravity, and a random spread to the side
//! where the way down is blocked.

use crate::grid::{lemma_count_update, lemma_index_in_range, lemma_index_injective, Cell, Grid, GridView};
use crate::laws::{lemma_tick_moves_sand_once, moved_at_most_once};
use rand::seq::SliceRandom;
use vstd::prelude::*;

verus! {

/// A step from one cell to another, along each axis.
#[derive(Clone, Copy, Debug, PartialEq, Eq, Structural)]
pub struct Offset {
    pub dx: i32,
    pub dy: i32,
    pub dz: i32,
}

/// The eight steps that lead one layer down and to a side.
pub open spec fn diagonals() -> Seq<Offset> {
    seq![
        Offset { dx: 1i32, dy: -1i32, dz: 0i32 },
        Offset { dx: -1i32, dy: -1i32, dz: 0i32 },
        Offset { dx: 0i32, dy: -1i32, dz: 1i32 },
        Offset { dx: 0i32, dy: -1i32, dz: -1i32 },
        Offset { dx: 1i32, dy: -1i32, dz: 1i32 },
        Offset { dx: 1i32, dy: -1i32, dz: -1i32 },
        Offset { dx: -1i32, dy: -1i32, dz: 1i32 },
        Offset { dx: -1i32, dy: -1i32, dz: -1i32 },
    ]
}

/// Whether `o` leads one layer down and to a side.
pub open spec fn is_diagonal(o: Offset) -> bool {
    &&& o.dy == -1
    &&& -1 <= o.dx <= 1
    &&& -1 <= o.dz <= 1
    &&& !(o.dx == 0 && o.dz == 0)
}

/// Whether `order` holds the eight diagonal steps, each once, in some order.
pub open spec fn is_shuffle(order: Seq<Offset>) -> bool {
    order.to_multiset() == diagonals().to_multiset()
}

/// A step is diagonal exactly when it is one of the eight.
pub proof fn lemma_diagonals(o: Offset)
    ensures
        is_diagonal(o) <==> diagonals().contains(o),
{
    let d = diagonals();
    if is_diagonal(o) {
        let k: int = if o.dx == 1 {
            if o.dz == 0 {
                0
            } else if o.dz == 1 {
                4
            } else {
                5
            }
        } else if o.dx == -1 {
            if o.dz == 0 {
                1
            } else if o.dz == 1 {
                6
            } else {
                7
            }
        } else if o.dz == 1 {
            2
        } else {
            3
        };
        assert(d[k] == o);
    }
    if d.contains(o) {
        let k = choose|k: int| 0 <= k < d.len() && d[k] == o;
        assert(is_diagonal(d[k]));
    }
}

/// A shuffle has eight entries, and holds exactly the diagonal steps.
pub proof fn lemma_shuffle_members(order: Seq<Offset>)
    requires
        is_shuffle(order),
    ensures
        order.len() == 8,
        forall|o: Offset| order.contains(o) <==> is_diagonal(o),
{
    let d = diagonals();
    vstd::seq_lib::to_multiset_len(order);
    vstd::seq_lib::to_multiset_len(d);
    assert forall|o: Offset| order.contains(o) <==> is_diagonal(o) by {
        vstd::seq_lib::to_multiset_contains(order, o);
        vstd::seq_lib::to_multiset_contains(d, o);
        lemma_diagonals(o);
    }
}

/// The eight diagonal steps, in their fixed order.
pub fn diagonal_offsets() -> (v: Vec<Offset>)
    ensures
        v@ == diagonals(),
{
    let mut v: Vec<Offset> = Vec::new();
    v.push(Offset { dx: 1, dy: -1, dz: 0 });
    v.push(Offset { dx: -1, dy: -1, dz: 0 });
    v.push(Offset { dx: 0, dy: -1, dz: 1 });
    v.push(Offset { dx: 0, dy: -1, dz: -1 });
    v.push(Offset { dx: 1, dy: -1, dz: 1 });
    v.push(Offset { dx: 1, dy: -1, dz: -1 });
    v.push(Offset { dx: -1, dy: -1, dz: 1 });
    v.push(Offset { dx: -1, dy: -1, dz: -1 });
    assert(v@ =~= diagonals());
    v
}

/// Calls `rand::seq::SliceRandom::shuffle` on the vector, with the generator
/// that `rand::thread_rng` returns.
///
/// Trusted: the call reorders the entries in place and neither adds, drops
/// nor changes one. Which order comes out is left open.
#[verifier::external_body]
fn shuffle(offsets: &mut Vec<Offset>)
    ensures
        final(offsets)@.to_multiset() == old(offsets)@.to_multiset(),
{
    offsets.shuffle(&mut rand::thread_rng());
}

/// The eight diagonal steps in a random order.
pub fn shuffled_offsets() -> (v: Vec<Offset>)
    ensures
        is_shuffle(v@),
{
    let mut v = diagonal_offsets();
    shuffle(&mut v);
    v
}

impl GridView {
    /// The grid after the content of `(x, y, z)` has gone to `(tx, ty, tz)`.
    pub open spec fn relocate(self, x: int, y: int, z: int, tx: int, ty: int, tz: int) -> GridView {
        self.set(x, y, z, None).set(tx, ty, tz, self.at(x, y, z))
    }

    /// Whether `(x, y, z)` holds sand that has an empty cell right below it.
    pub open spec fn can_fall(self, x: int, y: int, z: int) -> bool {
        &&& self.at(x, y, z) is Some
        &&& y > 0
        &&& self.at(x, y - 1, z) is None
    }

    /// The grid after the sand of `(x, y, z)`, if it can, has fallen one cell.
    pub open spec fn fall(self, x: int, y: int, z: int) -> GridView {
        if self.can_fall(x, y, z) {
            self.relocate(x, y, z, x, y - 1, z)
        } else {
            self
        }
    }

    /// Whether the step `o` leads from `(x, y, z)` to an empty cell of the grid.
    pub open spec fn is_open(self, x: int, y: int, z: int, o: Offset) -> bool {
        &&& self.in_bounds(x + o.dx, y + o.dy, z + o.dz)
        &&& self.at(x + o.dx, y + o.dy, z + o.dz) is None
    }

    /// The first place at or after `from` in `order` whose step leads from
    /// `(x, y, z)` to an empty cell of the grid.
    pub open spec fn first_open(self, x: int, y: int, z: int, order: Seq<Offset>, from: int) -> Option<int>
        decreases order.len() - from,
    {
        if from < 0 || from >= order.len() {
            None
        } else if self.is_open(x, y, z, order[from]) {
            Some(from)
        } else {
            self.first_open(x, y, z, order, from + 1)
        }
    }

    /// The grid after the sand of `(x, y, z)`, if there is any, has taken the
    /// first step of `order` that leads to an empty cell.
    pub open spec fn spread(self, x: int, y: int, z: int, order: Seq<Offset>) -> GridView {
        if self.at(x, y, z) is Some {
            match self.first_open(x, y, z, order, 0) {
                Some(k) => self.relocate(x, y, z, x + order[k].dx, y + order[k].dy, z + order[k].dz),
                None => self,
            }
        } else {
            self
        }
    }

    /// Whether the sand of `(x, y, z)` can take a step of `order`.
    pub open spec fn can_spread(self, x: int, y: int, z: int, order: Seq<Offset>) -> bool {
        &&& self.at(x, y, z) is Some
        &&& self.first_open(x, y, z, order, 0) is Some
    }

    /// Whether a visit of `(x, y, z)` moves sand.
    pub open spec fn moves(self, x: int, y: int, z: int, order: Seq<Offset>) -> bool {
        self.can_fall(x, y, z) || self.can_spread(x, y, z, order)
    }

    /// What a tick does at `(x, y, z)`: sand falls if it can, else it spreads
    /// along `order`; an empty cell stays as it is.
    pub open spec fn settle(self, x: int, y: int, z: int, order: Seq<Offset>) -> GridView {
        if self.can_fall(x, y, z) {
            self.fall(x, y, z)
        } else {
            self.spread(x, y, z, order)
        }
    }
}

/// The layer of the cell that lies at index `i` of the cells of a grid.
pub open spec fn layer_at(i: int, width: int, height: int) -> int {
    (i % (width * height)) / width
}

/// The sum, over the occupied cells of `s`, of the layers they lie in.
pub open spec fn total_height(s: Seq<Cell>, width: int, height: int) -> int
    decreases s.len(),
{
    if s.len() == 0 {
        0
    } else {
        total_height(s.drop_last(), width, height) + if s.last() is Some {
            layer_at(s.len() - 1, width, height)
        } else {
            0
        }
    }
}

impl GridView {
    /// The sum of the heights at which the grid's sand lies.
    pub open spec fn potential(self) -> int {
        total_height(self.cells, self.width as int, self.height as int)
    }
}

/// The cell `(x, y, z)` lies in layer `y`.
pub proof fn lemma_layer_at(g: GridView, x: int, y: int, z: int)
    requires
        g.wf(),
        g.in_bounds(x, y, z),
    ensures
        layer_at(g.index(x, y, z), g.width as int, g.height as int) == y,
{
    let w = g.width as int;
    let h = g.height as int;
    let a = x + y * w;
    assert(0 <= a < w * h) by (nonlinear_arith)
        requires
            0 <= x < w,
            0 <= y < h,
            a == x + y * w,
    ;
    vstd::arithmetic::div_mod::lemma_fundamental_div_mod_converse(g.index(x, y, z), w * h, z, a);
    vstd::arithmetic::div_mod::lemma_fundamental_div_mod_converse(a, w, y, x);
}

/// Writing one cell changes the sum of heights by the layer of the cell, as
/// the cell gains or loses sand.
pub proof fn lemma_height_update(s: Seq<Cell>, i: int, state: Cell, width: int, height: int)
    requires
        0 <= i < s.len(),
    ensures
        total_height(s.update(i, state), width, height) + (if s[i] is Some {
            layer_at(i, width, height)
        } else {
            0
        }) == total_height(s, width, height) + (if state is Some {
            layer_at(i, width, height)
        } else {
            0
        }),
    decreases s.len(),
{
    let t = s.update(i, state);
    if i == s.len() - 1 {
        assert(t.drop_last() =~= s.drop_last());
    } else {
        assert(t.drop_last() =~= s.drop_last().update(i, state));
        lemma_height_update(s.drop_last(), i, state, width, height);
    }
}

/// `first_open` finds a step that leads to an empty cell, and none before it does.
pub proof fn lemma_first_open(g: GridView, x: int, y: int, z: int, order: Seq<Offset>, from: int)
    requires
        0 <= from,
    ensures
        match g.first_open(x, y, z, order, from) {
            Some(k) => {
                &&& from <= k < order.len()
                &&& g.is_open(x, y, z, order[k])
                &&& forall|j: int| from <= j < k ==> !g.is_open(x, y, z, #[trigger] order[j])
            },
            None => forall|j: int| from <= j < order.len() ==> !g.is_open(x, y, z, #[trigger] order[j]),
        },
    decreases order.len() - from,
{
    if from < order.len() && !g.is_open(x, y, z, order[from]) {
        lemma_first_open(g, x, y, z, order, from + 1);
    }
}

/// Moving sand to an empty cell keeps the grid well formed and the number of
/// occupied cells, and touches the two cells only.
pub proof fn lemma_relocate(g: GridView, x: int, y: int, z: int, tx: int, ty: int, tz: int)
    requires
        g.wf(),
        g.in_bounds(x, y, z),
        g.in_bounds(tx, ty, tz),
        g.at(x, y, z) is Some,
        g.at(tx, ty, tz) is None,
    ensures
        g.relocate(x, y, z, tx, ty, tz).wf(),
        g.relocate(x, y, z, tx, ty, tz).same_shape(g),
        g.relocate(x, y, z, tx, ty, tz).occupied() == g.occupied(),
        g.relocate(x, y, z, tx, ty, tz).potential() == g.potential() - y + ty,
        g.relocate(x, y, z, tx, ty, tz).at(x, y, z) is None,
        g.relocate(x, y, z, tx, ty, tz).at(tx, ty, tz) == g.at(x, y, z),
        forall|a: int, b: int, c: int|
            g.in_bounds(a, b, c) && (a, b, c) != (x, y, z) && (a, b, c) != (tx, ty, tz) ==> #[trigger] g.relocate(
                x,
                y,
                z,
                tx,
                ty,
                tz,
            ).at(a, b, c) == g.at(a, b, c),
{
    lemma_index_in_range(g, x, y, z);
    lemma_index_in_range(g, tx, ty, tz);
    let i = g.index(x, y, z);
    let j = g.index(tx, ty, tz);
    assert(i != j);
    let mid = g.set(x, y, z, None);
    let end = g.relocate(x, y, z, tx, ty, tz);
    assert(mid.index(tx, ty, tz) == j);
    assert(end.cells == mid.cells.update(j, g.at(x, y, z)));
    lemma_count_update(g.cells, i, None);
    lemma_count_update(mid.cells, j, g.at(x, y, z));
    lemma_layer_at(g, x, y, z);
    lemma_layer_at(g, tx, ty, tz);
    lemma_height_update(g.cells, i, None, g.width as int, g.height as int);
    lemma_height_update(mid.cells, j, g.at(x, y, z), g.width as int, g.height as int);
    assert forall|a: int, b: int, c: int|
        g.in_bounds(a, b, c) && (a, b, c) != (x, y, z) && (a, b, c) != (tx, ty, tz) implies #[trigger] end.at(
        a,
        b,
        c,
    ) == g.at(a, b, c) by {
        lemma_index_in_range(g, a, b, c);
        if g.index(a, b, c) == i {
            lemma_index_injective(g, a, b, c, x, y, z);
        }
        if g.index(a, b, c) == j {
            lemma_index_injective(g, a, b, c, tx, ty, tz);
        }
    }
}

impl Grid {
    /// Moves the sand of `(x, y, z)` to the empty cell `(tx, ty, tz)`.
    fn relocate(&mut self, x: usize, y: usize, z: usize, tx: usize, ty: usize, tz: usize)
        requires
            old(self).wf(),
            old(self)@.in_bounds(x as int, y as int, z as int),
            old(self)@.in_bounds(tx as int, ty as int, tz as int),
            old(self)@.at(x as int, y as int, z as int) is Some,
            old(self)@.at(tx as int, ty as int, tz as int) is None,
        ensures
            final(self).wf(),
            final(self)@ == old(self)@.relocate(x as int, y as int, z as int, tx as int, ty as int, tz as int),
    {
        let state = self.get(x, y, z);
        self.set(x, y, z, None);
        self.set(tx, ty, tz, state);
    }

    /// Lets the sand of `(x, y, z)` fall one cell, if the cell below is empty.
    /// Says whether it fell.
    pub fn fall(&mut self, x: usize, y: usize, z: usize) -> (moved: bool)
        requires
            old(self).wf(),
            old(self)@.in_bounds(x as int, y as int, z as int),
        ensures
            final(self).wf(),
            moved == old(self)@.can_fall(x as int, y as int, z as int),
            final(self)@ == old(self)@.fall(x as int, y as int, z as int),
    {
        if self.get(x, y, z).is_some() && y != 0 && self.get(x, y - 1, z).is_none() {
            self.relocate(x, y, z, x, y - 1, z);
            true
        } else {
            false
        }
    }

    /// Moves the sand of `(x, y, z)` along the first step of `order` that leads
    /// to an empty cell of the grid. Says whether it moved.
    pub fn spread(&mut self, x: usize, y: usize, z: usize, order: &Vec<Offset>) -> (moved: bool)
        requires
            old(self).wf(),
            old(self)@.in_bounds(x as int, y as int, z as int),
        ensures
            final(self).wf(),
            moved == old(self)@.can_spread(x as int, y as int, z as int, order@),
            final(self)@ == old(self)@.spread(x as int, y as int, z as int, order@),
    {
        if self.get(x, y, z).is_none() {
            return false;
        }
        let mut i: usize = 0;
        while i < order.len()
            invariant
                0 <= i <= order.len(),
                self.wf(),
                *self == *old(self),
                self@.in_bounds(x as int, y as int, z as int),
                self@.at(x as int, y as int, z as int) is Some,
                self@.first_open(x as int, y as int, z as int, order@, 0) == self@.first_open(
                    x as int,
                    y as int,
                    z as int,
                    order@,
                    i as int,
                ),
            decreases order.len() - i,
        {
            let o = order[i];
            match self.neighbor(x, y, z, o.dx, o.dy, o.dz) {
                Some((tx, ty, tz)) => {
                    if self.get(tx, ty, tz).is_none() {
                        assert(self@.is_open(x as int, y as int, z as int, order@[i as int]));
                        self.relocate(x, y, z, tx, ty, tz);
                        return true;
                    }
                },
                None => {},
            }
            i = i + 1;
        }
        false
    }
}

/// For each cell, the order in which it tries the diagonal steps.
pub type Orders = spec_fn(int, int, int) -> Seq<Offset>;

/// Whether every order of `orders` holds the eight diagonal steps.
pub open spec fn all_shuffles(orders: Orders) -> bool {
    forall|x: int, y: int, z: int| is_shuffle(#[trigger] orders(x, y, z))
}

/// The grid after the cells `(x, y, 0)` to `(x, y, n - 1)` have been visited
/// in turn.
pub open spec fn tick_cells(g: GridView, orders: Orders, x: int, y: int, n: int) -> GridView
    decreases n,
{
    if n <= 0 {
        g
    } else {
        tick_cells(g, orders, x, y, n - 1).settle(x, y, n - 1, orders(x, y, n - 1))
    }
}

/// The grid after the rows `x = 0` to `x = n - 1` of layer `y` have been
/// visited in turn.
pub open spec fn tick_rows(g: GridView, orders: Orders, y: int, n: int) -> GridView
    decreases n,
{
    if n <= 0 {
        g
    } else {
        tick_cells(tick_rows(g, orders, y, n - 1), orders, n - 1, y, g.length as int)
    }
}

/// The grid after the layers `y = 0` to `y = n - 1` have been visited, from
/// the lowest up.
pub open spec fn tick_layers(g: GridView, orders: Orders, n: int) -> GridView
    decreases n,
{
    if n <= 0 {
        g
    } else {
        tick_rows(tick_layers(g, orders, n - 1), orders, n - 1, g.width as int)
    }
}

/// The grid after one tick in which each cell tries the diagonal steps in the
/// order that `orders` gives it.
pub open spec fn tick(g: GridView, orders: Orders) -> GridView {
    tick_layers(g, orders, g.height as int)
}

/// Whether `after` is what one tick can make of `before`.
pub open spec fn is_tick(before: GridView, after: GridView) -> bool {
    exists|orders: Orders| all_shuffles(orders) && after == #[trigger] tick(before, orders)
}

/// Every step of the order that `orders` gives a cell leads one layer down and
/// to a side.
pub proof fn lemma_order_is_diagonal(orders: Orders, x: int, y: int, z: int)
    requires
        all_shuffles(orders),
    ensures
        forall|i: int| 0 <= i < orders(x, y, z).len() ==> is_diagonal(#[trigger] orders(x, y, z)[i]),
        forall|i: int| 0 <= i < orders(x, y, z).len() ==> (#[trigger] orders(x, y, z)[i]).dy == -1,
{
    let order = orders(x, y, z);
    assert(is_shuffle(order));
    lemma_shuffle_members(order);
    assert forall|i: int| 0 <= i < order.len() implies is_diagonal(#[trigger] order[i]) by {
        assert(order.contains(order[i]));
    }
}

/// A visit keeps the grid well formed and the amount of sand. Where it moves
/// sand, one unit comes to lie one layer lower; else the grid stays as it is.
pub proof fn lemma_settle(g: GridView, x: int, y: int, z: int, order: Seq<Offset>)
    requires
        g.wf(),
        g.in_bounds(x, y, z),
        forall|i: int| 0 <= i < order.len() ==> (#[trigger] order[i]).dy == -1,
    ensures
        g.settle(x, y, z, order).wf(),
        g.settle(x, y, z, order).same_shape(g),
        g.settle(x, y, z, order).occupied() == g.occupied(),
        g.moves(x, y, z, order) ==> g.settle(x, y, z, order).potential() == g.potential() - 1,
        !g.moves(x, y, z, order) ==> g.settle(x, y, z, order) == g,
{
    if g.can_fall(x, y, z) {
        lemma_relocate(g, x, y, z, x, y - 1, z);
    } else if g.at(x, y, z) is Some {
        lemma_first_open(g, x, y, z, order, 0);
        match g.first_open(x, y, z, order, 0) {
            Some(k) => {
                let o = order[k];
                lemma_relocate(g, x, y, z, x + o.dx, y + o.dy, z + o.dz);
            },
            None => {},
        }
    }
}

/// The visits of a row look at the orders of that row's cells only.
pub proof fn lemma_tick_cells_frame(g: GridView, o1: Orders, o2: Orders, x: int, y: int, n: int)
    requires
        forall|k: int| 0 <= k < n ==> #[trigger] o1(x, y, k) == o2(x, y, k),
    ensures
        tick_cells(g, o1, x, y, n) == tick_cells(g, o2, x, y, n),
    decreases n,
{
    if n > 0 {
        lemma_tick_cells_frame(g, o1, o2, x, y, n - 1);
    }
}

/// The visits of the first rows of a layer look at the orders of those rows only.
pub proof fn lemma_tick_rows_frame(g: GridView, o1: Orders, o2: Orders, y: int, n: int)
    requires
        forall|i: int, k: int| 0 <= i < n ==> #[trigger] o1(i, y, k) == o2(i, y, k),
    ensures
        tick_rows(g, o1, y, n) == tick_rows(g, o2, y, n),
    decreases n,
{
    if n > 0 {
        lemma_tick_rows_frame(g, o1, o2, y, n - 1);
        lemma_tick_cells_frame(tick_rows(g, o1, y, n - 1), o1, o2, n - 1, y, g.length as int);
    }
}

/// The visits of the lowest layers look at the orders of those layers only.
pub proof fn lemma_tick_layers_frame(g: GridView, o1: Orders, o2: Orders, n: int)
    requires
        forall|i: int, j: int, k: int| 0 <= j < n ==> #[trigger] o1(i, j, k) == o2(i, j, k),
    ensures
        tick_layers(g, o1, n) == tick_layers(g, o2, n),
    decreases n,
{
    if n > 0 {
        lemma_tick_layers_frame(g, o1, o2, n - 1);
        lemma_tick_rows_frame(tick_layers(g, o1, n - 1), o1, o2, n - 1, g.width as int);
    }
}

/// `orders` with the order of the cell `(x, y, z)` replaced by `order`.
pub open spec fn with_order(orders: Orders, x: int, y: int, z: int, order: Seq<Offset>) -> Orders {
    |a: int, b: int, c: int|
        if a == x && b == y && c == z {
            order
        } else {
            orders(a, b, c)
        }
}

impl Grid {
    /// Advances the grid by one tick. From the lowest layer up, each unit of
    /// sand falls one cell if the cell below is empty; else it moves to the
    /// first empty cell among its eight diagonal neighbours one layer down,
    /// tried in a random order; else it rests. Says whether any sand moved.
    pub fn step(&mut self) -> (changed: bool)
        requires
            old(self).wf(),
        ensures
            final(self).wf(),
            final(self)@.same_shape(old(self)@),
            is_tick(old(self)@, final(self)@),
            final(self)@.occupied() == old(self)@.occupied(),
            moved_at_most_once(old(self)@, final(self)@),
            changed == (final(self)@ != old(self)@),
    {
        let ghost start = self@;
        let ghost mut orders: Orders = |a: int, b: int, c: int| diagonals();
        let width = self.width();
        let height = self.height();
        let length = self.length();
        let mut changed = false;
        let mut y: usize = 0;
        while y < height
            invariant
                0 <= y <= height,
                self.wf(),
                self@.same_shape(start),
                width == start.width,
                height == start.height,
                length == start.length,
                all_shuffles(orders),
                self@ == tick_layers(start, orders, y as int),
                self@.occupied() == start.occupied(),
                self@.potential() <= start.potential(),
                changed ==> self@.potential() < start.potential(),
                !changed ==> self@ == start,
            decreases height - y,
        {
            let ghost layer_start = self@;
            let mut x: usize = 0;
            while x < width
                invariant
                    0 <= x <= width,
                    0 <= y < height,
                    self.wf(),
                    self@.same_shape(start),
                    layer_start.same_shape(start),
                    width == start.width,
                    height == start.height,
                    length == start.length,
                    all_shuffles(orders),
                    layer_start == tick_layers(start, orders, y as int),
                    self@ == tick_rows(layer_start, orders, y as int, x as int),
                    self@.occupied() == start.occupied(),
                    self@.potential() <= start.potential(),
                    changed ==> self@.potential() < start.potential(),
                    !changed ==> self@ == start,
                decreases width - x,
            {
                let ghost row_start = self@;
                let mut z: usize = 0;
                while z < length
                    invariant
                        0 <= z <= length,
                        0 <= x < width,
                        0 <= y < height,
                        self.wf(),
                        self@.same_shape(start),
                        layer_start.same_shape(start),
                        row_start.same_shape(start),
                        width == start.width,
                        height == start.height,
                        length == start.length,
                        all_shuffles(orders),
                        layer_start == tick_layers(start, orders, y as int),
                        row_start == tick_rows(layer_start, orders, y as int, x as int),
                        self@ == tick_cells(row_start, orders, x as int, y as int, z as int),
                        self@.occupied() == start.occupied(),
                        self@.potential() <= start.potential(),
                        changed ==> self@.potential() < start.potential(),
                        !changed ==> self@ == start,
                    decreases length - z,
                {
                    let ghost before = self@;
                    if self.get(x, y, z).is_some() {
                        if self.fall(x, y, z) {
                            changed = true;
                        } else {
                            let order = shuffled_offsets();
                            proof {
                                let ghost next = with_order(orders, x as int, y as int, z as int, order@);
                                lemma_tick_layers_frame(start, orders, next, y as int);
                                lemma_tick_rows_frame(layer_start, orders, next, y as int, x as int);
                                lemma_tick_cells_frame(row_start, orders, next, x as int, y as int, z as int);
                                assert(all_shuffles(next)) by {
                                    assert forall|a: int, b: int, c: int| is_shuffle(#[trigger] next(a, b, c)) by {
                                        assert(is_shuffle(orders(a, b, c)));
                                    }
                                }
                                orders = next;
                            }
                            if self.spread(x, y, z, &order) {
                                changed = true;
                            }
                        }
                    }
                    proof {
                        let order = orders(x as int, y as int, z as int);
                        lemma_order_is_diagonal(orders, x as int, y as int, z as int);
                        lemma_settle(before, x as int, y as int, z as int, order);
                        assert(self@ == before.settle(x as int, y as int, z as int, order));
                    }
                    z = z + 1;
                }
                x = x + 1;
            }
            y = y + 1;
        }
        assert(self@ == tick(start, orders));
        proof {
            lemma_tick_moves_sand_once(start, orders);
        }
        changed
    }
}

} // verus!
