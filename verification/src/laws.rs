//! What holds of every tick, whatever order the shuffles come in.

use crate::grid::GridView;
use crate::sim::{
    all_shuffles, is_diagonal, lemma_first_open, lemma_order_is_diagonal, lemma_relocate, lemma_settle, tick,
    tick_cells, tick_layers, tick_rows, Offset, Orders,
};
use vstd::prelude::*;

verus! {

/// Whether `after` is a well-formed grid of the shape of `before` that holds
/// as much sand, none of it higher in sum.
pub open spec fn keeps(before: GridView, after: GridView) -> bool {
    &&& after.wf()
    &&& after.same_shape(before)
    &&& after.occupied() == before.occupied()
    &&& after.potential() <= before.potential()
}

/// The visits of a row neither make nor lose sand.
pub proof fn lemma_tick_cells_keeps(g: GridView, orders: Orders, x: int, y: int, n: int)
    requires
        g.wf(),
        all_shuffles(orders),
        0 <= x < g.width,
        0 <= y < g.height,
        0 <= n <= g.length,
    ensures
        keeps(g, tick_cells(g, orders, x, y, n)),
    decreases n,
{
    if n > 0 {
        lemma_tick_cells_keeps(g, orders, x, y, n - 1);
        lemma_order_is_diagonal(orders, x, y, n - 1);
        lemma_settle(tick_cells(g, orders, x, y, n - 1), x, y, n - 1, orders(x, y, n - 1));
    }
}

/// The visits of the rows of a layer neither make nor lose sand.
pub proof fn lemma_tick_rows_keeps(g: GridView, orders: Orders, y: int, n: int)
    requires
        g.wf(),
        all_shuffles(orders),
        0 <= y < g.height,
        0 <= n <= g.width,
    ensures
        keeps(g, tick_rows(g, orders, y, n)),
    decreases n,
{
    if n > 0 {
        lemma_tick_rows_keeps(g, orders, y, n - 1);
        lemma_tick_cells_keeps(tick_rows(g, orders, y, n - 1), orders, n - 1, y, g.length as int);
    }
}

/// The visits of the lowest layers neither make nor lose sand.
pub proof fn lemma_tick_layers_keeps(g: GridView, orders: Orders, n: int)
    requires
        g.wf(),
        all_shuffles(orders),
        0 <= n <= g.height,
    ensures
        keeps(g, tick_layers(g, orders, n)),
    decreases n,
{
    if n > 0 {
        lemma_tick_layers_keeps(g, orders, n - 1);
        lemma_tick_rows_keeps(tick_layers(g, orders, n - 1), orders, n - 1, g.width as int);
    }
}

/// A tick neither makes nor loses sand: the grid after it has the shape of
/// the grid before it and as many occupied cells.
pub proof fn lemma_tick_conserves(g: GridView, orders: Orders)
    requires
        g.wf(),
        all_shuffles(orders),
    ensures
        tick(g, orders).wf(),
        tick(g, orders).same_shape(g),
        tick(g, orders).occupied() == g.occupied(),
{
    lemma_tick_layers_keeps(g, orders, g.height as int);
}

/// The position of a cell.
pub struct Pos {
    pub x: int,
    pub y: int,
    pub z: int,
}

/// Whether `p` names a cell of `g` that holds sand.
pub open spec fn holds_sand(g: GridView, p: Pos) -> bool {
    g.in_bounds(p.x, p.y, p.z) && g.at(p.x, p.y, p.z) is Some
}

/// Whether `q` is `p` itself or one of the nine cells one layer below `p`
/// that touch it.
pub open spec fn stays_or_drops(p: Pos, q: Pos) -> bool {
    q == p || (q.y == p.y - 1 && -1 <= q.x - p.x <= 1 && -1 <= q.z - p.z <= 1)
}

/// Whether `dest` says of each unit of sand of `before` where it lies in
/// `after`: in a cell of its own, in its colour, where it was or one layer
/// lower in a cell that touches the one it left.
pub open spec fn is_relocation(before: GridView, after: GridView, dest: Map<Pos, Pos>) -> bool {
    &&& forall|p: Pos|
        #![trigger dest.dom().contains(p)]
        #![trigger holds_sand(before, p)]
        dest.dom().contains(p) <==> holds_sand(before, p)
    &&& forall|p: Pos| #[trigger]
        dest.dom().contains(p) ==> {
            &&& holds_sand(after, dest[p])
            &&& after.at(dest[p].x, dest[p].y, dest[p].z) == before.at(p.x, p.y, p.z)
            &&& stays_or_drops(p, dest[p])
        }
    &&& forall|pa: Pos, pb: Pos|
        #![trigger dest.dom().contains(pa), dest.dom().contains(pb)]
        dest.dom().contains(pa) && dest.dom().contains(pb) && dest[pa] == dest[pb] ==> pa == pb
}

/// Whether every unit of sand of `before` is found again in `after`, having
/// moved once at most.
pub open spec fn moved_at_most_once(before: GridView, after: GridView) -> bool {
    exists|dest: Map<Pos, Pos>| is_relocation(before, after, dest)
}

/// `dest` relocates `before` to `cur`, and the sand of `cur` in the layers
/// from `y` up has not moved.
pub open spec fn tracks(before: GridView, cur: GridView, dest: Map<Pos, Pos>, y: int) -> bool {
    &&& before.wf()
    &&& cur.wf()
    &&& cur.same_shape(before)
    &&& is_relocation(before, cur, dest)
    &&& forall|q: Pos| #[trigger] holds_sand(cur, q) && q.y >= y ==> dest.dom().contains(q) && dest[q] == q
}

/// Where a visit of `(x, y, z)` takes the sand of that cell, if it moves it.
pub open spec fn landing(g: GridView, x: int, y: int, z: int, order: Seq<Offset>) -> Pos {
    if g.can_fall(x, y, z) {
        Pos { x, y: y - 1, z }
    } else {
        let o = order[g.first_open(x, y, z, order, 0)->0];
        Pos { x: x + o.dx, y: y + o.dy, z: z + o.dz }
    }
}

/// A visit that moves sand takes it to an empty cell one layer down that
/// touches the cell it leaves.
pub proof fn lemma_landing(g: GridView, x: int, y: int, z: int, order: Seq<Offset>)
    requires
        g.wf(),
        g.in_bounds(x, y, z),
        forall|i: int| 0 <= i < order.len() ==> is_diagonal(#[trigger] order[i]),
        g.moves(x, y, z, order),
    ensures
        ({
            let t = landing(g, x, y, z, order);
            &&& g.at(x, y, z) is Some
            &&& g.in_bounds(t.x, t.y, t.z)
            &&& g.at(t.x, t.y, t.z) is None
            &&& t.y == y - 1
            &&& -1 <= t.x - x <= 1
            &&& -1 <= t.z - z <= 1
            &&& g.settle(x, y, z, order) == g.relocate(x, y, z, t.x, t.y, t.z)
        }),
{
    if !g.can_fall(x, y, z) {
        lemma_first_open(g, x, y, z, order, 0);
    }
}

/// A visit keeps track of the sand: what tracked the grid before, with the
/// unit that the visit moved sent to its new cell, tracks the grid after.
pub proof fn lemma_settle_tracks(
    before: GridView,
    cur: GridView,
    dest: Map<Pos, Pos>,
    x: int,
    y: int,
    z: int,
    order: Seq<Offset>,
) -> (next: Map<Pos, Pos>)
    requires
        tracks(before, cur, dest, y),
        cur.in_bounds(x, y, z),
        forall|i: int| 0 <= i < order.len() ==> is_diagonal(#[trigger] order[i]),
    ensures
        tracks(before, cur.settle(x, y, z, order), next, y),
{
    let after = cur.settle(x, y, z, order);
    assert forall|i: int| 0 <= i < order.len() implies (#[trigger] order[i]).dy == -1 by {
        assert(is_diagonal(order[i]));
    }
    lemma_settle(cur, x, y, z, order);
    if !cur.moves(x, y, z, order) {
        dest
    } else {
        lemma_settle_moved(before, cur, dest, x, y, z, order)
    }
}

/// The case of `lemma_settle_tracks` in which the visit moves sand.
proof fn lemma_settle_moved(
    before: GridView,
    cur: GridView,
    dest: Map<Pos, Pos>,
    x: int,
    y: int,
    z: int,
    order: Seq<Offset>,
) -> (next: Map<Pos, Pos>)
    requires
        tracks(before, cur, dest, y),
        cur.in_bounds(x, y, z),
        forall|i: int| 0 <= i < order.len() ==> is_diagonal(#[trigger] order[i]),
        cur.moves(x, y, z, order),
    ensures
        tracks(before, cur.settle(x, y, z, order), next, y),
{
    let after = cur.settle(x, y, z, order);
    lemma_landing(cur, x, y, z, order);
    let p = Pos { x, y, z };
    let t = landing(cur, x, y, z, order);
    lemma_relocate(cur, x, y, z, t.x, t.y, t.z);
    assert(holds_sand(cur, p));
    assert(dest.dom().contains(p) && dest[p] == p);
    let next = dest.insert(p, t);
    assert forall|p0: Pos| #[trigger] next.dom().contains(p0) implies {
        &&& holds_sand(after, next[p0])
        &&& after.at(next[p0].x, next[p0].y, next[p0].z) == before.at(p0.x, p0.y, p0.z)
        &&& stays_or_drops(p0, next[p0])
    } by {
        if p0 != p {
            let q0 = dest[p0];
            assert(dest.dom().contains(p0));
            assert(holds_sand(cur, q0));
            assert(q0 != p);
            assert(q0 != t);
            assert(after.at(q0.x, q0.y, q0.z) == cur.at(q0.x, q0.y, q0.z));
        }
    }
    assert forall|pa: Pos, pb: Pos|
        #![trigger next.dom().contains(pa), next.dom().contains(pb)]
        next.dom().contains(pa) && next.dom().contains(pb) && next[pa] == next[pb] implies pa == pb by {
        assert(dest.dom().contains(pa) && dest.dom().contains(pb));
        if pa != p {
            assert(holds_sand(cur, dest[pa]));
        }
        if pb != p {
            assert(holds_sand(cur, dest[pb]));
        }
    }
    assert forall|q: Pos| #[trigger] holds_sand(after, q) && q.y >= y implies next.dom().contains(q) && next[q]
        == q by {
        assert(q != t);
        assert(q != p);
        assert(after.at(q.x, q.y, q.z) == cur.at(q.x, q.y, q.z));
        assert(holds_sand(cur, q));
    }
    assert forall|p0: Pos|
        #![trigger next.dom().contains(p0)]
        #![trigger holds_sand(before, p0)]
        next.dom().contains(p0) <==> holds_sand(before, p0) by {
        assert(dest.dom().contains(p0) <==> holds_sand(before, p0));
    }
    next
}

/// The visits of a row keep track of the sand.
pub proof fn lemma_tick_cells_tracks(
    before: GridView,
    cur: GridView,
    dest: Map<Pos, Pos>,
    orders: Orders,
    x: int,
    y: int,
    n: int,
) -> (next: Map<Pos, Pos>)
    requires
        tracks(before, cur, dest, y),
        all_shuffles(orders),
        0 <= x < cur.width,
        0 <= y < cur.height,
        0 <= n <= cur.length,
    ensures
        tracks(before, tick_cells(cur, orders, x, y, n), next, y),
    decreases n,
{
    if n <= 0 {
        dest
    } else {
        let mid = lemma_tick_cells_tracks(before, cur, dest, orders, x, y, n - 1);
        lemma_order_is_diagonal(orders, x, y, n - 1);
        lemma_settle_tracks(before, tick_cells(cur, orders, x, y, n - 1), mid, x, y, n - 1, orders(x, y, n - 1))
    }
}

/// The visits of the rows of a layer keep track of the sand.
pub proof fn lemma_tick_rows_tracks(
    before: GridView,
    cur: GridView,
    dest: Map<Pos, Pos>,
    orders: Orders,
    y: int,
    n: int,
) -> (next: Map<Pos, Pos>)
    requires
        tracks(before, cur, dest, y),
        all_shuffles(orders),
        0 <= y < cur.height,
        0 <= n <= cur.width,
    ensures
        tracks(before, tick_rows(cur, orders, y, n), next, y),
    decreases n,
{
    if n <= 0 {
        dest
    } else {
        let mid = lemma_tick_rows_tracks(before, cur, dest, orders, y, n - 1);
        lemma_tick_cells_tracks(before, tick_rows(cur, orders, y, n - 1), mid, orders, n - 1, y, cur.length as int)
    }
}

/// The visits of the lowest layers keep track of the sand.
pub proof fn lemma_tick_layers_tracks(before: GridView, orders: Orders, n: int) -> (next: Map<Pos, Pos>)
    requires
        before.wf(),
        all_shuffles(orders),
        0 <= n <= before.height,
    ensures
        tracks(before, tick_layers(before, orders, n), next, n),
    decreases n,
{
    if n <= 0 {
        let id = Map::new(|p: Pos| holds_sand(before, p), |p: Pos| p);
        assert(tracks(before, before, id, 0));
        id
    } else {
        let mid = lemma_tick_layers_tracks(before, orders, n - 1);
        lemma_tick_rows_tracks(
            before,
            tick_layers(before, orders, n - 1),
            mid,
            orders,
            n - 1,
            before.width as int,
        )
    }
}

/// In one tick no unit of sand moves twice: each is found again, in its
/// colour and in a cell of its own, where it was or one layer lower in a cell
/// that touches the one it left.
pub proof fn lemma_tick_moves_sand_once(g: GridView, orders: Orders)
    requires
        g.wf(),
        all_shuffles(orders),
    ensures
        moved_at_most_once(g, tick(g, orders)),
{
    let dest = lemma_tick_layers_tracks(g, orders, g.height as int);
    assert(is_relocation(g, tick(g, orders), dest));
}

/// Whether the cell `(x, y, z)` of `g` holds sand and no other cell does.
pub open spec fn is_lone(g: GridView, x: int, y: int, z: int) -> bool {
    &&& g.wf()
    &&& g.in_bounds(x, y, z)
    &&& g.at(x, y, z) is Some
    &&& forall|a: int, b: int, c: int|
        g.in_bounds(a, b, c) && !(a == x && b == y && c == z) ==> (#[trigger] g.at(a, b, c)) is None
}

/// The grid after `n` ticks, the `i`-th of them with the orders `schedule(i)`.
pub open spec fn run(g: GridView, schedule: spec_fn(int) -> Orders, n: int) -> GridView
    decreases n,
{
    if n <= 0 {
        g
    } else {
        tick(run(g, schedule, n - 1), schedule(n - 1))
    }
}

/// Visits of empty cells of a row leave the grid as it is.
pub proof fn lemma_cells_idle(g: GridView, orders: Orders, x: int, y: int, m: int, n: int)
    requires
        0 <= m <= n,
        forall|k: int| m <= k < n ==> (#[trigger] tick_cells(g, orders, x, y, m).at(x, y, k)) is None,
    ensures
        tick_cells(g, orders, x, y, n) == tick_cells(g, orders, x, y, m),
    decreases n - m,
{
    if n > m {
        lemma_cells_idle(g, orders, x, y, m, n - 1);
        assert(tick_cells(g, orders, x, y, m).at(x, y, n - 1) is None);
    }
}

/// Visits of empty rows of a layer leave the grid as it is.
pub proof fn lemma_rows_idle(g: GridView, orders: Orders, y: int, m: int, n: int)
    requires
        0 <= m <= n,
        forall|i: int, k: int|
            m <= i < n && 0 <= k < g.length ==> (#[trigger] tick_rows(g, orders, y, m).at(i, y, k)) is None,
    ensures
        tick_rows(g, orders, y, n) == tick_rows(g, orders, y, m),
    decreases n - m,
{
    if n > m {
        lemma_rows_idle(g, orders, y, m, n - 1);
        let start = tick_rows(g, orders, y, m);
        assert forall|k: int| 0 <= k < g.length implies (#[trigger] tick_cells(start, orders, n - 1, y, 0).at(
            n - 1,
            y,
            k,
        )) is None by {
            assert(start.at(n - 1, y, k) is None);
        }
        lemma_cells_idle(start, orders, n - 1, y, 0, g.length as int);
    }
}

/// Visits of empty layers leave the grid as it is.
pub proof fn lemma_layers_idle(g: GridView, orders: Orders, m: int, n: int)
    requires
        0 <= m <= n,
        tick_layers(g, orders, m).same_shape(g),
        forall|i: int, j: int, k: int|
            0 <= i < g.width && m <= j < n && 0 <= k < g.length ==> (#[trigger] tick_layers(g, orders, m).at(
                i,
                j,
                k,
            )) is None,
    ensures
        tick_layers(g, orders, n) == tick_layers(g, orders, m),
    decreases n - m,
{
    if n > m {
        lemma_layers_idle(g, orders, m, n - 1);
        let start = tick_layers(g, orders, m);
        assert forall|i: int, k: int| 0 <= i < g.width && 0 <= k < start.length implies (#[trigger] tick_rows(
            start,
            orders,
            n - 1,
            0,
        ).at(i, n - 1, k)) is None by {
            assert(start.at(i, n - 1, k) is None);
        }
        lemma_rows_idle(start, orders, n - 1, 0, g.width as int);
    }
}

/// A tick lets a lone unit of sand fall one cell, or leaves it where it is
/// once it lies on the floor.
pub proof fn lemma_tick_lone(g: GridView, orders: Orders, x: int, y: int, z: int)
    requires
        is_lone(g, x, y, z),
        all_shuffles(orders),
    ensures
        y == 0 ==> tick(g, orders) == g,
        y > 0 ==> is_lone(tick(g, orders), x, y - 1, z),
        y > 0 ==> tick(g, orders).at(x, y - 1, z) == g.at(x, y, z),
        tick(g, orders).same_shape(g),
{
    let order = orders(x, y, z);
    lemma_order_is_diagonal(orders, x, y, z);
    // Nothing happens below the unit, nor before it in its own layer and row.
    assert(tick_layers(g, orders, 0) == g);
    lemma_layers_idle(g, orders, 0, y);
    assert(tick_rows(g, orders, y, 0) == g);
    lemma_rows_idle(g, orders, y, 0, x);
    assert(tick_cells(g, orders, x, y, 0) == g);
    lemma_cells_idle(g, orders, x, y, 0, z);
    // The visit of the unit itself.
    let after = g.settle(x, y, z, order);
    assert(tick_cells(g, orders, x, y, z + 1) == after);
    if y == 0 {
        lemma_first_open(g, x, y, z, order, 0);
        assert(after == g);
    } else {
        assert(g.at(x, y - 1, z) is None);
        assert(g.can_fall(x, y, z));
        lemma_relocate(g, x, y, z, x, y - 1, z);
        assert(is_lone(after, x, y - 1, z));
    }
    // Nothing happens after it.
    lemma_cells_idle(g, orders, x, y, z + 1, g.length as int);
    assert(tick_rows(g, orders, y, x + 1) == after);
    lemma_rows_idle(g, orders, y, x + 1, g.width as int);
    assert(tick_layers(g, orders, y + 1) == after);
    lemma_layers_idle(g, orders, y + 1, g.height as int);
}

/// A lone unit of sand falls one cell with each tick until it lies on the
/// floor. From then on the ticks leave the grid as it is. A unit that starts
/// in layer `y` is on the floor after `y` ticks, so after as many ticks as
/// the grid is high at the latest.
pub proof fn lemma_lone_unit_settles(
    g: GridView,
    schedule: spec_fn(int) -> Orders,
    x: int,
    y: int,
    z: int,
    n: int,
)
    requires
        is_lone(g, x, y, z),
        forall|i: int| all_shuffles(#[trigger] schedule(i)),
        0 <= n,
    ensures
        n <= y ==> is_lone(run(g, schedule, n), x, y - n, z),
        n >= y ==> is_lone(run(g, schedule, n), x, 0, z),
        n >= g.height ==> is_lone(run(g, schedule, n), x, 0, z),
        run(g, schedule, n).at(x, if n <= y { y - n } else { 0 }, z) == g.at(x, y, z),
        run(g, schedule, n).same_shape(g),
        n >= y ==> run(g, schedule, n + 1) == run(g, schedule, n),
    decreases n,
{
    if n > 0 {
        lemma_lone_unit_settles(g, schedule, x, y, z, n - 1);
        let prev = run(g, schedule, n - 1);
        let rest = if n - 1 <= y {
            y - (n - 1)
        } else {
            0
        };
        assert(all_shuffles(schedule(n - 1)));
        lemma_tick_lone(prev, schedule(n - 1), x, rest, z);
    }
    let now = run(g, schedule, n);
    if n >= y {
        assert(all_shuffles(schedule(n)));
        lemma_tick_lone(now, schedule(n), x, 0, z);
    }
}

} // verus!
