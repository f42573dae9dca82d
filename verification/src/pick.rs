//! The slab test of a ray against a box, and the choice of the column that a
//! pointer ray targets.
//!
//! Distances along the ray are whole numbers in a unit of the caller's
//! choice; all that counts is their order. A distance that is not a number,
//! as the quotient of zero by zero, is `None`, and compares as such a
//! quotient does: it is neither greater nor less than anything. The caller
//! divides, the functions here decide.
//!
//! The columns of a grid are numbered slab by slab: the column `(x, z)` has
//! the number `x * length + z`.

use crate::color::Color;
use crate::mesh::{
    counting, cube_points, cube_verts_from_points, sequential_indices, uniform, uniform_colors, Mesh, Point,
};
use vstd::prelude::*;

verus! {

/// The distances at which a ray enters and leaves the slab between the two
/// faces of a box that face along one axis.
#[derive(Clone, Copy, Debug, PartialEq, Eq)]
pub struct Span {
    pub enter: Option<i64>,
    pub leave: Option<i64>,
}

/// The spans of a ray in the three slabs of a box.
#[derive(Clone, Copy, Debug, PartialEq, Eq)]
pub struct Slabs {
    pub x: Span,
    pub y: Span,
    pub z: Span,
}

/// Whether both distances are numbers and `a` is the greater.
pub open spec fn exceeds(a: Option<i64>, b: Option<i64>) -> bool {
    a is Some && b is Some && a->0 > b->0
}

/// The part of the span `cur` that lies in the span `next`; `None` where one
/// span ends before the other begins. A bound of `next` that is not a number
/// changes nothing.
pub open spec fn narrowed(cur: Span, next: Span) -> Option<Span> {
    if exceeds(cur.enter, next.leave) || exceeds(next.enter, cur.leave) {
        None
    } else {
        Some(
            Span {
                enter: if exceeds(next.enter, cur.enter) {
                    next.enter
                } else {
                    cur.enter
                },
                leave: if exceeds(cur.leave, next.leave) {
                    next.leave
                } else {
                    cur.leave
                },
            },
        )
    }
}

/// The distance at which the ray enters the box, if it hits the box between
/// the two limits: the three spans overlap, the overlap begins before
/// `exit_limit` and ends after `entry_limit`.
pub open spec fn slab_entry(s: Slabs, entry_limit: i64, exit_limit: i64) -> Option<i64> {
    match narrowed(s.x, s.y) {
        None => None,
        Some(xy) => match narrowed(xy, s.z) {
            None => None,
            Some(all) => if exceeds(Some(exit_limit), all.enter) && exceeds(all.leave, Some(entry_limit)) {
                all.enter
            } else {
                None
            },
        },
    }
}

/// Whether the span has two numbers for bounds and does not end before it
/// begins.
pub open spec fn is_proper(span: Span) -> bool {
    span.enter is Some && span.leave is Some && span.enter->0 <= span.leave->0
}

/// The greatest of three numbers.
pub open spec fn max3(a: int, b: int, c: int) -> int {
    if a >= b && a >= c {
        a
    } else if b >= c {
        b
    } else {
        c
    }
}

/// The least of three numbers.
pub open spec fn min3(a: int, b: int, c: int) -> int {
    if a <= b && a <= c {
        a
    } else if b <= c {
        b
    } else {
        c
    }
}

/// The slab test finds the box exactly when the ray is inside all three
/// slabs at once somewhere between the limits: the last entry is not after
/// the first exit, lies before `exit_limit`, and the first exit lies after
/// `entry_limit`. The last entry is then the distance it reports.
pub proof fn lemma_slab_entry(s: Slabs, entry_limit: i64, exit_limit: i64)
    requires
        is_proper(s.x),
        is_proper(s.y),
        is_proper(s.z),
    ensures
        ({
            let enter = max3(s.x.enter->0 as int, s.y.enter->0 as int, s.z.enter->0 as int);
            let leave = min3(s.x.leave->0 as int, s.y.leave->0 as int, s.z.leave->0 as int);
            slab_entry(s, entry_limit, exit_limit) == if enter <= leave && enter < exit_limit && leave
                > entry_limit {
                Some(enter as i64)
            } else {
                None
            }
        }),
{
}

/// A ray that is cast along a face of the box, from a point in the plane of
/// that face, has no distance to the slab of the `x` axis, and misses.
pub proof fn lemma_slab_entry_undefined(s: Slabs, entry_limit: i64, exit_limit: i64)
    requires
        s.x.enter is None || s.x.leave is None,
    ensures
        slab_entry(s, entry_limit, exit_limit) is None,
{
}

/// Whether both distances are numbers and `a` is the greater.
pub fn is_greater(a: Option<i64>, b: Option<i64>) -> (r: bool)
    ensures
        r == exceeds(a, b),
{
    match (a, b) {
        (Some(p), Some(q)) => p > q,
        _ => false,
    }
}

/// The part of the span `cur` that lies in the span `next`.
pub fn narrow(cur: Span, next: Span) -> (r: Option<Span>)
    ensures
        r == narrowed(cur, next),
{
    if is_greater(cur.enter, next.leave) || is_greater(next.enter, cur.leave) {
        return None;
    }
    let enter = if is_greater(next.enter, cur.enter) {
        next.enter
    } else {
        cur.enter
    };
    let leave = if is_greater(cur.leave, next.leave) {
        next.leave
    } else {
        cur.leave
    };
    Some(Span { enter, leave })
}

/// The slab test: the distance at which a ray with the given spans enters
/// the box, if it hits the box between the two limits.
pub fn slab_test(s: Slabs, entry_limit: i64, exit_limit: i64) -> (hit: Option<i64>)
    ensures
        hit == slab_entry(s, entry_limit, exit_limit),
{
    let xy = match narrow(s.x, s.y) {
        Some(xy) => xy,
        None => {
            return None;
        },
    };
    let all = match narrow(xy, s.z) {
        Some(all) => all,
        None => {
            return None;
        },
    };
    if is_greater(Some(exit_limit), all.enter) && is_greater(all.leave, Some(entry_limit)) {
        all.enter
    } else {
        None
    }
}

/// For each ray and box the result of the slab test.
pub open spec fn entries(slabs: Seq<Slabs>, entry_limit: i64, exit_limit: i64) -> Seq<Option<i64>> {
    Seq::new(slabs.len(), |i: int| slab_entry(slabs[i], entry_limit, exit_limit))
}

/// The slab test of each ray and box in turn.
pub fn column_entries(slabs: &Vec<Slabs>, entry_limit: i64, exit_limit: i64) -> (depths: Vec<Option<i64>>)
    ensures
        depths@ == entries(slabs@, entry_limit, exit_limit),
{
    let mut depths: Vec<Option<i64>> = Vec::new();
    let mut i: usize = 0;
    while i < slabs.len()
        invariant
            0 <= i <= slabs.len(),
            depths@ == entries(slabs@.take(i as int), entry_limit, exit_limit),
        decreases slabs.len() - i,
    {
        depths.push(slab_test(slabs[i], entry_limit, exit_limit));
        i = i + 1;
        assert(depths@ =~= entries(slabs@.take(i as int), entry_limit, exit_limit));
    }
    assert(slabs@.take(i as int) =~= slabs@);
    depths
}

/// Whether column `k` is hit, no column is hit nearer, and no column before
/// it is hit as near.
pub open spec fn is_nearest(depths: Seq<Option<i64>>, k: int) -> bool {
    &&& 0 <= k < depths.len()
    &&& depths[k] is Some
    &&& forall|j: int| 0 <= j < depths.len() && depths[j] is Some ==> depths[k]->0 <= (#[trigger] depths[j])->0
    &&& forall|j: int| 0 <= j < k && depths[j] is Some ==> depths[k]->0 < (#[trigger] depths[j])->0
}

/// Whether no column is hit.
pub open spec fn all_missed(depths: Seq<Option<i64>>) -> bool {
    forall|j: int| 0 <= j < depths.len() ==> (#[trigger] depths[j]) is None
}

/// At most one column is the nearest.
pub proof fn lemma_nearest_unique(depths: Seq<Option<i64>>, k1: int, k2: int)
    requires
        is_nearest(depths, k1),
        is_nearest(depths, k2),
    ensures
        k1 == k2,
{
    if k1 < k2 {
        assert(depths[k2]->0 < depths[k1]->0);
        assert(depths[k1]->0 <= depths[k2]->0);
    } else if k2 < k1 {
        assert(depths[k1]->0 < depths[k2]->0);
        assert(depths[k2]->0 <= depths[k1]->0);
    }
}

/// The number of the column that the ray enters first; of several that it
/// enters at the same distance, the first in the numbering. `None` where the
/// ray misses every column.
pub fn nearest_hit(depths: &Vec<Option<i64>>) -> (hit: Option<usize>)
    ensures
        match hit {
            Some(k) => is_nearest(depths@, k as int),
            None => all_missed(depths@),
        },
{
    let mut best: Option<usize> = None;
    let mut best_depth: i64 = 0;
    let mut i: usize = 0;
    while i < depths.len()
        invariant
            0 <= i <= depths.len(),
            match best {
                Some(k) => k < i && is_nearest(depths@.take(i as int), k as int) && depths@[k as int] == Some(
                    best_depth,
                ),
                None => all_missed(depths@.take(i as int)),
            },
        decreases depths.len() - i,
    {
        let ghost seen = depths@.take(i as int);
        let ghost next = depths@.take(i + 1);
        assert(forall|j: int| 0 <= j < i ==> seen[j] == next[j]);
        match depths[i] {
            Some(d) => {
                if best.is_none() || d < best_depth {
                    best = Some(i);
                    best_depth = d;
                }
            },
            None => {},
        }
        i = i + 1;
    }
    assert(depths@.take(i as int) =~= depths@);
    best
}

/// The vertices, indices and colours of the white box that marks the cell
/// `(x, y, z)`.
pub open spec fn is_highlight(mesh: Mesh, x: int, y: int, z: int) -> bool {
    &&& mesh.positions@ == cube_points(
        Point { x: x as u32, y: y as u32, z: z as u32 },
        Point { x: (x + 1) as u32, y: (y + 1) as u32, z: (z + 1) as u32 },
    )
    &&& mesh.indicies@ == counting(36)
    &&& mesh.colors@ == uniform(36, Color::spec_white())
    &&& !mesh.wireframe
}

/// The white box that marks the cell `(x, y, z)`: all six faces of the cell,
/// whatever lies around it.
pub fn highlight_mesh(x: u32, y: u32, z: u32) -> (mesh: Mesh)
    requires
        x < u32::MAX,
        y < u32::MAX,
        z < u32::MAX,
    ensures
        is_highlight(mesh, x as int, y as int, z as int),
{
    let positions = cube_verts_from_points(Point { x, y, z }, Point { x: x + 1, y: y + 1, z: z + 1 });
    Mesh::new(positions, sequential_indices(36), false, uniform_colors(36, Color::white()))
}

} // verus!
