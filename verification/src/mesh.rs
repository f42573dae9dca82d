//! Vertex, index and colour arrays, and the two box shapes built from a pair
//! of opposite corners.
//!
//! Positions are whole numbers of cell edges. Whoever draws a mesh scales
//! them by the edge length of a voxel.

use crate::color::Color;
use vstd::prelude::*;

verus! {

/// A corner of the cell lattice.
#[derive(Clone, Copy, Debug, PartialEq, Eq, Structural)]
pub struct Point {
    pub x: u32,
    pub y: u32,
    pub z: u32,
}

/// A list of vertices with a colour each, and the indices that group the
/// vertices into triangles, three at a time.
#[derive(Clone, Debug)]
pub struct Mesh {
    pub positions: Vec<Point>,
    pub indicies: Vec<u32>,
    pub colors: Vec<Color>,
    pub wireframe: bool,
}

/// The numbers `0, 1, .., n - 1`.
pub open spec fn counting(n: nat) -> Seq<u32> {
    Seq::new(n, |i: int| i as u32)
}

/// `n` times the colour `c`.
pub open spec fn uniform(n: nat, c: Color) -> Seq<Color> {
    Seq::new(n, |i: int| c)
}

/// The twelve edges of the box between the corners `p` and `q`, as twelve
/// pairs of end points.
pub open spec fn wireframe_points(p: Point, q: Point) -> Seq<Point> {
    seq![
        Point { x: p.x, y: p.y, z: p.z },
        Point { x: q.x, y: p.y, z: p.z },
        Point { x: p.x, y: p.y, z: p.z },
        Point { x: p.x, y: q.y, z: p.z },
        Point { x: p.x, y: p.y, z: p.z },
        Point { x: p.x, y: p.y, z: q.z },
        Point { x: q.x, y: p.y, z: p.z },
        Point { x: q.x, y: q.y, z: p.z },
        Point { x: q.x, y: p.y, z: p.z },
        Point { x: q.x, y: p.y, z: q.z },
        Point { x: p.x, y: q.y, z: p.z },
        Point { x: q.x, y: q.y, z: p.z },
        Point { x: p.x, y: q.y, z: p.z },
        Point { x: p.x, y: q.y, z: q.z },
        Point { x: p.x, y: p.y, z: q.z },
        Point { x: q.x, y: p.y, z: q.z },
        Point { x: p.x, y: p.y, z: q.z },
        Point { x: p.x, y: q.y, z: q.z },
        Point { x: q.x, y: q.y, z: q.z },
        Point { x: p.x, y: q.y, z: q.z },
        Point { x: q.x, y: q.y, z: q.z },
        Point { x: q.x, y: p.y, z: q.z },
        Point { x: q.x, y: q.y, z: q.z },
        Point { x: q.x, y: q.y, z: p.z },
    ]
}

/// The six faces of the box between the corners `p` and `q`, each as two
/// triangles: the faces at `p.z`, `q.z`, `p.x`, `q.x`, `q.y` and `p.y`, in
/// this order.
pub open spec fn cube_points(p: Point, q: Point) -> Seq<Point> {
    seq![
        Point { x: p.x, y: p.y, z: p.z },
        Point { x: q.x, y: p.y, z: p.z },
        Point { x: q.x, y: q.y, z: p.z },
        Point { x: p.x, y: p.y, z: p.z },
        Point { x: q.x, y: q.y, z: p.z },
        Point { x: p.x, y: q.y, z: p.z },
        Point { x: p.x, y: p.y, z: q.z },
        Point { x: q.x, y: p.y, z: q.z },
        Point { x: q.x, y: q.y, z: q.z },
        Point { x: p.x, y: p.y, z: q.z },
        Point { x: q.x, y: q.y, z: q.z },
        Point { x: p.x, y: q.y, z: q.z },
        Point { x: p.x, y: p.y, z: p.z },
        Point { x: p.x, y: q.y, z: p.z },
        Point { x: p.x, y: q.y, z: q.z },
        Point { x: p.x, y: p.y, z: p.z },
        Point { x: p.x, y: q.y, z: q.z },
        Point { x: p.x, y: p.y, z: q.z },
        Point { x: q.x, y: p.y, z: p.z },
        Point { x: q.x, y: q.y, z: p.z },
        Point { x: q.x, y: q.y, z: q.z },
        Point { x: q.x, y: p.y, z: p.z },
        Point { x: q.x, y: q.y, z: q.z },
        Point { x: q.x, y: p.y, z: q.z },
        Point { x: p.x, y: q.y, z: p.z },
        Point { x: q.x, y: q.y, z: p.z },
        Point { x: q.x, y: q.y, z: q.z },
        Point { x: p.x, y: q.y, z: p.z },
        Point { x: q.x, y: q.y, z: q.z },
        Point { x: p.x, y: q.y, z: q.z },
        Point { x: p.x, y: p.y, z: p.z },
        Point { x: q.x, y: p.y, z: p.z },
        Point { x: q.x, y: p.y, z: q.z },
        Point { x: p.x, y: p.y, z: p.z },
        Point { x: q.x, y: p.y, z: q.z },
        Point { x: p.x, y: p.y, z: q.z },
    ]
}

/// The three edges of each of the first `n` triangles of `s`, as pairs of
/// indices.
pub open spec fn triangle_edges(s: Seq<u32>, n: nat) -> Seq<u32>
    decreases n,
{
    if n == 0 {
        Seq::empty()
    } else {
        let a = s[3 * n - 3];
        let b = s[3 * n - 2];
        let c = s[3 * n - 1];
        triangle_edges(s, (n - 1) as nat) + seq![a, b, b, c, c, a]
    }
}

/// The indices to draw with: the whole triangles of `s` as they are, or, for
/// a wireframe, the edges of each.
pub open spec fn element_indices(s: Seq<u32>, wireframe: bool) -> Seq<u32> {
    if wireframe {
        triangle_edges(s, s.len() / 3)
    } else {
        s.take(3 * (s.len() as int / 3))
    }
}

/// The end points of the twelve edges of the box between `p` and `q`.
pub fn cube_wireframe_from_points(p: Point, q: Point) -> (v: Vec<Point>)
    ensures
        v@ == wireframe_points(p, q),
{
    let (x, y, z) = (p.x, p.y, p.z);
    let (width, height, length) = (q.x, q.y, q.z);
    let mut v: Vec<Point> = Vec::new();
    v.push(Point { x, y, z });
    v.push(Point { x: width, y, z });
    v.push(Point { x, y, z });
    v.push(Point { x, y: height, z });
    v.push(Point { x, y, z });
    v.push(Point { x, y, z: length });
    v.push(Point { x: width, y, z });
    v.push(Point { x: width, y: height, z });
    v.push(Point { x: width, y, z });
    v.push(Point { x: width, y, z: length });
    v.push(Point { x, y: height, z });
    v.push(Point { x: width, y: height, z });
    v.push(Point { x, y: height, z });
    v.push(Point { x, y: height, z: length });
    v.push(Point { x, y, z: length });
    v.push(Point { x: width, y, z: length });
    v.push(Point { x, y, z: length });
    v.push(Point { x, y: height, z: length });
    v.push(Point { x: width, y: height, z: length });
    v.push(Point { x, y: height, z: length });
    v.push(Point { x: width, y: height, z: length });
    v.push(Point { x: width, y, z: length });
    v.push(Point { x: width, y: height, z: length });
    v.push(Point { x: width, y: height, z });
    assert(v@ =~= wireframe_points(p, q));
    v
}

/// The vertices of the twelve triangles that cover the box between `p` and
/// `q`.
pub fn cube_verts_from_points(p: Point, q: Point) -> (v: Vec<Point>)
    ensures
        v@ == cube_points(p, q),
{
    let (x1, y1, z1) = (p.x, p.y, p.z);
    let (x2, y2, z2) = (q.x, q.y, q.z);
    let mut v: Vec<Point> = Vec::new();
    v.push(Point { x: x1, y: y1, z: z1 });
    v.push(Point { x: x2, y: y1, z: z1 });
    v.push(Point { x: x2, y: y2, z: z1 });
    v.push(Point { x: x1, y: y1, z: z1 });
    v.push(Point { x: x2, y: y2, z: z1 });
    v.push(Point { x: x1, y: y2, z: z1 });

    v.push(Point { x: x1, y: y1, z: z2 });
    v.push(Point { x: x2, y: y1, z: z2 });
    v.push(Point { x: x2, y: y2, z: z2 });
    v.push(Point { x: x1, y: y1, z: z2 });
    v.push(Point { x: x2, y: y2, z: z2 });
    v.push(Point { x: x1, y: y2, z: z2 });

    v.push(Point { x: x1, y: y1, z: z1 });
    v.push(Point { x: x1, y: y2, z: z1 });
    v.push(Point { x: x1, y: y2, z: z2 });
    v.push(Point { x: x1, y: y1, z: z1 });
    v.push(Point { x: x1, y: y2, z: z2 });
    v.push(Point { x: x1, y: y1, z: z2 });

    v.push(Point { x: x2, y: y1, z: z1 });
    v.push(Point { x: x2, y: y2, z: z1 });
    v.push(Point { x: x2, y: y2, z: z2 });
    v.push(Point { x: x2, y: y1, z: z1 });
    v.push(Point { x: x2, y: y2, z: z2 });
    v.push(Point { x: x2, y: y1, z: z2 });

    v.push(Point { x: x1, y: y2, z: z1 });
    v.push(Point { x: x2, y: y2, z: z1 });
    v.push(Point { x: x2, y: y2, z: z2 });
    v.push(Point { x: x1, y: y2, z: z1 });
    v.push(Point { x: x2, y: y2, z: z2 });
    v.push(Point { x: x1, y: y2, z: z2 });

    v.push(Point { x: x1, y: y1, z: z1 });
    v.push(Point { x: x2, y: y1, z: z1 });
    v.push(Point { x: x2, y: y1, z: z2 });
    v.push(Point { x: x1, y: y1, z: z1 });
    v.push(Point { x: x2, y: y1, z: z2 });
    v.push(Point { x: x1, y: y1, z: z2 });
    assert(v@ =~= cube_points(p, q));
    v
}

/// The numbers `0, 1, .., n - 1`.
pub fn sequential_indices(n: u32) -> (v: Vec<u32>)
    ensures
        v@ == counting(n as nat),
{
    let mut v: Vec<u32> = Vec::new();
    let mut i: u32 = 0;
    while i < n
        invariant
            i <= n,
            v@ == counting(i as nat),
        decreases n - i,
    {
        v.push(i);
        i = i + 1;
        assert(v@ =~= counting(i as nat));
    }
    v
}

/// `n` times the colour `c`.
pub fn uniform_colors(n: usize, c: Color) -> (v: Vec<Color>)
    ensures
        v@ == uniform(n as nat, c),
{
    let mut v: Vec<Color> = Vec::new();
    let mut i: usize = 0;
    while i < n
        invariant
            i <= n,
            v@ == uniform(i as nat, c),
        decreases n - i,
    {
        v.push(c);
        i = i + 1;
        assert(v@ =~= uniform(i as nat, c));
    }
    v
}

impl Mesh {
    /// A mesh of the given arrays.
    pub fn new(positions: Vec<Point>, indicies: Vec<u32>, wireframe: bool, colors: Vec<Color>) -> (m: Mesh)
        ensures
            m.positions == positions,
            m.indicies == indicies,
            m.colors == colors,
            m.wireframe == wireframe,
    {
        Mesh { positions, indicies, colors, wireframe }
    }

    /// The indices to hand to the renderer: the triangles of the mesh, or the
    /// edges of its triangles where it is a wireframe. Indices after the last
    /// whole triangle are left out.
    pub fn index_data(&self) -> (v: Vec<u32>)
        ensures
            v@ == element_indices(self.indicies@, self.wireframe),
    {
        let n = self.indicies.len() / 3;
        let mut v: Vec<u32> = Vec::new();
        let mut t: usize = 0;
        while t < n
            invariant
                t <= n,
                n == self.indicies.len() / 3,
                self.wireframe ==> v@ == triangle_edges(self.indicies@, t as nat),
                !self.wireframe ==> v@ == self.indicies@.take(3 * t),
            decreases n - t,
        {
            let a = self.indicies[3 * t];
            let b = self.indicies[3 * t + 1];
            let c = self.indicies[3 * t + 2];
            let ghost before = v@;
            if self.wireframe {
                v.push(a);
                v.push(b);
                v.push(b);
                v.push(c);
                v.push(c);
                v.push(a);
                assert(v@ =~= before + seq![a, b, b, c, c, a]);
            } else {
                v.push(a);
                v.push(b);
                v.push(c);
                assert(v@ =~= self.indicies@.take(3 * (t + 1)));
            }
            t = t + 1;
        }
        v
    }

    /// The colours to hand to the renderer: those of the vertices, or white
    /// for each vertex where the mesh is a wireframe.
    pub fn color_data(&self) -> (v: Vec<Color>)
        ensures
            v@ == if self.wireframe {
                uniform(self.colors@.len(), Color::spec_white())
            } else {
                self.colors@
            },
    {
        if self.wireframe {
            uniform_colors(self.colors.len(), Color::white())
        } else {
            let mut v: Vec<Color> = Vec::new();
            let mut i: usize = 0;
            while i < self.colors.len()
                invariant
                    i <= self.colors.len(),
                    v@ == self.colors@.take(i as int),
                decreases self.colors.len() - i,
            {
                v.push(self.colors[i]);
                i = i + 1;
                assert(v@ =~= self.colors@.take(i as int));
            }
            assert(self.colors@.take(i as int) =~= self.colors@);
            v
        }
    }
}

} // verus!
