//! The sand box as a whole: the grid, the mesh that draws it, and what a
//! frame does with them.

use crate::color::{palette, random_color, sand_colors, Color};
use crate::grid::{lemma_dimensions_bounded, lemma_set, Cell, Grid, GridView, MAX_CELLS};
use crate::laws::moved_at_most_once;
use crate::mesh::{
    counting, cube_wireframe_from_points, sequential_indices, uniform, uniform_colors, wireframe_points, Mesh,
    Point,
};
use crate::pick::{
    all_missed, column_entries, entries, highlight_mesh, is_highlight, is_nearest, nearest_hit, slab_entry,
    slab_test, Slabs,
};
use crate::sim::is_tick;
use crate::surface::{is_surface_mesh, surface_mesh};
use vstd::prelude::*;

verus! {

/// A grid of sand together with the mesh of its surface. The mesh is built
/// anew by `update` whenever the grid has changed since it was last built.
pub struct VoxelManager {
    grid: Grid,
    mesh: Mesh,
    stale: bool,
}

/// Whether the column `(a, c)` lies under a brush centred on the column
/// `(x, z)`: at most two columns away along each axis, the four corners of
/// that square left out.
pub open spec fn in_brush(x: int, z: int, a: int, c: int) -> bool {
    &&& -2 <= a - x <= 2
    &&& -2 <= c - z <= 2
    &&& !((a - x == 2 || a - x == -2) && (c - z == 2 || c - z == -2))
}

/// Whether `after` is `before` with sand of the palette in every cell of the
/// top layer that lies under a brush centred on `(x, z)`.
pub open spec fn is_brushed(before: GridView, after: GridView, x: int, z: int) -> bool {
    &&& after.same_shape(before)
    &&& forall|a: int, b: int, c: int| #[trigger]
        before.in_bounds(a, b, c) ==> if b == before.height - 1 && in_brush(x, z, a, c) {
            after.at(a, b, c) is Some && palette().contains(after.at(a, b, c)->0)
        } else {
            after.at(a, b, c) == before.at(a, b, c)
        }
}

impl View for VoxelManager {
    type V = GridView;

    closed spec fn view(&self) -> GridView {
        self.grid@
    }
}

impl VoxelManager {
    /// The mesh that draws the sand.
    pub closed spec fn mesh_view(&self) -> Mesh {
        self.mesh
    }

    /// Whether the grid has changed since the mesh was built.
    pub closed spec fn is_stale(&self) -> bool {
        self.stale
    }

    /// The grid is well formed, and the mesh draws its surface unless the
    /// grid has changed since.
    pub open spec fn wf(&self) -> bool {
        &&& self@.wf()
        &&& !self.mesh_view().wireframe
        &&& !self.is_stale() ==> is_surface_mesh(self@, self.mesh_view())
    }

    /// The sand palette.
    pub fn colors() -> (v: Vec<Color>)
        ensures
            v@ == palette(),
    {
        sand_colors()
    }

    /// An empty sand box of the given dimensions.
    pub fn new(length: usize, width: usize, height: usize) -> (m: VoxelManager)
        requires
            width > 0,
            height > 0,
            length > 0,
            width * height * length <= MAX_CELLS,
        ensures
            m.wf(),
            !m.is_stale(),
            m@.width == width,
            m@.height == height,
            m@.length == length,
            m@.is_empty(),
    {
        let grid = Grid::new(width, height, length);
        let mesh = surface_mesh(&grid, false);
        VoxelManager { grid, mesh, stale: false }
    }

    /// The grid.
    pub fn grid(&self) -> (g: &Grid)
        ensures
            g@ == self@,
    {
        &self.grid
    }

    /// The mesh that draws the sand.
    pub fn mesh(&self) -> (m: &Mesh)
        ensures
            *m == self.mesh_view(),
    {
        &self.mesh
    }

    /// The extent along `x`.
    pub fn width(&self) -> (w: usize)
        ensures
            w == self@.width,
    {
        self.grid.width()
    }

    /// The extent along `y`, the vertical.
    pub fn height(&self) -> (h: usize)
        ensures
            h == self@.height,
    {
        self.grid.height()
    }

    /// The extent along `z`.
    pub fn length(&self) -> (l: usize)
        ensures
            l == self@.length,
    {
        self.grid.length()
    }

    /// What the cell `(x, y, z)` holds.
    pub fn get(&self, x: usize, y: usize, z: usize) -> (state: Cell)
        requires
            self.wf(),
            self@.in_bounds(x as int, y as int, z as int),
        ensures
            state == self@.at(x as int, y as int, z as int),
    {
        self.grid.get(x, y, z)
    }

    /// Makes the cell `(x, y, z)` hold `state`.
    pub fn set(&mut self, x: usize, y: usize, z: usize, state: Cell)
        requires
            old(self).wf(),
            old(self)@.in_bounds(x as int, y as int, z as int),
        ensures
            final(self).wf(),
            final(self)@ == old(self)@.set(x as int, y as int, z as int, state),
    {
        self.stale = true;
        self.grid.set(x, y, z, state);
    }

    /// Puts sand of the given colour into the top cell of the column `(x, z)`.
    pub fn paint(&mut self, x: usize, z: usize, color: Color)
        requires
            old(self).wf(),
            x < old(self)@.width,
            z < old(self)@.length,
        ensures
            final(self).wf(),
            final(self)@ == old(self)@.set(x as int, old(self)@.height - 1, z as int, Some(color)),
    {
        let top = self.grid.height() - 1;
        self.set(x, top, z, Some(color));
    }

    /// Puts sand into the top cell of every column under a brush centred on
    /// the column `(x, z)`, each in a colour of the palette picked at random.
    pub fn paint_brush(&mut self, x: usize, z: usize)
        requires
            old(self).wf(),
            x < old(self)@.width,
            z < old(self)@.length,
        ensures
            final(self).wf(),
            is_brushed(old(self)@, final(self)@, x as int, z as int),
    {
        let colors = VoxelManager::colors();
        let top = self.grid.height() - 1;
        let ghost start = self@;
        let mut dx: i32 = -2;
        while dx <= 2
            invariant
                -2 <= dx <= 3,
                self.wf(),
                self@.same_shape(start),
                start.wf(),
                top == start.height - 1,
                x < start.width,
                z < start.length,
                colors@ == palette(),
                forall|a: int, b: int, c: int| #[trigger]
                    start.in_bounds(a, b, c) ==> if b == top && in_brush(x as int, z as int, a, c) && a - x < dx {
                        self@.at(a, b, c) is Some && palette().contains(self@.at(a, b, c)->0)
                    } else {
                        self@.at(a, b, c) == start.at(a, b, c)
                    },
            decreases 3 - dx,
        {
            let mut dz: i32 = -2;
            while dz <= 2
                invariant
                    -2 <= dx <= 2,
                    -2 <= dz <= 3,
                    self.wf(),
                    self@.same_shape(start),
                    start.wf(),
                    top == start.height - 1,
                    x < start.width,
                    z < start.length,
                    colors@ == palette(),
                    forall|a: int, b: int, c: int| #[trigger]
                        start.in_bounds(a, b, c) ==> if b == top && in_brush(x as int, z as int, a, c) && (a - x
                            < dx || (a - x == dx && c - z < dz)) {
                            self@.at(a, b, c) is Some && palette().contains(self@.at(a, b, c)->0)
                        } else {
                            self@.at(a, b, c) == start.at(a, b, c)
                        },
                decreases 3 - dz,
            {
                let corner = (dx == 2 || dx == -2) && (dz == 2 || dz == -2);
                if !corner {
                    match self.grid.neighbor(x, top, z, dx, 0, dz) {
                        Some((tx, ty, tz)) => {
                            let color = random_color(&colors);
                            proof {
                                lemma_set(self@, tx as int, ty as int, tz as int, Some(color));
                            }
                            self.set(tx, ty, tz, Some(color));
                        },
                        None => {},
                    }
                }
                dz = dz + 1;
            }
            dx = dx + 1;
        }
    }

    /// Advances the sand by one tick and, where the grid has changed since
    /// the mesh was built, builds the mesh anew. Says whether the tick moved
    /// any sand.
    pub fn update(&mut self) -> (changed: bool)
        requires
            old(self).wf(),
        ensures
            final(self).wf(),
            !final(self).is_stale(),
            is_tick(old(self)@, final(self)@),
            final(self)@.same_shape(old(self)@),
            final(self)@.occupied() == old(self)@.occupied(),
            moved_at_most_once(old(self)@, final(self)@),
            changed == (final(self)@ != old(self)@),
            !changed && !old(self).is_stale() ==> final(self).mesh_view() == old(self).mesh_view(),
    {
        let changed = self.grid.step();
        if changed || self.stale {
            self.stale = true;
            self.mesh = surface_mesh(&self.grid, false);
            self.stale = false;
        }
        changed
    }

    /// The twelve edges of the box that the grid fills, in white.
    pub fn get_bounding_box(&self) -> (mesh: Mesh)
        requires
            self.wf(),
        ensures
            mesh.positions@ == wireframe_points(
                Point { x: 0, y: 0, z: 0 },
                Point { x: self@.width as u32, y: self@.height as u32, z: self@.length as u32 },
            ),
            mesh.indicies@ == counting(24),
            mesh.colors@ == uniform(24, Color::spec_white()),
            !mesh.wireframe,
    {
        proof {
            lemma_dimensions_bounded(self@);
        }
        let far = Point {
            x: self.grid.width() as u32,
            y: self.grid.height() as u32,
            z: self.grid.length() as u32,
        };
        let positions = cube_wireframe_from_points(Point { x: 0, y: 0, z: 0 }, far);
        Mesh::new(positions, sequential_indices(24), false, uniform_colors(24, Color::white()))
    }

    /// The slab test: the distance at which a ray with the given spans enters
    /// a box, if it hits the box between the two limits.
    pub fn ray_box_intersection(&self, s: Slabs, entry_limit: i64, exit_limit: i64) -> (hit: Option<i64>)
        ensures
            hit == slab_entry(s, entry_limit, exit_limit),
    {
        slab_test(s, entry_limit, exit_limit)
    }

    /// The column that a pointer ray targets, and the white box that marks
    /// its top cell. `slabs` gives for each column, slab by slab, the spans of
    /// the ray in the box of the column's top cell. The target is the column
    /// whose box the ray enters first between the two limits.
    pub fn get_ghost_mesh(&self, slabs: &Vec<Slabs>, entry_limit: i64, exit_limit: i64) -> (r: (
        Option<Mesh>,
        Option<(usize, usize)>,
    ))
        requires
            self.wf(),
            slabs.len() == self@.width * self@.length,
        ensures
            match r.1 {
                Some((x, z)) => {
                    &&& x < self@.width
                    &&& z < self@.length
                    &&& is_nearest(entries(slabs@, entry_limit, exit_limit), x * self@.length + z)
                    &&& r.0 is Some
                    &&& is_highlight(r.0->0, x as int, self@.height - 1, z as int)
                },
                None => r.0 is None && all_missed(entries(slabs@, entry_limit, exit_limit)),
            },
    {
        let depths = column_entries(slabs, entry_limit, exit_limit);
        match nearest_hit(&depths) {
            Some(k) => {
                let length = self.grid.length();
                let x = k / length;
                let z = k % length;
                proof {
                    lemma_dimensions_bounded(self@);
                    let w = self@.width as int;
                    let l = self@.length as int;
                    vstd::arithmetic::div_mod::lemma_fundamental_div_mod(k as int, l);
                    assert(x * l == l * x) by (nonlinear_arith);
                    assert(x < w) by (nonlinear_arith)
                        requires
                            x * l + z == k,
                            0 <= z,
                            k < w * l,
                            0 < l,
                    ;
                }
                let top = self.grid.height() - 1;
                (Some(highlight_mesh(x as u32, top as u32, z as u32)), Some((x, z)))
            },
            None => (None, None),
        }
    }
}

} // verus!
