//! The visible surface of a grid: the faces of its sand that border an empty
//! cell or the outside, and the triangles that draw them.

use crate::color::Color;
use crate::grid::{lemma_dimensions_bounded, Grid, GridView, MAX_CELLS};
use crate::mesh::{counting, sequential_indices, uniform, Mesh, Point};
use vstd::prelude::*;

verus! {

/// One of the six sides of a cell, named by the axis it faces along.
#[derive(Clone, Copy, Debug, PartialEq, Eq, Structural)]
pub enum Side {
    PosX,
    NegX,
    NegY,
    PosY,
    PosZ,
    NegZ,
}

/// One side of one cell.
#[derive(Clone, Copy, Debug, PartialEq, Eq, Structural)]
pub struct Face {
    pub x: usize,
    pub y: usize,
    pub z: usize,
    pub side: Side,
}

impl Side {
    /// The place of the side in the order in which a cell's faces are drawn.
    pub open spec fn rank(self) -> int {
        match self {
            Side::PosX => 0,
            Side::NegX => 1,
            Side::NegY => 2,
            Side::PosY => 3,
            Side::PosZ => 4,
            Side::NegZ => 5,
        }
    }

    /// The step along `x` to the cell across the side.
    pub open spec fn dx(self) -> int {
        match self {
            Side::PosX => 1,
            Side::NegX => -1,
            _ => 0,
        }
    }

    /// The step along `y` to the cell across the side.
    pub open spec fn dy(self) -> int {
        match self {
            Side::PosY => 1,
            Side::NegY => -1,
            _ => 0,
        }
    }

    /// The step along `z` to the cell across the side.
    pub open spec fn dz(self) -> int {
        match self {
            Side::PosZ => 1,
            Side::NegZ => -1,
            _ => 0,
        }
    }

    /// The step to the cell across the side.
    pub fn step(self) -> (d: (i32, i32, i32))
        ensures
            d.0 == self.dx(),
            d.1 == self.dy(),
            d.2 == self.dz(),
    {
        match self {
            Side::PosX => (1, 0, 0),
            Side::NegX => (-1, 0, 0),
            Side::NegY => (0, -1, 0),
            Side::PosY => (0, 1, 0),
            Side::PosZ => (0, 0, 1),
            Side::NegZ => (0, 0, -1),
        }
    }

    /// The side at place `k` of the drawing order.
    pub fn at_rank(k: usize) -> (side: Side)
        requires
            k < 6,
        ensures
            side == side_at(k as int),
    {
        if k == 0 {
            Side::PosX
        } else if k == 1 {
            Side::NegX
        } else if k == 2 {
            Side::NegY
        } else if k == 3 {
            Side::PosY
        } else if k == 4 {
            Side::PosZ
        } else {
            Side::NegZ
        }
    }
}

/// The side at place `k` of the drawing order.
pub open spec fn side_at(k: int) -> Side {
    if k == 0 {
        Side::PosX
    } else if k == 1 {
        Side::NegX
    } else if k == 2 {
        Side::NegY
    } else if k == 3 {
        Side::PosY
    } else if k == 4 {
        Side::PosZ
    } else {
        Side::NegZ
    }
}

/// Whether the cell `(x, y, z)` holds sand and the cell across `side` is
/// empty or outside the grid.
pub open spec fn is_exposed(g: GridView, x: int, y: int, z: int, side: Side) -> bool {
    &&& g.in_bounds(x, y, z)
    &&& g.at(x, y, z) is Some
    &&& (!g.in_bounds(x + side.dx(), y + side.dy(), z + side.dz()) || g.at(
        x + side.dx(),
        y + side.dy(),
        z + side.dz(),
    ) is None)
}

/// Whether the face `f` belongs to the surface of `g`.
pub open spec fn shows(g: GridView, f: Face) -> bool {
    is_exposed(g, f.x as int, f.y as int, f.z as int, f.side)
}

/// The exposed faces of the cell `(x, y, z)` among its first `n` sides.
pub open spec fn cell_faces(g: GridView, x: int, y: int, z: int, n: int) -> Seq<Face>
    decreases n,
{
    if n <= 0 {
        Seq::empty()
    } else if is_exposed(g, x, y, z, side_at(n - 1)) {
        cell_faces(g, x, y, z, n - 1).push(
            Face { x: x as usize, y: y as usize, z: z as usize, side: side_at(n - 1) },
        )
    } else {
        cell_faces(g, x, y, z, n - 1)
    }
}

/// The exposed faces of the lowest `n` cells of the column `(x, z)`.
pub open spec fn column_faces(g: GridView, x: int, z: int, n: int) -> Seq<Face>
    decreases n,
{
    if n <= 0 {
        Seq::empty()
    } else {
        column_faces(g, x, z, n - 1) + cell_faces(g, x, n - 1, z, 6)
    }
}

/// The exposed faces of the columns `z = 0` to `z = n - 1` of the slab `x`.
pub open spec fn slab_faces(g: GridView, x: int, n: int) -> Seq<Face>
    decreases n,
{
    if n <= 0 {
        Seq::empty()
    } else {
        slab_faces(g, x, n - 1) + column_faces(g, x, n - 1, g.height as int)
    }
}

/// The exposed faces of the slabs `x = 0` to `x = n - 1`.
pub open spec fn grid_faces(g: GridView, n: int) -> Seq<Face>
    decreases n,
{
    if n <= 0 {
        Seq::empty()
    } else {
        grid_faces(g, n - 1) + slab_faces(g, n - 1, g.length as int)
    }
}

/// The exposed faces of the grid, in the order in which they are drawn.
pub open spec fn surface(g: GridView) -> Seq<Face> {
    grid_faces(g, g.width as int)
}

/// A concatenation holds what either part holds.
pub proof fn lemma_concat_contains<A>(a: Seq<A>, b: Seq<A>, e: A)
    ensures
        (a + b).contains(e) <==> a.contains(e) || b.contains(e),
{
    let c = a + b;
    if c.contains(e) {
        let i = choose|i: int| 0 <= i < c.len() && c[i] == e;
        if i < a.len() {
            assert(a[i] == e);
        } else {
            assert(b[i - a.len()] == e);
        }
    }
    if a.contains(e) {
        let i = choose|i: int| 0 <= i < a.len() && a[i] == e;
        assert(c[i] == e);
    }
    if b.contains(e) {
        let i = choose|i: int| 0 <= i < b.len() && b[i] == e;
        assert(c[i + a.len()] == e);
    }
}

/// Two sequences without duplicates that share no entry concatenate to one
/// without duplicates.
pub proof fn lemma_concat_distinct<A>(a: Seq<A>, b: Seq<A>)
    requires
        a.no_duplicates(),
        b.no_duplicates(),
        forall|e: A| !(#[trigger] a.contains(e) && b.contains(e)),
    ensures
        (a + b).no_duplicates(),
{
    assert forall|i: int, j: int| 0 <= i < a.len() && 0 <= j < b.len() implies a[i] != b[j] by {
        assert(a.contains(a[i]));
        assert(b.contains(b[j]));
    }
    vstd::seq_lib::lemma_no_dup_in_concat(a, b);
}

/// The faces listed for a cell are its exposed faces, each once.
pub proof fn lemma_cell_faces(g: GridView, x: int, y: int, z: int, n: int)
    requires
        g.wf(),
        g.in_bounds(x, y, z),
        0 <= n <= 6,
    ensures
        forall|f: Face|
            #[trigger] cell_faces(g, x, y, z, n).contains(f) <==> f.x == x && f.y == y && f.z == z
                && f.side.rank() < n && shows(g, f),
        cell_faces(g, x, y, z, n).no_duplicates(),
        cell_faces(g, x, y, z, n).len() <= n,
    decreases n,
{
    lemma_dimensions_bounded(g);
    if n > 0 {
        lemma_cell_faces(g, x, y, z, n - 1);
        let prev = cell_faces(g, x, y, z, n - 1);
        let side = side_at(n - 1);
        let face = Face { x: x as usize, y: y as usize, z: z as usize, side };
        let part = if is_exposed(g, x, y, z, side) {
            seq![face]
        } else {
            Seq::<Face>::empty()
        };
        assert(cell_faces(g, x, y, z, n) =~= prev + part);
        assert(side.rank() == n - 1);
        assert forall|f: Face|
            #[trigger] cell_faces(g, x, y, z, n).contains(f) <==> f.x == x && f.y == y && f.z == z
                && f.side.rank() < n && shows(g, f) by {
            lemma_concat_contains(prev, part, f);
            if part.contains(f) {
                let i = choose|i: int| 0 <= i < part.len() && part[i] == f;
                assert(f == face);
            }
            if f.x == x && f.y == y && f.z == z && f.side.rank() == n - 1 && shows(g, f) {
                assert(f.side == side);
                assert(part[0] == f);
            }
        }
        assert forall|e: Face| !(#[trigger] prev.contains(e) && part.contains(e)) by {
            if part.contains(e) {
                let i = choose|i: int| 0 <= i < part.len() && part[i] == e;
                assert(e == face);
            }
        }
        lemma_concat_distinct(prev, part);
    }
}

/// An empty cell has no exposed face.
pub proof fn lemma_cell_faces_empty(g: GridView, x: int, y: int, z: int, n: int)
    requires
        g.at(x, y, z) is None,
    ensures
        cell_faces(g, x, y, z, n) == Seq::<Face>::empty(),
    decreases n,
{
    if n > 0 {
        lemma_cell_faces_empty(g, x, y, z, n - 1);
    }
}

/// The faces listed for a column are the exposed faces of its cells, each once.
pub proof fn lemma_column_faces(g: GridView, x: int, z: int, n: int)
    requires
        g.wf(),
        0 <= x < g.width,
        0 <= z < g.length,
        0 <= n <= g.height,
    ensures
        forall|f: Face| #[trigger] column_faces(g, x, z, n).contains(f) <==> f.x == x && f.z == z && f.y < n && shows(g, f),
        column_faces(g, x, z, n).no_duplicates(),
        column_faces(g, x, z, n).len() <= 6 * n,
    decreases n,
{
    if n > 0 {
        lemma_column_faces(g, x, z, n - 1);
        lemma_cell_faces(g, x, n - 1, z, 6);
        let prev = column_faces(g, x, z, n - 1);
        let part = cell_faces(g, x, n - 1, z, 6);
        assert forall|f: Face|
            #[trigger] column_faces(g, x, z, n).contains(f) <==> f.x == x && f.z == z && f.y < n && shows(g, f) by {
            lemma_concat_contains(prev, part, f);
        }
        lemma_concat_distinct(prev, part);
    }
}

/// The faces listed for a slab are the exposed faces of its cells, each once.
pub proof fn lemma_slab_faces(g: GridView, x: int, n: int)
    requires
        g.wf(),
        0 <= x < g.width,
        0 <= n <= g.length,
    ensures
        forall|f: Face| #[trigger] slab_faces(g, x, n).contains(f) <==> f.x == x && f.z < n && shows(g, f),
        slab_faces(g, x, n).no_duplicates(),
        slab_faces(g, x, n).len() <= 6 * g.height * n,
    decreases n,
{
    if n > 0 {
        lemma_slab_faces(g, x, n - 1);
        lemma_column_faces(g, x, n - 1, g.height as int);
        let prev = slab_faces(g, x, n - 1);
        let part = column_faces(g, x, n - 1, g.height as int);
        assert forall|f: Face| #[trigger] slab_faces(g, x, n).contains(f) <==> f.x == x && f.z < n && shows(g, f) by {
            lemma_concat_contains(prev, part, f);
        }
        lemma_concat_distinct(prev, part);
        let h = g.height as int;
        assert(6 * h * (n - 1) + 6 * h == 6 * h * n) by (nonlinear_arith);
    }
}

/// The faces listed for the first slabs are the exposed faces of their cells,
/// each once.
pub proof fn lemma_grid_faces(g: GridView, n: int)
    requires
        g.wf(),
        0 <= n <= g.width,
    ensures
        forall|f: Face| #[trigger] grid_faces(g, n).contains(f) <==> f.x < n && shows(g, f),
        grid_faces(g, n).no_duplicates(),
        grid_faces(g, n).len() <= 6 * g.height * g.length * n,
    decreases n,
{
    if n > 0 {
        lemma_grid_faces(g, n - 1);
        lemma_slab_faces(g, n - 1, g.length as int);
        let prev = grid_faces(g, n - 1);
        let part = slab_faces(g, n - 1, g.length as int);
        assert forall|f: Face| #[trigger] grid_faces(g, n).contains(f) <==> f.x < n && shows(g, f) by {
            lemma_concat_contains(prev, part, f);
        }
        lemma_concat_distinct(prev, part);
        let h = g.height as int;
        let l = g.length as int;
        assert(6 * h * l * (n - 1) + 6 * h * l == 6 * h * l * n) by (nonlinear_arith);
    }
}

/// The surface holds a face exactly when the face's cell holds sand and the
/// cell across the face is empty or outside the grid, and it holds no face
/// twice. It has at most six faces for each cell.
pub proof fn lemma_surface(g: GridView)
    requires
        g.wf(),
    ensures
        forall|f: Face| #[trigger] surface(g).contains(f) <==> shows(g, f),
        surface(g).no_duplicates(),
        surface(g).len() <= 6 * g.cells.len(),
{
    lemma_grid_faces(g, g.width as int);
    let w = g.width as int;
    let h = g.height as int;
    let l = g.length as int;
    assert(6 * h * l * w == 6 * (w * h * l)) by (nonlinear_arith);
}

/// The lattice point `(x, y, z)`.
pub open spec fn point(x: int, y: int, z: int) -> Point {
    Point { x: x as u32, y: y as u32, z: z as u32 }
}

/// The two triangles that draw the face `f`: six corners of its cell.
pub open spec fn face_corners(f: Face) -> Seq<Point> {
    let x = f.x as int;
    let y = f.y as int;
    let z = f.z as int;
    match f.side {
        Side::PosX => seq![
            point(x + 1, y, z),
            point(x + 1, y + 1, z),
            point(x + 1, y, z + 1),
            point(x + 1, y + 1, z),
            point(x + 1, y + 1, z + 1),
            point(x + 1, y, z + 1),
        ],
        Side::NegX => seq![
            point(x, y, z),
            point(x, y + 1, z),
            point(x, y, z + 1),
            point(x, y + 1, z),
            point(x, y + 1, z + 1),
            point(x, y, z + 1),
        ],
        Side::NegY => seq![
            point(x, y, z),
            point(x + 1, y, z),
            point(x, y, z + 1),
            point(x + 1, y, z),
            point(x + 1, y, z + 1),
            point(x, y, z + 1),
        ],
        Side::PosY => seq![
            point(x, y + 1, z),
            point(x + 1, y + 1, z),
            point(x, y + 1, z + 1),
            point(x + 1, y + 1, z),
            point(x + 1, y + 1, z + 1),
            point(x, y + 1, z + 1),
        ],
        Side::PosZ => seq![
            point(x, y, z + 1),
            point(x, y + 1, z + 1),
            point(x + 1, y, z + 1),
            point(x, y + 1, z + 1),
            point(x + 1, y + 1, z + 1),
            point(x + 1, y, z + 1),
        ],
        Side::NegZ => seq![
            point(x, y, z),
            point(x, y + 1, z),
            point(x + 1, y, z),
            point(x, y + 1, z),
            point(x + 1, y + 1, z),
            point(x + 1, y, z),
        ],
    }
}

/// The colour of what the cell holds; black for an empty cell.
pub open spec fn shade_of(g: GridView, x: int, y: int, z: int) -> Color {
    match g.at(x, y, z) {
        Some(c) => c,
        None => Color::spec_black(),
    }
}

/// The vertices that draw `faces`: six for each, face after face.
pub open spec fn positions_of(faces: Seq<Face>) -> Seq<Point>
    decreases faces.len(),
{
    if faces.len() == 0 {
        Seq::empty()
    } else {
        positions_of(faces.drop_last()) + face_corners(faces.last())
    }
}

/// The colours of the vertices that draw `faces`: for each face six times
/// the colour of its cell.
pub open spec fn colors_of(g: GridView, faces: Seq<Face>) -> Seq<Color>
    decreases faces.len(),
{
    if faces.len() == 0 {
        Seq::empty()
    } else {
        let f = faces.last();
        colors_of(g, faces.drop_last()) + uniform(6, shade_of(g, f.x as int, f.y as int, f.z as int))
    }
}

/// The vertices `6 * i` to `6 * i + 5` draw the face `i`, in the colour of
/// its cell.
pub proof fn lemma_vertex_at(g: GridView, faces: Seq<Face>, i: int, k: int)
    requires
        0 <= i < faces.len(),
        0 <= k < 6,
    ensures
        6 * i + k < positions_of(faces).len(),
        positions_of(faces)[6 * i + k] == face_corners(faces[i])[k],
        colors_of(g, faces)[6 * i + k] == shade_of(g, faces[i].x as int, faces[i].y as int, faces[i].z as int),
    decreases faces.len(),
{
    lemma_vertex_count(g, faces);
    lemma_vertex_count(g, faces.drop_last());
    if i < faces.len() - 1 {
        lemma_vertex_at(g, faces.drop_last(), i, k);
    }
}

/// There are six vertices and six colours for each face.
pub proof fn lemma_vertex_count(g: GridView, faces: Seq<Face>)
    ensures
        positions_of(faces).len() == 6 * faces.len(),
        colors_of(g, faces).len() == 6 * faces.len(),
    decreases faces.len(),
{
    if faces.len() > 0 {
        lemma_vertex_count(g, faces.drop_last());
    }
}

/// Whether `mesh` draws the surface of `g` in filled triangles.
pub open spec fn is_surface_mesh(g: GridView, mesh: Mesh) -> bool {
    &&& mesh.positions@ == positions_of(surface(g))
    &&& mesh.colors@ == colors_of(g, surface(g))
    &&& mesh.indicies@ == counting(6 * surface(g).len())
}

/// Whether the cell `(x, y, z)` holds sand and shows its `side`.
pub fn is_face_exposed(grid: &Grid, x: usize, y: usize, z: usize, side: Side) -> (b: bool)
    requires
        grid.wf(),
        grid@.in_bounds(x as int, y as int, z as int),
    ensures
        b == is_exposed(grid@, x as int, y as int, z as int, side),
{
    if grid.get(x, y, z).is_none() {
        return false;
    }
    let d = side.step();
    match grid.neighbor(x, y, z, d.0, d.1, d.2) {
        Some((nx, ny, nz)) => grid.get(nx, ny, nz).is_none(),
        None => true,
    }
}

/// Appends the exposed faces of the cell `(x, y, z)` to `faces`.
fn push_cell_faces(grid: &Grid, x: usize, y: usize, z: usize, faces: &mut Vec<Face>)
    requires
        grid.wf(),
        grid@.in_bounds(x as int, y as int, z as int),
    ensures
        final(faces)@ == old(faces)@ + cell_faces(grid@, x as int, y as int, z as int, 6),
{
    if grid.get(x, y, z).is_none() {
        proof {
            lemma_cell_faces_empty(grid@, x as int, y as int, z as int, 6);
            assert(faces@ =~= faces@ + Seq::<Face>::empty());
        }
        return ;
    }
    let ghost start = faces@;
    let mut k: usize = 0;
    while k < 6
        invariant
            0 <= k <= 6,
            grid.wf(),
            grid@.in_bounds(x as int, y as int, z as int),
            faces@ == start + cell_faces(grid@, x as int, y as int, z as int, k as int),
        decreases 6 - k,
    {
        let side = Side::at_rank(k);
        let ghost before = cell_faces(grid@, x as int, y as int, z as int, k as int);
        if is_face_exposed(grid, x, y, z, side) {
            faces.push(Face { x, y, z, side });
            assert(faces@ =~= start + before.push(Face { x, y, z, side }));
        }
        k = k + 1;
    }
}

/// The exposed faces of the grid: for each cell that holds sand, each side
/// across which lies an empty cell or the outside. The faces come slab by
/// slab along `x`, column by column along `z`, from the lowest cell up, and
/// for each cell in the order of `Side`.
pub fn exposed_faces(grid: &Grid) -> (faces: Vec<Face>)
    requires
        grid.wf(),
    ensures
        faces@ == surface(grid@),
        forall|f: Face| #[trigger] faces@.contains(f) <==> shows(grid@, f),
        faces@.no_duplicates(),
        faces@.len() <= 6 * grid@.cells.len(),
{
    let width = grid.width();
    let height = grid.height();
    let length = grid.length();
    let mut faces: Vec<Face> = Vec::new();
    let mut x: usize = 0;
    while x < width
        invariant
            0 <= x <= width,
            grid.wf(),
            width == grid@.width,
            height == grid@.height,
            length == grid@.length,
            faces@ == grid_faces(grid@, x as int),
        decreases width - x,
    {
        let ghost slabs = faces@;
        let mut z: usize = 0;
        while z < length
            invariant
                0 <= z <= length,
                0 <= x < width,
                grid.wf(),
                width == grid@.width,
                height == grid@.height,
                length == grid@.length,
                slabs == grid_faces(grid@, x as int),
                faces@ == slabs + slab_faces(grid@, x as int, z as int),
            decreases length - z,
        {
            let ghost columns = slab_faces(grid@, x as int, z as int);
            let mut y: usize = 0;
            while y < height
                invariant
                    0 <= y <= height,
                    0 <= z < length,
                    0 <= x < width,
                    grid.wf(),
                    width == grid@.width,
                    height == grid@.height,
                    length == grid@.length,
                    columns == slab_faces(grid@, x as int, z as int),
                    faces@ == slabs + columns + column_faces(grid@, x as int, z as int, y as int),
                decreases height - y,
            {
                let ghost cells = column_faces(grid@, x as int, z as int, y as int);
                push_cell_faces(grid, x, y, z, &mut faces);
                assert(faces@ =~= slabs + columns + (cells + cell_faces(grid@, x as int, y as int, z as int, 6)));
                y = y + 1;
            }
            assert(faces@ =~= slabs + (columns + column_faces(grid@, x as int, z as int, height as int)));
            z = z + 1;
        }
        x = x + 1;
    }
    proof {
        lemma_surface(grid@);
    }
    faces
}

/// The six vertices that draw one face.
fn corners(f: Face) -> (v: [Point; 6])
    requires
        f.x < MAX_CELLS,
        f.y < MAX_CELLS,
        f.z < MAX_CELLS,
    ensures
        v@ == face_corners(f),
{
    let x = f.x as u32;
    let y = f.y as u32;
    let z = f.z as u32;
    let v = match f.side {
        Side::PosX => [
            Point { x: x + 1, y, z },
            Point { x: x + 1, y: y + 1, z },
            Point { x: x + 1, y, z: z + 1 },
            Point { x: x + 1, y: y + 1, z },
            Point { x: x + 1, y: y + 1, z: z + 1 },
            Point { x: x + 1, y, z: z + 1 },
        ],
        Side::NegX => [
            Point { x, y, z },
            Point { x, y: y + 1, z },
            Point { x, y, z: z + 1 },
            Point { x, y: y + 1, z },
            Point { x, y: y + 1, z: z + 1 },
            Point { x, y, z: z + 1 },
        ],
        Side::NegY => [
            Point { x, y, z },
            Point { x: x + 1, y, z },
            Point { x, y, z: z + 1 },
            Point { x: x + 1, y, z },
            Point { x: x + 1, y, z: z + 1 },
            Point { x, y, z: z + 1 },
        ],
        Side::PosY => [
            Point { x, y: y + 1, z },
            Point { x: x + 1, y: y + 1, z },
            Point { x, y: y + 1, z: z + 1 },
            Point { x: x + 1, y: y + 1, z },
            Point { x: x + 1, y: y + 1, z: z + 1 },
            Point { x, y: y + 1, z: z + 1 },
        ],
        Side::PosZ => [
            Point { x, y, z: z + 1 },
            Point { x, y: y + 1, z: z + 1 },
            Point { x: x + 1, y, z: z + 1 },
            Point { x, y: y + 1, z: z + 1 },
            Point { x: x + 1, y: y + 1, z: z + 1 },
            Point { x: x + 1, y, z: z + 1 },
        ],
        Side::NegZ => [
            Point { x, y, z },
            Point { x, y: y + 1, z },
            Point { x: x + 1, y, z },
            Point { x, y: y + 1, z },
            Point { x: x + 1, y: y + 1, z },
            Point { x: x + 1, y, z },
        ],
    };
    assert(v@ =~= face_corners(f));
    v
}

/// The triangles that draw the surface of the grid: two for each exposed
/// face, in the colour of the face's cell, with a vertex of its own for each
/// corner of each triangle.
pub fn surface_mesh(grid: &Grid, wireframe: bool) -> (mesh: Mesh)
    requires
        grid.wf(),
    ensures
        is_surface_mesh(grid@, mesh),
        mesh.wireframe == wireframe,
        mesh.positions@.len() == 6 * surface(grid@).len(),
        mesh.colors@.len() == mesh.positions@.len(),
        mesh.indicies@.len() == mesh.positions@.len(),
        mesh.indicies@.len() % 3 == 0,
{
    let faces = exposed_faces(grid);
    let mut positions: Vec<Point> = Vec::new();
    let mut colors: Vec<Color> = Vec::new();
    proof {
        lemma_dimensions_bounded(grid@);
    }
    let mut i: usize = 0;
    while i < faces.len()
        invariant
            0 <= i <= faces.len(),
            grid.wf(),
            grid@.width <= MAX_CELLS,
            grid@.height <= MAX_CELLS,
            grid@.length <= MAX_CELLS,
            forall|f: Face| #[trigger] faces@.contains(f) ==> shows(grid@, f),
            positions@ == positions_of(faces@.take(i as int)),
            colors@ == colors_of(grid@, faces@.take(i as int)),
        decreases faces.len() - i,
    {
        let f = faces[i];
        assert(faces@.contains(f));
        assert(faces@.take(i + 1).drop_last() =~= faces@.take(i as int));
        let v = corners(f);
        let c = match grid.get(f.x, f.y, f.z) {
            Some(c) => c,
            None => Color::black(),
        };
        let ghost before_positions = positions@;
        let ghost before_colors = colors@;
        let mut k: usize = 0;
        while k < 6
            invariant
                0 <= k <= 6,
                v@ == face_corners(f),
                positions@ == before_positions + v@.take(k as int),
                colors@ == before_colors + uniform(k as nat, c),
            decreases 6 - k,
        {
            positions.push(v[k]);
            colors.push(c);
            k = k + 1;
            assert(positions@ =~= before_positions + v@.take(k as int));
            assert(colors@ =~= before_colors + uniform(k as nat, c));
        }
        assert(v@.take(6) =~= v@);
        i = i + 1;
    }
    assert(faces@.take(i as int) =~= faces@);
    proof {
        lemma_vertex_count(grid@, faces@);
    }
    let n: usize = 6 * faces.len();
    let indicies = sequential_indices(n as u32);
    Mesh::new(positions, indicies, wireframe, colors)
}

} // verus!
