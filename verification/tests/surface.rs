use voxel_sand::color::Color;
use voxel_sand::grid::Grid;
use voxel_sand::mesh::{cube_verts_from_points, cube_wireframe_from_points, sequential_indices, Mesh, Point};
use voxel_sand::surface::{exposed_faces, is_face_exposed, surface_mesh, Face, Side};

const SAND: Color = Color { r: 0xff, g: 0xe0, b: 0xab, a: 255 };
const DARK: Color = Color { r: 0xd6, g: 0xb5, b: 0x88, a: 255 };

fn p(x: u32, y: u32, z: u32) -> Point {
    Point { x, y, z }
}

const SIDES: [(Side, (i64, i64, i64)); 6] = [
    (Side::PosX, (1, 0, 0)),
    (Side::NegX, (-1, 0, 0)),
    (Side::NegY, (0, -1, 0)),
    (Side::PosY, (0, 1, 0)),
    (Side::PosZ, (0, 0, 1)),
    (Side::NegZ, (0, 0, -1)),
];

fn occupied(grid: &Grid, x: i64, y: i64, z: i64) -> bool {
    x >= 0
        && y >= 0
        && z >= 0
        && grid.contains(x as usize, y as usize, z as usize)
        && grid.get(x as usize, y as usize, z as usize).is_some()
}

#[test]
fn an_empty_grid_has_no_surface() {
    let grid = Grid::new(3, 3, 3);
    assert!(exposed_faces(&grid).is_empty());
    let mesh = surface_mesh(&grid, false);
    assert!(mesh.positions.is_empty());
    assert!(mesh.indicies.is_empty());
    assert!(mesh.colors.is_empty());
}

#[test]
fn a_lone_cell_shows_six_faces() {
    let mut grid = Grid::new(3, 3, 3);
    grid.set(1, 1, 1, Some(SAND));
    let faces = exposed_faces(&grid);
    let expected: Vec<Face> = [Side::PosX, Side::NegX, Side::NegY, Side::PosY, Side::PosZ, Side::NegZ]
        .iter()
        .map(|s| Face { x: 1, y: 1, z: 1, side: *s })
        .collect();
    assert_eq!(faces, expected);
}

#[test]
fn a_lone_cell_is_drawn_corner_by_corner() {
    let mut grid = Grid::new(3, 3, 3);
    grid.set(1, 1, 1, Some(SAND));
    let mesh = surface_mesh(&grid, false);
    let expected = vec![
        p(2, 1, 1), p(2, 2, 1), p(2, 1, 2), p(2, 2, 1), p(2, 2, 2), p(2, 1, 2),
        p(1, 1, 1), p(1, 2, 1), p(1, 1, 2), p(1, 2, 1), p(1, 2, 2), p(1, 1, 2),
        p(1, 1, 1), p(2, 1, 1), p(1, 1, 2), p(2, 1, 1), p(2, 1, 2), p(1, 1, 2),
        p(1, 2, 1), p(2, 2, 1), p(1, 2, 2), p(2, 2, 1), p(2, 2, 2), p(1, 2, 2),
        p(1, 1, 2), p(1, 2, 2), p(2, 1, 2), p(1, 2, 2), p(2, 2, 2), p(2, 1, 2),
        p(1, 1, 1), p(1, 2, 1), p(2, 1, 1), p(1, 2, 1), p(2, 2, 1), p(2, 1, 1),
    ];
    assert_eq!(mesh.positions, expected);
    assert_eq!(mesh.indicies, (0..36).collect::<Vec<u32>>());
    assert_eq!(mesh.colors, vec![SAND; 36]);
    assert!(!mesh.wireframe);
}

#[test]
fn the_face_between_two_cells_is_not_drawn() {
    let mut grid = Grid::new(3, 3, 3);
    grid.set(0, 0, 0, Some(SAND));
    grid.set(1, 0, 0, Some(DARK));
    let faces = exposed_faces(&grid);
    assert_eq!(faces.len(), 10);
    assert!(!faces.contains(&Face { x: 0, y: 0, z: 0, side: Side::PosX }));
    assert!(!faces.contains(&Face { x: 1, y: 0, z: 0, side: Side::NegX }));
    assert!(faces.contains(&Face { x: 0, y: 0, z: 0, side: Side::NegX }));
    assert!(faces.contains(&Face { x: 0, y: 0, z: 0, side: Side::NegY }));
    assert!(faces.contains(&Face { x: 1, y: 0, z: 0, side: Side::PosX }));
    let mesh = surface_mesh(&grid, false);
    assert_eq!(mesh.positions.len(), 60);
    assert_eq!(mesh.indicies.len(), 60);
    assert_eq!(&mesh.colors[..30], &vec![SAND; 30][..]);
    assert_eq!(&mesh.colors[30..], &vec![DARK; 30][..]);
}

#[test]
fn a_full_grid_shows_its_hull_only() {
    let mut grid = Grid::new(3, 4, 5);
    for x in 0..3 {
        for y in 0..4 {
            for z in 0..5 {
                grid.set(x, y, z, Some(SAND));
            }
        }
    }
    let faces = exposed_faces(&grid);
    assert_eq!(faces.len(), 2 * (3 * 4 + 4 * 5 + 3 * 5));
    assert_eq!(surface_mesh(&grid, false).positions.len(), 6 * faces.len());
}

#[test]
fn every_exposed_face_is_listed_once_and_no_other() {
    let mut grid = Grid::new(4, 4, 4);
    for x in 0..4 {
        for y in 0..4 {
            for z in 0..4 {
                if (x * 5 + y * 3 + z * 7) % 3 == 0 {
                    grid.set(x, y, z, Some(SAND));
                }
            }
        }
    }
    let faces = exposed_faces(&grid);
    for x in 0..4usize {
        for y in 0..4usize {
            for z in 0..4usize {
                for (side, (dx, dy, dz)) in SIDES {
                    let shown = grid.get(x, y, z).is_some()
                        && !occupied(&grid, x as i64 + dx, y as i64 + dy, z as i64 + dz);
                    let face = Face { x, y, z, side };
                    let listed = faces.iter().filter(|f| **f == face).count();
                    assert_eq!(listed, if shown { 1 } else { 0 });
                    assert_eq!(is_face_exposed(&grid, x, y, z, side), shown);
                }
            }
        }
    }
}

#[test]
fn faces_come_slab_by_slab_then_column_by_column_then_upwards() {
    let mut grid = Grid::new(2, 2, 2);
    grid.set(1, 0, 0, Some(SAND));
    grid.set(0, 1, 1, Some(SAND));
    grid.set(0, 0, 1, Some(SAND));
    grid.set(0, 1, 0, Some(SAND));
    let cells: Vec<(usize, usize, usize)> = exposed_faces(&grid).iter().map(|f| (f.x, f.y, f.z)).collect();
    let mut order = cells.clone();
    order.dedup();
    assert_eq!(order, vec![(0, 1, 0), (0, 0, 1), (0, 1, 1), (1, 0, 0)]);
}

#[test]
fn the_wireframe_flag_is_carried_into_the_mesh() {
    let mut grid = Grid::new(2, 2, 2);
    grid.set(0, 0, 0, Some(SAND));
    assert!(surface_mesh(&grid, true).wireframe);
    assert!(!surface_mesh(&grid, false).wireframe);
}

#[test]
fn the_box_wireframe_has_twelve_edges() {
    let v = cube_wireframe_from_points(p(0, 0, 0), p(4, 5, 6));
    let expected = vec![
        p(0, 0, 0), p(4, 0, 0),
        p(0, 0, 0), p(0, 5, 0),
        p(0, 0, 0), p(0, 0, 6),
        p(4, 0, 0), p(4, 5, 0),
        p(4, 0, 0), p(4, 0, 6),
        p(0, 5, 0), p(4, 5, 0),
        p(0, 5, 0), p(0, 5, 6),
        p(0, 0, 6), p(4, 0, 6),
        p(0, 0, 6), p(0, 5, 6),
        p(4, 5, 6), p(0, 5, 6),
        p(4, 5, 6), p(4, 0, 6),
        p(4, 5, 6), p(4, 5, 0),
    ];
    assert_eq!(v, expected);
}

#[test]
fn the_box_has_twelve_triangles() {
    let v = cube_verts_from_points(p(1, 2, 3), p(4, 5, 6));
    let expected = vec![
        p(1, 2, 3), p(4, 2, 3), p(4, 5, 3),
        p(1, 2, 3), p(4, 5, 3), p(1, 5, 3),
        p(1, 2, 6), p(4, 2, 6), p(4, 5, 6),
        p(1, 2, 6), p(4, 5, 6), p(1, 5, 6),
        p(1, 2, 3), p(1, 5, 3), p(1, 5, 6),
        p(1, 2, 3), p(1, 5, 6), p(1, 2, 6),
        p(4, 2, 3), p(4, 5, 3), p(4, 5, 6),
        p(4, 2, 3), p(4, 5, 6), p(4, 2, 6),
        p(1, 5, 3), p(4, 5, 3), p(4, 5, 6),
        p(1, 5, 3), p(4, 5, 6), p(1, 5, 6),
        p(1, 2, 3), p(4, 2, 3), p(4, 2, 6),
        p(1, 2, 3), p(4, 2, 6), p(1, 2, 6),
    ];
    assert_eq!(v, expected);
}

#[test]
fn sequential_indices_count_from_zero() {
    assert_eq!(sequential_indices(0), Vec::<u32>::new());
    assert_eq!(sequential_indices(5), vec![0, 1, 2, 3, 4]);
}

#[test]
fn filled_meshes_are_drawn_by_whole_triangles() {
    let mesh = Mesh::new(vec![p(0, 0, 0); 4], vec![0, 1, 2, 2, 1, 3, 0, 3], false, vec![SAND; 4]);
    assert_eq!(mesh.index_data(), vec![0, 1, 2, 2, 1, 3]);
    assert_eq!(mesh.color_data(), vec![SAND; 4]);
}

#[test]
fn wireframes_are_drawn_edge_by_edge_in_white() {
    let mesh = Mesh::new(vec![p(0, 0, 0); 4], vec![0, 1, 2, 2, 1, 3, 0], true, vec![SAND, DARK, SAND, DARK]);
    assert_eq!(mesh.index_data(), vec![0, 1, 1, 2, 2, 0, 2, 1, 1, 3, 3, 2]);
    assert_eq!(mesh.color_data(), vec![Color { r: 255, g: 255, b: 255, a: 255 }; 4]);
}
