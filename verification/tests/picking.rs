use voxel_sand::color::Color;
use voxel_sand::mesh::Point;
use voxel_sand::pick::{column_entries, narrow, slab_test, Slabs, Span};
use voxel_sand::voxel_manager::VoxelManager;

const EDGE: f32 = 0.2;
const NEAR: f32 = 0.8;
const FAR: f32 = 100.0;
const WHITE: Color = Color { r: 255, g: 255, b: 255, a: 255 };

/// An integer that orders as the distances do; `None` for NaN.
fn key(depth: f32) -> Option<i64> {
    if depth.is_nan() {
        return None;
    }
    let bits = (depth + 0.0).to_bits() as i32;
    Some((if bits < 0 { bits ^ 0x7fff_ffff } else { bits }) as i64)
}

/// The distance that `key` made the integer of.
fn depth(key: i64) -> f32 {
    let key = key as i32;
    f32::from_bits((if key < 0 { key ^ 0x7fff_ffff } else { key }) as u32)
}

fn span(low: f32, high: f32, origin: f32, direction: f32) -> Span {
    let (near, far) = if direction >= 0.0 { (low, high) } else { (high, low) };
    Span { enter: key((near - origin) / direction), leave: key((far - origin) / direction) }
}

fn slabs(origin: [f32; 3], direction: [f32; 3], low: [f32; 3], high: [f32; 3]) -> Slabs {
    Slabs {
        x: span(low[0], high[0], origin[0], direction[0]),
        y: span(low[1], high[1], origin[1], direction[1]),
        z: span(low[2], high[2], origin[2], direction[2]),
    }
}

fn cell_box(x: usize, y: usize, z: usize) -> ([f32; 3], [f32; 3]) {
    (
        [x as f32 * EDGE, y as f32 * EDGE, z as f32 * EDGE],
        [(x + 1) as f32 * EDGE, (y + 1) as f32 * EDGE, (z + 1) as f32 * EDGE],
    )
}

fn cast(origin: [f32; 3], direction: [f32; 3], low: [f32; 3], high: [f32; 3]) -> Option<f32> {
    slab_test(slabs(origin, direction, low, high), key(NEAR).unwrap(), key(FAR).unwrap()).map(depth)
}

fn top_layer_slabs(m: &VoxelManager, origin: [f32; 3], direction: [f32; 3]) -> Vec<Slabs> {
    let mut all = Vec::new();
    for x in 0..m.width() {
        for z in 0..m.length() {
            let (low, high) = cell_box(x, m.height() - 1, z);
            all.push(slabs(origin, direction, low, high));
        }
    }
    all
}

fn pick(m: &VoxelManager, origin: [f32; 3], direction: [f32; 3]) -> Option<(usize, usize)> {
    m.get_ghost_mesh(&top_layer_slabs(m, origin, direction), key(NEAR).unwrap(), key(FAR).unwrap()).1
}

fn some(enter: i64, leave: i64) -> Span {
    Span { enter: Some(enter), leave: Some(leave) }
}

#[test]
fn the_keys_order_as_the_distances_do() {
    let samples = [f32::NEG_INFINITY, -3.5, -1.0e-30, 0.0, 1.0e-30, 0.8, 2.0, 100.0, f32::INFINITY];
    for a in samples {
        assert_eq!(depth(key(a).unwrap()), a);
        for b in samples {
            assert_eq!(key(a) < key(b), a < b);
        }
    }
    assert_eq!(key(-0.0), key(0.0));
    assert_eq!(key(f32::NAN), None);
}

#[test]
fn a_ray_along_an_axis_through_the_centre_enters_at_the_near_face() {
    let (low, high) = cell_box(3, 9, 7);
    let centre = [3.5 * EDGE, 9.5 * EDGE, 7.5 * EDGE];
    let from_left = cast([centre[0] - 5.0, centre[1], centre[2]], [1.0, 0.0, 0.0], low, high).unwrap();
    assert!((from_left - (5.0 - 0.5 * EDGE)).abs() < 1e-4);
    let from_above = cast([centre[0], centre[1] + 3.0, centre[2]], [0.0, -1.0, 0.0], low, high).unwrap();
    assert!((from_above - (3.0 - 0.5 * EDGE)).abs() < 1e-4);
    let from_behind = cast([centre[0], centre[1], centre[2] - 42.0], [0.0, 0.0, 1.0], low, high).unwrap();
    assert!((from_behind - (42.0 - 0.5 * EDGE)).abs() < 1e-4);
}

#[test]
fn a_slanted_ray_enters_where_it_is_last_to_enter_a_slab() {
    let d = [0.6, 0.0, 0.8];
    let hit = cast([-3.0, 0.5, -4.0], d, [0.0, 0.0, 0.0], [1.0, 1.0, 1.0]).unwrap();
    assert!((hit - 5.0).abs() < 1e-4);
    let hit = cast([-3.0, 0.5, -3.6], d, [0.0, 0.0, 0.0], [1.0, 1.0, 1.0]).unwrap();
    assert!((hit - 5.0).abs() < 1e-4);
    assert_eq!(cast([-3.0, 0.5, -2.0], d, [0.0, 0.0, 0.0], [1.0, 1.0, 1.0]), None);
}

#[test]
fn a_parallel_ray_beside_the_box_misses() {
    let (low, high) = ([0.0, 0.0, 0.0], [1.0, 1.0, 1.0]);
    assert_eq!(cast([-5.0, 2.0, 0.5], [1.0, 0.0, 0.0], low, high), None);
    assert_eq!(cast([-5.0, 0.5, -0.1], [1.0, 0.0, 0.0], low, high), None);
    assert!(cast([-5.0, 0.5, 0.5], [1.0, 0.0, 0.0], low, high).is_some());
}

#[test]
fn a_box_behind_the_origin_or_too_far_is_not_hit() {
    let (low, high) = ([0.0, 0.0, 0.0], [1.0, 1.0, 1.0]);
    assert_eq!(cast([5.0, 0.5, 0.5], [1.0, 0.0, 0.0], low, high), None);
    assert_eq!(cast([-100.0, 0.5, 0.5], [1.0, 0.0, 0.0], low, high), None);
    assert!(cast([-99.0, 0.5, 0.5], [1.0, 0.0, 0.0], low, high).is_some());
    assert_eq!(cast([0.3, 0.5, 0.5], [1.0, 0.0, 0.0], low, high), None);
    assert_eq!(cast([0.1, 0.5, 0.5], [1.0, 0.0, 0.0], low, high), Some(-0.1));
}

#[test]
fn a_ray_in_the_plane_of_a_face_of_the_first_slab_misses() {
    let (low, high) = ([0.0, 0.0, 0.0], [1.0, 1.0, 1.0]);
    let s = slabs([0.0, -5.0, 0.5], [0.0, 1.0, 0.0], low, high);
    assert_eq!(s.x.enter, None);
    assert_eq!(slab_test(s, key(NEAR).unwrap(), key(FAR).unwrap()), None);
}

#[test]
fn narrow_keeps_the_overlap() {
    assert_eq!(narrow(some(1, 9), some(3, 12)), Some(some(3, 9)));
    assert_eq!(narrow(some(3, 12), some(1, 9)), Some(some(3, 9)));
    assert_eq!(narrow(some(1, 9), some(9, 12)), Some(some(9, 9)));
    assert_eq!(narrow(some(1, 9), some(10, 12)), None);
    assert_eq!(narrow(some(10, 12), some(1, 9)), None);
    let open = Span { enter: None, leave: None };
    assert_eq!(narrow(some(1, 9), open), Some(some(1, 9)));
    assert_eq!(narrow(open, some(1, 9)), Some(open));
}

#[test]
fn the_slab_test_reports_the_last_entry() {
    let s = Slabs { x: some(2, 10), y: some(-4, 7), z: some(5, 30) };
    assert_eq!(slab_test(s, 0, 100), Some(5));
    assert_eq!(slab_test(s, 7, 100), None);
    assert_eq!(slab_test(s, 6, 100), Some(5));
    assert_eq!(slab_test(s, 0, 5), None);
    assert_eq!(slab_test(s, 0, 6), Some(5));
    let apart = Slabs { x: some(2, 4), y: some(-4, 7), z: some(5, 30) };
    assert_eq!(slab_test(apart, 0, 100), None);
    let m = VoxelManager::new(2, 2, 2);
    assert_eq!(m.ray_box_intersection(s, 0, 100), Some(5));
    assert_eq!(column_entries(&vec![s, apart, s], 6, 100), vec![Some(5), None, Some(5)]);
}

#[test]
fn a_ray_at_one_column_targets_that_column() {
    let mut m = VoxelManager::new(10, 10, 10);
    m.paint(3, 7, Color { r: 0xff, g: 0xe0, b: 0xab, a: 255 });
    let origin = [3.5 * EDGE, 9.5 * EDGE + 4.0, 7.5 * EDGE];
    let all = top_layer_slabs(&m, origin, [0.0, -1.0, 0.0]);
    let (ghost, target) = m.get_ghost_mesh(&all, key(NEAR).unwrap(), key(FAR).unwrap());
    assert_eq!(target, Some((3, 7)));
    let ghost = ghost.unwrap();
    assert_eq!(ghost.positions.len(), 36);
    assert_eq!(ghost.positions[0], Point { x: 3, y: 9, z: 7 });
    assert_eq!(ghost.positions[2], Point { x: 4, y: 10, z: 7 });
    assert_eq!(ghost.positions[8], Point { x: 4, y: 10, z: 8 });
    assert_eq!(ghost.indicies, (0..36).collect::<Vec<u32>>());
    assert_eq!(ghost.colors, vec![WHITE; 36]);
    assert!(!ghost.wireframe);
}

#[test]
fn a_ray_that_misses_every_column_has_no_target() {
    let m = VoxelManager::new(10, 10, 10);
    let (ghost, target) = m.get_ghost_mesh(
        &top_layer_slabs(&m, [-3.0, 9.5 * EDGE + 4.0, -3.0], [0.0, -1.0, 0.0]),
        key(NEAR).unwrap(),
        key(FAR).unwrap(),
    );
    assert_eq!(target, None);
    assert!(ghost.is_none());
    assert_eq!(pick(&m, [20.0, 9.5 * EDGE, 7.5 * EDGE], [1.0, 0.0, 0.0]), None);
}

#[test]
fn the_column_entered_first_wins() {
    let m = VoxelManager::new(10, 10, 10);
    let y = 9.5 * EDGE;
    assert_eq!(pick(&m, [-4.0, y, 2.5 * EDGE], [1.0, 0.0, 0.0]), Some((0, 2)));
    assert_eq!(pick(&m, [6.0, y, 2.5 * EDGE], [-1.0, 0.0, 0.0]), Some((9, 2)));
    assert_eq!(pick(&m, [4.5 * EDGE, y, 7.0], [0.0, 0.0, -1.0]), Some((4, 9)));
    assert_eq!(pick(&m, [4.5 * EDGE, y, -7.0], [0.0, 0.0, 1.0]), Some((4, 0)));
}

#[test]
fn of_columns_entered_at_one_distance_the_first_wins() {
    let m = VoxelManager::new(3, 2, 1);
    let s = Slabs { x: some(2, 10), y: some(-4, 7), z: some(5, 30) };
    let t = Slabs { x: some(5, 10), y: some(-4, 7), z: some(1, 30) };
    let miss = Slabs { x: some(2, 4), y: some(-4, 7), z: some(5, 30) };
    assert_eq!(m.get_ghost_mesh(&vec![miss, miss, s, miss, t, s], 0, 100).1, Some((0, 2)));
    assert_eq!(m.get_ghost_mesh(&vec![miss, miss, miss, miss, t, miss], 0, 100).1, Some((1, 1)));
}
