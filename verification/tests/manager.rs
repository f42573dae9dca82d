use voxel_sand::color::{pick_color, random_color, sand_colors, Color};
use voxel_sand::mesh::Point;
use voxel_sand::pick::{highlight_mesh, nearest_hit};
use voxel_sand::voxel_manager::VoxelManager;

const WHITE: Color = Color { r: 255, g: 255, b: 255, a: 255 };

fn palette() -> Vec<Color> {
    vec![
        Color { r: 0xff, g: 0xe0, b: 0xab, a: 255 },
        Color { r: 0xf3, g: 0xce, b: 0x93, a: 255 },
        Color { r: 0xd6, g: 0xb5, b: 0x88, a: 255 },
        Color { r: 0xff, g: 0xe0, b: 0xab, a: 255 },
        Color { r: 0xda, g: 0xb9, b: 0x84, a: 255 },
    ]
}

#[test]
fn the_palette_has_its_five_shades() {
    assert_eq!(VoxelManager::colors(), palette());
    assert_eq!(sand_colors(), palette());
}

#[test]
fn white_and_black_are_opaque() {
    assert_eq!(Color::white(), WHITE);
    assert_eq!(Color::black(), Color { r: 0, g: 0, b: 0, a: 255 });
}

#[test]
fn pick_color_wraps_around_the_palette() {
    let colors = palette();
    assert_eq!(pick_color(&colors, 0), colors[0]);
    assert_eq!(pick_color(&colors, 4), colors[4]);
    assert_eq!(pick_color(&colors, 7), colors[2]);
    assert_eq!(pick_color(&colors, 5_000_001), colors[1]);
}

#[test]
fn a_random_color_is_of_the_palette() {
    let colors = palette();
    for _ in 0..40 {
        assert!(colors.contains(&random_color(&colors)));
    }
}

#[test]
fn a_new_sand_box_is_empty() {
    let m = VoxelManager::new(5, 3, 4);
    assert_eq!(m.length(), 5);
    assert_eq!(m.width(), 3);
    assert_eq!(m.height(), 4);
    assert_eq!(m.grid().count(), 0);
    assert!(m.mesh().positions.is_empty());
}

#[test]
fn paint_fills_the_top_cell_of_the_column() {
    let mut m = VoxelManager::new(4, 4, 4);
    let c = palette()[1];
    m.paint(2, 1, c);
    assert_eq!(m.get(2, 3, 1), Some(c));
    assert_eq!(m.grid().count(), 1);
}

#[test]
fn update_moves_the_sand_and_draws_it() {
    let mut m = VoxelManager::new(4, 4, 4);
    let c = palette()[0];
    m.paint(1, 1, c);
    assert!(m.mesh().positions.is_empty());
    assert!(m.update());
    assert_eq!(m.get(1, 3, 1), None);
    assert_eq!(m.get(1, 2, 1), Some(c));
    assert_eq!(m.mesh().positions.len(), 36);
    assert_eq!(m.mesh().positions[0], Point { x: 2, y: 2, z: 1 });
    assert_eq!(m.mesh().colors, vec![c; 36]);
    assert!(m.update());
    assert!(m.update());
    assert!(!m.update());
    assert_eq!(m.get(1, 0, 1), Some(c));
    assert_eq!(m.mesh().positions[0], Point { x: 2, y: 0, z: 1 });
}

#[test]
fn update_draws_sand_that_was_set_but_cannot_move() {
    let mut m = VoxelManager::new(3, 3, 1);
    m.set(1, 0, 1, Some(palette()[2]));
    assert!(!m.update());
    assert_eq!(m.mesh().positions.len(), 36);
    m.set(1, 0, 1, None);
    assert!(!m.update());
    assert!(m.mesh().positions.is_empty());
}

#[test]
fn the_brush_covers_a_square_without_its_corners() {
    let mut m = VoxelManager::new(9, 9, 3);
    m.paint_brush(4, 4);
    let colors = palette();
    for x in 0..9usize {
        for z in 0..9usize {
            let dx = (x as i64 - 4).abs();
            let dz = (z as i64 - 4).abs();
            let under = dx <= 2 && dz <= 2 && !(dx == 2 && dz == 2);
            match m.get(x, 2, z) {
                Some(c) => {
                    assert!(under);
                    assert!(colors.contains(&c));
                }
                None => assert!(!under),
            }
            assert_eq!(m.get(x, 0, z), None);
            assert_eq!(m.get(x, 1, z), None);
        }
    }
    assert_eq!(m.grid().count(), 21);
}

#[test]
fn the_brush_is_cut_off_at_the_walls() {
    let mut m = VoxelManager::new(4, 4, 2);
    m.paint_brush(0, 3);
    let mut n = 0;
    for x in 0..4usize {
        for z in 0..4usize {
            let dx = x as i64;
            let dz = (z as i64 - 3).abs();
            let under = dx <= 2 && dz <= 2 && !(dx == 2 && dz == 2);
            assert_eq!(m.get(x, 1, z).is_some(), under);
            if under {
                n += 1;
            }
        }
    }
    assert_eq!(m.grid().count(), n);
    assert_eq!(n, 8);
}

#[test]
fn the_bounding_box_spans_the_grid() {
    let m = VoxelManager::new(6, 4, 5);
    let mesh = m.get_bounding_box();
    assert_eq!(mesh.positions.len(), 24);
    assert_eq!(mesh.positions[0], Point { x: 0, y: 0, z: 0 });
    assert_eq!(mesh.positions[1], Point { x: 4, y: 0, z: 0 });
    assert_eq!(mesh.positions[3], Point { x: 0, y: 5, z: 0 });
    assert_eq!(mesh.positions[5], Point { x: 0, y: 0, z: 6 });
    assert_eq!(mesh.positions[18], Point { x: 4, y: 5, z: 6 });
    assert_eq!(mesh.positions[23], Point { x: 4, y: 5, z: 0 });
    assert_eq!(mesh.indicies, (0..24).collect::<Vec<u32>>());
    assert_eq!(mesh.colors, vec![WHITE; 24]);
    assert!(!mesh.wireframe);
}

#[test]
fn of_equal_distances_the_first_column_wins() {
    assert_eq!(nearest_hit(&vec![None, Some(8), Some(3), None, Some(3), Some(9)]), Some(2));
    assert_eq!(nearest_hit(&vec![Some(i64::MAX)]), Some(0));
    assert_eq!(nearest_hit(&vec![Some(0), Some(i64::MIN)]), Some(1));
    assert_eq!(nearest_hit(&vec![]), None);
    assert_eq!(nearest_hit(&vec![None, None]), None);
}

#[test]
fn the_highlight_is_a_unit_box() {
    let mesh = highlight_mesh(2, 5, 0);
    assert_eq!(mesh.positions.len(), 36);
    for q in &mesh.positions {
        assert!(q.x == 2 || q.x == 3);
        assert!(q.y == 5 || q.y == 6);
        assert!(q.z == 0 || q.z == 1);
    }
    assert_eq!(mesh.positions[35], Point { x: 2, y: 5, z: 1 });
}
