use voxel_sand::color::Color;
use voxel_sand::grid::Grid;
use voxel_sand::sim::{diagonal_offsets, shuffled_offsets, Offset};

const SAND: Color = Color { r: 0xff, g: 0xe0, b: 0xab, a: 255 };
const DARK: Color = Color { r: 0xd6, g: 0xb5, b: 0x88, a: 255 };

fn snapshot(grid: &Grid) -> Vec<Option<Color>> {
    let mut cells = Vec::new();
    for x in 0..grid.width() {
        for y in 0..grid.height() {
            for z in 0..grid.length() {
                cells.push(grid.get(x, y, z));
            }
        }
    }
    cells
}

#[test]
fn new_grid_is_empty() {
    let grid = Grid::new(3, 4, 5);
    assert_eq!(grid.width(), 3);
    assert_eq!(grid.height(), 4);
    assert_eq!(grid.length(), 5);
    assert_eq!(grid.count(), 0);
    assert!(snapshot(&grid).iter().all(|c| c.is_none()));
}

#[test]
fn set_then_get_reads_back_and_leaves_the_rest() {
    let mut grid = Grid::new(3, 4, 5);
    grid.set(2, 3, 4, Some(SAND));
    grid.set(0, 0, 0, Some(DARK));
    assert_eq!(grid.get(2, 3, 4), Some(SAND));
    assert_eq!(grid.get(0, 0, 0), Some(DARK));
    assert_eq!(grid.count(), 2);
    grid.set(2, 3, 4, None);
    assert_eq!(grid.get(2, 3, 4), None);
    assert_eq!(grid.get(0, 0, 0), Some(DARK));
    assert_eq!(grid.count(), 1);
}

#[test]
fn contains_tells_cells_from_positions_outside() {
    let grid = Grid::new(3, 4, 5);
    assert!(grid.contains(2, 3, 4));
    assert!(!grid.contains(3, 0, 0));
    assert!(!grid.contains(0, 4, 0));
    assert!(!grid.contains(0, 0, 5));
}

#[test]
fn neighbor_stops_at_the_walls() {
    let grid = Grid::new(3, 4, 5);
    assert_eq!(grid.neighbor(1, 1, 1, 1, -1, 1), Some((2, 0, 2)));
    assert_eq!(grid.neighbor(0, 1, 1, -1, 0, 0), None);
    assert_eq!(grid.neighbor(1, 0, 1, 0, -1, 0), None);
    assert_eq!(grid.neighbor(2, 3, 4, 0, 0, 1), None);
    assert_eq!(grid.neighbor(2, 3, 4, 1, 0, 0), None);
}

#[test]
fn sand_above_an_empty_cell_falls_one_cell() {
    let mut grid = Grid::new(4, 4, 4);
    grid.set(1, 3, 1, Some(SAND));
    let changed = grid.step();
    assert!(changed);
    assert_eq!(grid.get(1, 2, 1), Some(SAND));
    assert_eq!(grid.get(1, 3, 1), None);
    assert_eq!(grid.count(), 1);
}

#[test]
fn sand_that_is_boxed_in_rests() {
    let mut grid = Grid::new(4, 4, 4);
    for x in 0..3 {
        for z in 0..3 {
            grid.set(x, 0, z, Some(DARK));
        }
    }
    grid.set(1, 1, 1, Some(SAND));
    let before = snapshot(&grid);
    let changed = grid.step();
    assert!(!changed);
    assert_eq!(snapshot(&grid), before);
}

#[test]
fn a_tick_keeps_the_amount_of_sand() {
    let mut grid = Grid::new(5, 6, 5);
    let mut n = 0;
    for x in 0..5 {
        for y in 0..6 {
            for z in 0..5 {
                if (x * 7 + y * 3 + z * 5) % 4 == 0 {
                    grid.set(x, y, z, Some(if (x + z) % 2 == 0 { SAND } else { DARK }));
                    n += 1;
                }
            }
        }
    }
    for _ in 0..12 {
        grid.step();
        assert_eq!(grid.count(), n);
    }
}

#[test]
fn the_change_flag_is_exact() {
    let mut grid = Grid::new(4, 5, 4);
    for x in 0..4 {
        for z in 0..4 {
            if (x + z) % 3 != 0 {
                grid.set(x, 4, z, Some(SAND));
            }
        }
    }
    for _ in 0..20 {
        let before = snapshot(&grid);
        let changed = grid.step();
        assert_eq!(changed, snapshot(&grid) != before);
    }
}

#[test]
fn a_lone_unit_reaches_the_floor_and_stays() {
    let mut grid = Grid::new(4, 4, 4);
    grid.set(2, 3, 1, Some(SAND));
    for tick in 1..=3 {
        assert!(grid.step());
        assert_eq!(grid.get(2, 3 - tick, 1), Some(SAND));
        assert_eq!(grid.count(), 1);
    }
    for _ in 0..5 {
        assert!(!grid.step());
        assert_eq!(grid.get(2, 0, 1), Some(SAND));
        assert_eq!(grid.count(), 1);
    }
}

#[test]
fn a_unit_moves_one_layer_in_a_tick_at_most() {
    let mut grid = Grid::new(3, 6, 3);
    grid.set(1, 5, 1, Some(SAND));
    grid.set(1, 4, 1, Some(DARK));
    grid.step();
    assert_eq!(grid.get(1, 3, 1), Some(DARK));
    let mut at_four = 0;
    for x in 0..3 {
        for z in 0..3 {
            for y in 0..6 {
                if grid.get(x, y, z) == Some(SAND) {
                    assert_eq!(y, 4);
                    at_four += 1;
                }
            }
        }
    }
    assert_eq!(at_four, 1);
}

#[test]
fn fall_moves_only_into_an_empty_cell_below() {
    let mut grid = Grid::new(2, 3, 2);
    grid.set(0, 1, 0, Some(SAND));
    grid.set(0, 2, 0, Some(DARK));
    assert!(!grid.fall(0, 2, 0));
    assert!(grid.fall(0, 1, 0));
    assert_eq!(grid.get(0, 0, 0), Some(SAND));
    assert_eq!(grid.get(0, 1, 0), None);
    assert!(!grid.fall(0, 0, 0));
    assert!(!grid.fall(1, 1, 1));
    assert_eq!(grid.count(), 2);
}

#[test]
fn spread_takes_the_first_open_step_of_the_order() {
    let mut grid = Grid::new(3, 2, 3);
    grid.set(1, 0, 1, Some(DARK));
    grid.set(1, 1, 1, Some(SAND));
    grid.set(2, 0, 1, Some(DARK));
    let order = vec![
        Offset { dx: 1, dy: -1, dz: 0 },
        Offset { dx: -1, dy: -1, dz: 1 },
        Offset { dx: 0, dy: -1, dz: -1 },
    ];
    assert!(grid.spread(1, 1, 1, &order));
    assert_eq!(grid.get(1, 1, 1), None);
    assert_eq!(grid.get(0, 0, 2), Some(SAND));
    assert_eq!(grid.get(1, 0, 0), None);
    assert_eq!(grid.count(), 3);
}

#[test]
fn spread_skips_steps_that_leave_the_grid() {
    let mut grid = Grid::new(2, 2, 2);
    grid.set(0, 1, 0, Some(SAND));
    grid.set(0, 0, 0, Some(DARK));
    let order = vec![
        Offset { dx: -1, dy: -1, dz: 0 },
        Offset { dx: 0, dy: -1, dz: -1 },
        Offset { dx: 1, dy: -1, dz: 1 },
    ];
    assert!(grid.spread(0, 1, 0, &order));
    assert_eq!(grid.get(1, 0, 1), Some(SAND));
}

#[test]
fn spread_leaves_an_empty_cell_and_blocked_sand_alone() {
    let mut grid = Grid::new(2, 2, 2);
    assert!(!grid.spread(0, 1, 0, &diagonal_offsets()));
    for x in 0..2 {
        for z in 0..2 {
            grid.set(x, 0, z, Some(DARK));
        }
    }
    grid.set(0, 1, 0, Some(SAND));
    let before = snapshot(&grid);
    assert!(!grid.spread(0, 1, 0, &diagonal_offsets()));
    assert!(!grid.spread(0, 0, 0, &diagonal_offsets()));
    assert_eq!(snapshot(&grid), before);
}

#[test]
fn blocked_sand_spreads_to_a_diagonal_neighbour() {
    for _ in 0..50 {
        let mut grid = Grid::new(3, 2, 3);
        grid.set(1, 0, 1, Some(DARK));
        grid.set(1, 1, 1, Some(SAND));
        assert!(grid.step());
        assert_eq!(grid.get(1, 1, 1), None);
        assert_eq!(grid.get(1, 0, 1), Some(DARK));
        let mut found = 0;
        for x in 0..3 {
            for z in 0..3 {
                if grid.get(x, 0, z) == Some(SAND) {
                    assert!((x, z) != (1, 1));
                    found += 1;
                }
            }
        }
        assert_eq!(found, 1);
    }
}

#[test]
fn the_diagonal_offsets_come_in_their_fixed_order() {
    let expected = vec![
        Offset { dx: 1, dy: -1, dz: 0 },
        Offset { dx: -1, dy: -1, dz: 0 },
        Offset { dx: 0, dy: -1, dz: 1 },
        Offset { dx: 0, dy: -1, dz: -1 },
        Offset { dx: 1, dy: -1, dz: 1 },
        Offset { dx: 1, dy: -1, dz: -1 },
        Offset { dx: -1, dy: -1, dz: 1 },
        Offset { dx: -1, dy: -1, dz: -1 },
    ];
    assert_eq!(diagonal_offsets(), expected);
}

#[test]
fn a_shuffle_holds_each_diagonal_offset_once() {
    for _ in 0..20 {
        let order = shuffled_offsets();
        assert_eq!(order.len(), 8);
        for o in diagonal_offsets() {
            assert_eq!(order.iter().filter(|p| **p == o).count(), 1);
        }
    }
}
