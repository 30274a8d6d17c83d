use raycaster::GridMap;
use raycaster::los::can_see_enemy;

const ONE: i64 = 65536;

/// A position that rounds to cell `(x, y)`: the oracle rounds coordinates
/// to the nearest cell, halves rounding up.
fn at_cell(x: usize, y: usize) -> (i64, i64) {
    (x as i64 * ONE + ONE / 4, y as i64 * ONE + ONE / 4)
}

fn single_wall_map() -> GridMap {
    // border walls and one interior wall at cell (3, 3)
    let mut cells = vec![vec![0u8; 7]; 7];
    for i in 0..7 {
        cells[0][i] = 1;
        cells[6][i] = 1;
        cells[i][0] = 1;
        cells[i][6] = 1;
    }
    cells[3][3] = 1;
    GridMap { cells }
}

#[test]
fn a_point_always_sees_itself() {
    let map = single_wall_map();
    for &(x, y) in &[(1usize, 1usize), (3, 2), (5, 5)] {
        let (px, py) = at_cell(x, y);
        assert!(can_see_enemy(px, py, px, py, &map));
    }
}

#[test]
fn line_crossing_the_wall_is_occluded_both_ways() {
    let map = single_wall_map();
    let (ax, ay) = at_cell(1, 3);
    let (bx, by) = at_cell(5, 3);
    assert!(!can_see_enemy(ax, ay, bx, by, &map));
    assert!(!can_see_enemy(bx, by, ax, ay, &map));
    let (cx, cy) = at_cell(3, 1);
    let (dx, dy) = at_cell(3, 5);
    assert!(!can_see_enemy(cx, cy, dx, dy, &map));
    assert!(!can_see_enemy(dx, dy, cx, cy, &map));
}

#[test]
fn line_missing_the_wall_is_clear_both_ways() {
    let map = single_wall_map();
    let (ax, ay) = at_cell(1, 1);
    let (bx, by) = at_cell(5, 1);
    assert!(can_see_enemy(ax, ay, bx, by, &map));
    assert!(can_see_enemy(bx, by, ax, ay, &map));
    let (cx, cy) = at_cell(1, 2);
    let (dx, dy) = at_cell(5, 2);
    assert!(can_see_enemy(cx, cy, dx, dy, &map));
    assert!(can_see_enemy(dx, dy, cx, cy, &map));
}

#[test]
fn diagonal_sight_around_the_wall() {
    let map = single_wall_map();
    // from just above the wall's row to just below it, one column to the
    // side: the rasterized line stays off the wall cell
    let (ax, ay) = at_cell(2, 2);
    let (bx, by) = at_cell(1, 4);
    assert!(can_see_enemy(ax, ay, bx, by, &map));
    assert!(can_see_enemy(bx, by, ax, ay, &map));
}

#[test]
fn positions_round_to_nearest_cell() {
    let map = single_wall_map();
    // 1.75 rounds up to cell 2 and 2.25 rounds down to it: both positions
    // rasterize to the same single cell, so they see each other
    let ax = 2 * ONE - ONE / 4;
    let ay = 2 * ONE + ONE / 4;
    let bx = 2 * ONE + ONE / 4;
    let by = 2 * ONE - ONE / 4;
    assert!(can_see_enemy(ax, ay, bx, by, &map));
    assert!(can_see_enemy(bx, by, ax, ay, &map));
}
