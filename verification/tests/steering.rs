use raycaster::GridMap;
use raycaster::bfs::bfs_path;
use raycaster::create_graph;
use raycaster::session::enemy_tick;
use raycaster::steer::PATH_STEP;
use raycaster::steer::move_enemy_towards_player;

const ONE: i64 = 65536;

fn reference_map() -> GridMap {
    GridMap {
        cells: vec![
            vec![1, 1, 1, 1, 1, 1, 1, 1],
            vec![1, 0, 0, 0, 0, 0, 0, 1],
            vec![1, 0, 1, 0, 0, 1, 0, 1],
            vec![1, 0, 0, 0, 0, 0, 0, 1],
            vec![1, 0, 0, 0, 0, 0, 0, 1],
            vec![1, 0, 1, 0, 0, 1, 0, 1],
            vec![1, 0, 0, 0, 0, 0, 0, 1],
            vec![1, 1, 1, 1, 1, 1, 1, 1],
        ],
    }
}

fn cell_is_free(map: &GridMap, x: i64, y: i64) -> bool {
    let cx = (x / ONE) as usize;
    let cy = (y / ONE) as usize;
    cy < map.cells.len() && cx < map.cells[cy].len() && map.cells[cy][cx] == 0
}

#[test]
fn one_tick_from_the_reference_start() {
    let map = reference_map();
    let g = create_graph(&map);
    let px = 3 * ONE;
    let py = 3 * ONE;
    let ex = 6 * ONE;
    let ey = 6 * ONE;
    let path = bfs_path(&g, (6, 6), (3, 3));
    let (nx, ny) = move_enemy_towards_player(ex, ey, px, py, &path, &map);
    // the enemy moved, by at most one per-tick step per axis
    assert!((nx, ny) != (ex, ey));
    assert!((nx - ex).abs() <= PATH_STEP);
    assert!((ny - ey).abs() <= PATH_STEP);
    // and stands on a Free cell inside the grid
    assert!(nx >= 0 && ny >= 0);
    assert!(cell_is_free(&map, nx, ny));
}

#[test]
fn step_into_a_wall_is_rejected() {
    let map = reference_map();
    // enemy and player share cell (1, 3); the player stands so close to the
    // wall side that the normalized step would cross into column 0
    let ex = ONE + 1400;
    let ey = 3 * ONE + ONE / 2;
    let px = ONE + 20;
    let py = 3 * ONE + ONE / 2;
    let path = vec![(1usize, 3usize)];
    let (nx, ny) = move_enemy_towards_player(ex, ey, px, py, &path, &map);
    assert_eq!((nx, ny), (ex, ey));
}

#[test]
fn same_position_does_not_move() {
    let map = reference_map();
    let p = 3 * ONE + ONE / 2;
    let path = vec![(3usize, 3usize)];
    let (nx, ny) = move_enemy_towards_player(p, p, p, p, &path, &map);
    assert_eq!((nx, ny), (p, p));
}

#[test]
fn short_route_means_no_move() {
    let map = reference_map();
    // different cells but a route without a second element: stay in place
    let ex = ONE + ONE / 2;
    let ey = ONE + ONE / 2;
    let px = 6 * ONE + ONE / 2;
    let py = 6 * ONE + ONE / 2;
    let empty: Vec<(usize, usize)> = Vec::new();
    assert_eq!(move_enemy_towards_player(ex, ey, px, py, &empty, &map), (ex, ey));
}

#[test]
fn arrival_snaps_to_the_waypoint_center() {
    let map = reference_map();
    // enemy within 0.1 of the center of cell (4, 3)
    let ex = 4 * ONE + ONE / 2 + 3000;
    let ey = 3 * ONE + ONE / 2;
    let px = 6 * ONE + ONE / 2;
    let py = 6 * ONE + ONE / 2;
    let path = vec![(4usize, 4usize), (4, 3)];
    let (nx, ny) = move_enemy_towards_player(ex, ey, px, py, &path, &map);
    assert_eq!(nx, 4 * ONE + ONE / 2);
    assert_eq!(ny, 3 * ONE + ONE / 2);
}

#[test]
fn ticks_never_leave_free_cells() {
    let map = reference_map();
    let g = create_graph(&map);
    let px = 3 * ONE;
    let py = 3 * ONE;
    let mut ex = 6 * ONE;
    let mut ey = 6 * ONE;
    for _ in 0..400 {
        let (nx, ny) = enemy_tick(&map, &g, ex, ey, px, py);
        assert!(nx >= 0 && ny >= 0 && nx < 8 * ONE && ny < 8 * ONE);
        assert!(cell_is_free(&map, nx, ny));
        ex = nx;
        ey = ny;
    }
    // after enough ticks the pursuer has closed in on the player
    assert!((ex - px).abs() <= ONE);
    assert!((ey - py).abs() <= ONE);
}
