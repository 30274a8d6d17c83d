use raycaster::GridMap;
use raycaster::bfs::bfs_path;
use raycaster::create_graph;

fn reference_map() -> GridMap {
    GridMap {
        cells: vec![
            vec![1, 1, 1, 1, 1, 1, 1, 1],
            vec![1, 0, 0, 0, 0, 0, 0, 1],
            vec![1, 0, 1, 0, 0, 1, 0, 1],
            vec![1, 0, 0, 0, 0, 0, 0, 1],
            vec![1, 0, 0, 0, 0, 0, 0, 1],
            vec![1, 0, 1, 0, 0, 1, 0, 1],
            vec![1, 0, 0, 0, 0, 0, 0, 1],
            vec![1, 1, 1, 1, 1, 1, 1, 1],
        ],
    }
}

#[test]
fn path_from_cell_to_itself_is_singleton() {
    let map = reference_map();
    let g = create_graph(&map);
    for y in 0..8usize {
        for x in 0..8usize {
            if map.cells[y][x] == 0 {
                let path = bfs_path(&g, (x, y), (x, y));
                assert_eq!(path, vec![(x, y)]);
            }
        }
    }
}

#[test]
fn shortest_path_has_hop_distance_length() {
    let map = reference_map();
    let g = create_graph(&map);
    let path = bfs_path(&g, (6, 6), (3, 3));
    // the Manhattan route is unobstructed, so the hop distance is 6
    assert_eq!(path.len(), 7);
    assert_eq!(path[0], (6, 6));
    assert_eq!(path[6], (3, 3));
}

#[test]
fn path_steps_are_adjacent_and_distinct() {
    let map = reference_map();
    let g = create_graph(&map);
    let path = bfs_path(&g, (1, 1), (6, 6));
    assert!(path.len() >= 2);
    for w in path.windows(2) {
        let dx = (w[0].0 as i64 - w[1].0 as i64).abs();
        let dy = (w[0].1 as i64 - w[1].1 as i64).abs();
        assert_eq!(dx + dy, 1);
        assert_eq!(map.cells[w[1].1][w[1].0], 0);
    }
    for i in 0..path.len() {
        for j in (i + 1)..path.len() {
            assert_ne!(path[i], path[j]);
        }
    }
}

#[test]
fn corridor_path_is_exact() {
    let map = GridMap {
        cells: vec![
            vec![1, 1, 1, 1, 1],
            vec![1, 0, 0, 0, 1],
            vec![1, 1, 1, 1, 1],
        ],
    };
    let g = create_graph(&map);
    let path = bfs_path(&g, (1, 1), (3, 1));
    assert_eq!(path, vec![(1, 1), (2, 1), (3, 1)]);
}

#[test]
fn goal_on_wall_cell_gives_empty_path() {
    let map = reference_map();
    let g = create_graph(&map);
    let path = bfs_path(&g, (1, 1), (2, 2));
    assert!(path.is_empty());
    let border = bfs_path(&g, (3, 3), (0, 0));
    assert!(border.is_empty());
}

#[test]
fn out_of_grid_endpoints_find_nothing() {
    let map = reference_map();
    let g = create_graph(&map);
    assert!(bfs_path(&g, (1, 1), (9, 9)).is_empty());
    assert!(bfs_path(&g, (8, 3), (3, 3)).is_empty());
    // a search from a cell to itself yields that cell, even off the grid
    assert_eq!(bfs_path(&g, (9, 9), (9, 9)), vec![(9, 9)]);
}

#[test]
fn equal_length_routes_tie_break_by_direction_order() {
    let map = reference_map();
    let g = create_graph(&map);
    // two hop-shortest routes join (3,3) and (4,4); the down neighbor of
    // the start is discovered before the right one, so its route wins
    let path = bfs_path(&g, (3, 3), (4, 4));
    assert_eq!(path, vec![(3, 3), (3, 4), (4, 4)]);
}

#[test]
fn sealed_room_is_unreachable() {
    // a free cell enclosed on all four sides
    let map = GridMap {
        cells: vec![
            vec![1, 1, 1, 1, 1, 1],
            vec![1, 0, 0, 1, 0, 1],
            vec![1, 0, 0, 1, 0, 1],
            vec![1, 1, 1, 1, 1, 1],
        ],
    };
    let g = create_graph(&map);
    let path = bfs_path(&g, (1, 1), (4, 1));
    assert!(path.is_empty());
    let back = bfs_path(&g, (4, 2), (2, 2));
    assert!(back.is_empty());
}

#[test]
fn neighbors_keep_direction_order() {
    let map = reference_map();
    let g = create_graph(&map);
    // cell (1, 1): up and left are walls; down and right are free
    assert_eq!(g.neighbors(1, 1).clone(), vec![(1, 2), (2, 1)]);
    // cell (3, 3): all four neighbors free, order up, down, left, right
    assert_eq!(g.neighbors(3, 3).clone(), vec![(3, 2), (3, 4), (2, 3), (4, 3)]);
    // a wall cell keeps an empty list
    assert_eq!(g.neighbors(2, 2).len(), 0);
}
