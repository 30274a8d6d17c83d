use vstd::prelude::*;

use crate::bfs::bfs_path;
use crate::bfs::spec_bfs_path;
use crate::fp;
use crate::graph::Graph;
use crate::graph::graph_matches_map;
use crate::graph::lemma_neighbor_listed_free;
use crate::graph::spec_neighbors;
use crate::map::GridMap;
use crate::steer::move_enemy_towards_player;
use crate::steer::pose_valid;
use crate::steer::spec_move_enemy;
use crate::steer::waypoint_ok;

verus! {

/// One enemy tick of the game loop: recompute the route from the enemy's
/// cell to the player's cell on the visibility graph — exactly the one the
/// breadth-first finder names — then advance the enemy one steering step
/// along it, as `spec_move_enemy` says.
///
/// From a valid enemy pose the resulting pose is valid again, so over any
/// sequence of ticks from a valid start the enemy never stands in a Wall
/// cell or outside the grid.
pub fn enemy_tick(map: &GridMap, graph: &Graph, ex: i64, ey: i64, px: i64, py: i64) -> (r: (
    i64,
    i64,
))
    requires
        map.wf(),
        graph.wf(),
        graph_matches_map(*graph, *map),
        pose_valid(*map, ex as int, ey as int),
        map.pos_in_bounds(px, py),
    ensures
        r == spec_move_enemy(
            *map,
            ex,
            ey,
            px,
            py,
            spec_bfs_path(
                *graph,
                (fp::cell_of(ex as int) as usize, fp::cell_of(ey as int) as usize),
                (fp::cell_of(px as int) as usize, fp::cell_of(py as int) as usize),
            ),
        ),
        pose_valid(*map, r.0 as int, r.1 as int),
{
    let start = (fp::cell_index(ex) as usize, fp::cell_index(ey) as usize);
    let goal = (fp::cell_index(px) as usize, fp::cell_index(py) as usize);
    proof {
        assert(start == (fp::cell_of(ex as int) as usize, fp::cell_of(ey as int) as usize));
        assert(goal == (fp::cell_of(px as int) as usize, fp::cell_of(py as int) as usize));
    }
    let path = bfs_path(graph, start, goal);
    proof {
        if path@.len() >= 2 {
            let ghost i: int = 0;
            assert(graph.edge(path@[i], path@[i + 1]));
            let a = path@[0];
            assert(graph.adj_of(a.0 as int, a.1 as int).contains(path@[1]));
            assert(graph.adj_of(a.0 as int, a.1 as int) == spec_neighbors(
                *map,
                a.0 as int,
                a.1 as int,
            ));
            lemma_neighbor_listed_free(*map, a.0 as int, a.1 as int, path@[1]);
            assert(waypoint_ok(*map, path@[1]));
        }
    }
    move_enemy_towards_player(ex, ey, px, py, &path, map)
}

} // verus!
