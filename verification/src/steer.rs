use vstd::prelude::*;

use crate::fp;
use crate::map::GridMap;

verus! {

/// Per-tick step magnitude when chasing the player inside the same cell,
/// in fixed point (about 0.05 map units).
pub const CHASE_STEP: i64 = 3277;

/// Per-tick step magnitude when walking toward the next waypoint, in fixed
/// point (about 0.03 map units).
pub const PATH_STEP: i64 = 1966;

/// Arrival threshold: within this fixed-point distance of the waypoint's
/// center the enemy snaps exactly onto it (about 0.1 map units).
pub const ARRIVE: i64 = 6554;

/// A valid pose: a position inside the grid whose containing cell is Free.
pub open spec fn pose_valid(m: GridMap, x: int, y: int) -> bool {
    &&& 0 <= x < m.spec_width() * 65536
    &&& 0 <= y < m.spec_height() * 65536
    &&& m.free_at(x / 65536, y / 65536)
}

/// A usable waypoint: an in-bounds Free cell.
pub open spec fn waypoint_ok(m: GridMap, wp: (usize, usize)) -> bool {
    &&& wp.0 < m.spec_width()
    &&& wp.1 < m.spec_height()
    &&& m.free_at(wp.0 as int, wp.1 as int)
}

/// One axis component of a step of magnitude `step` along the offset
/// `delta` whose Euclidean length is `d`: `delta * step / d`, truncated
/// toward zero.
pub open spec fn step_component(delta: int, step: int, d: int) -> int {
    if delta >= 0 {
        (delta * step) / d
    } else {
        -(((-delta) * step) / d)
    }
}

/// What one steering tick does, in the grid's fixed-point model.
///
/// Same cell as the player: step `CHASE_STEP` straight toward the player's
/// exact position, rejected if it would leave the grid or enter a Wall.
/// Otherwise, with a route of at least two cells: head for the center of
/// the second cell, snapping onto it inside the `ARRIVE` radius, else
/// stepping `PATH_STEP` toward it under the same rejection test. With no
/// such route the enemy stays in place.
pub open spec fn spec_move_enemy(
    m: GridMap,
    ex: i64,
    ey: i64,
    px: i64,
    py: i64,
    path: Seq<(usize, usize)>,
) -> (i64, i64) {
    if ex / 65536 == px / 65536 && ey / 65536 == py / 65536 {
        let d = fp::sqrt_floor(fp::dist_sq(px as int, py as int, ex as int, ey as int));
        if d == 0 {
            (ex, ey)
        } else {
            let nx = ex + step_component(px - ex, CHASE_STEP as int, d);
            let ny = ey + step_component(py - ey, CHASE_STEP as int, d);
            if pose_valid(m, nx, ny) {
                (nx as i64, ny as i64)
            } else {
                (ex, ey)
            }
        }
    } else if path.len() >= 2 {
        let cx = path[1].0 * 65536 + 32768;
        let cy = path[1].1 * 65536 + 32768;
        let d = fp::sqrt_floor(fp::dist_sq(cx as int, cy as int, ex as int, ey as int));
        if d < ARRIVE {
            (cx as i64, cy as i64)
        } else {
            let nx = ex + step_component(cx - ex, PATH_STEP as int, d);
            let ny = ey + step_component(cy - ey, PATH_STEP as int, d);
            if pose_valid(m, nx, ny) {
                (nx as i64, ny as i64)
            } else {
                (ex, ey)
            }
        }
    } else {
        (ex, ey)
    }
}

/// One axis of a normalized step, truncated toward zero.
fn step_toward(delta: i64, step: i64, d: i64) -> (r: i64)
    requires
        1 <= d,
        -0x4000_0000 <= delta <= 0x4000_0000,
        0 < step <= 65536,
    ensures
        r == step_component(delta as int, step as int, d as int),
        -0x4000_0000_0000 <= r <= 0x4000_0000_0000,
{
    let mag: i64 = if delta < 0 {
        -delta
    } else {
        delta
    };
    proof {
        assert(0 <= mag * step <= 0x4000_0000 * 65536) by (nonlinear_arith)
            requires
                0 <= mag <= 0x4000_0000,
                0 < step <= 65536,
        ;
        assert((mag as int * step) / (d as int) <= mag as int * step) by (nonlinear_arith)
            requires
                1 <= d,
                0 <= mag as int * step,
        ;
    }
    let q: i64 = (mag * step) / d;
    if delta < 0 {
        -q
    } else {
        q
    }
}

/// Advances the enemy one tick toward the player, as `spec_move_enemy`
/// says. From a valid pose, with a route whose second cell (if any) is an
/// in-bounds Free cell, the new pose is valid again: the enemy never ends a
/// tick outside the grid or inside a Wall.
pub fn move_enemy_towards_player(
    ex: i64,
    ey: i64,
    px: i64,
    py: i64,
    path: &Vec<(usize, usize)>,
    map: &GridMap,
) -> (r: (i64, i64))
    requires
        map.wf(),
        map.pos_in_bounds(ex, ey),
        map.pos_in_bounds(px, py),
        path@.len() >= 2 ==> path@[1].0 < map.spec_width() && path@[1].1 < map.spec_height(),
    ensures
        r == spec_move_enemy(*map, ex, ey, px, py, path@),
        pose_valid(*map, ex as int, ey as int) && (path@.len() >= 2 ==> waypoint_ok(
            *map,
            path@[1],
        )) ==> pose_valid(*map, r.0 as int, r.1 as int),
{
    proof {
        assert(map.spec_width() * 65536 <= 4096 * 65536) by (nonlinear_arith)
            requires
                map.spec_width() <= 4096,
        ;
        assert(map.spec_height() * 65536 <= 4096 * 65536) by (nonlinear_arith)
            requires
                map.spec_height() <= 4096,
        ;
    }
    let ex_cell = fp::cell_index(ex);
    let ey_cell = fp::cell_index(ey);
    let px_cell = fp::cell_index(px);
    let py_cell = fp::cell_index(py);
    if ex_cell == px_cell && ey_cell == py_cell {
        let d = fp::distance(ex, ey, px, py);
        proof {
            assert((px - ex) * (px - ex) == (ex - px) * (ex - px)) by (nonlinear_arith);
            assert((py - ey) * (py - ey) == (ey - py) * (ey - py)) by (nonlinear_arith);
        }
        if d == 0 {
            (ex, ey)
        } else {
            let nx = ex + step_toward(px - ex, CHASE_STEP, d);
            let ny = ey + step_toward(py - ey, CHASE_STEP, d);
            if try_move(map, nx, ny) {
                (nx, ny)
            } else {
                (ex, ey)
            }
        }
    } else if path.len() >= 2 {
        let wp = path[1];
        let cx = wp.0 as i64 * 65536 + 32768;
        let cy = wp.1 as i64 * 65536 + 32768;
        let d = fp::distance(ex, ey, cx, cy);
        proof {
            assert((cx - ex) * (cx - ex) == (ex - cx) * (ex - cx)) by (nonlinear_arith);
            assert((cy - ey) * (cy - ey) == (ey - cy) * (ey - cy)) by (nonlinear_arith);
        }
        if d < ARRIVE {
            (cx, cy)
        } else {
            let nx = ex + step_toward(cx - ex, PATH_STEP, d);
            let ny = ey + step_toward(cy - ey, PATH_STEP, d);
            if try_move(map, nx, ny) {
                (nx, ny)
            } else {
                (ex, ey)
            }
        }
    } else {
        (ex, ey)
    }
}

/// The collision test for a proposed position: inside the grid and on a
/// Free cell.
fn try_move(map: &GridMap, nx: i64, ny: i64) -> (ok: bool)
    requires
        map.wf(),
    ensures
        ok == pose_valid(*map, nx as int, ny as int),
{
    if map.is_within_bounds(nx, ny) {
        let cx = fp::cell_index(nx);
        let cy = fp::cell_index(ny);
        map.is_free(cx as usize, cy as usize)
    } else {
        false
    }
}

} // verus!
