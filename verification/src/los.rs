use vstd::prelude::*;

use crate::fp;
use crate::map::GridMap;

verus! {

/// The cell that a fixed-point coordinate rounds to (nearest integer,
/// halves rounding up).
pub open spec fn round_cell(p: i64) -> int {
    ((p as int) + 32768) / 65536
}

/// The cells that the integer error-accumulation line walk visits, the
/// start cell included and the end cell excluded. `dx >= 0` and `dy <= 0`
/// are the axis distances, `sx`/`sy` the step directions, `err` the running
/// error term; `fuel` bounds the walk.
pub open spec fn los_cells(
    x: int,
    y: int,
    x1: int,
    y1: int,
    err: int,
    dx: int,
    dy: int,
    sx: int,
    sy: int,
    fuel: nat,
) -> Seq<(int, int)>
    decreases fuel,
{
    if (x == x1 && y == y1) || fuel == 0 {
        Seq::empty()
    } else {
        let e2 = 2 * err;
        let nx = if e2 >= dy { x + sx } else { x };
        let e1 = if e2 >= dy { err + dy } else { err };
        let ny = if e2 <= dx { y + sy } else { y };
        let ne = if e2 <= dx { e1 + dx } else { e1 };
        seq![(x, y)] + los_cells(nx, ny, x1, y1, ne, dx, dy, sx, sy, (fuel - 1) as nat)
    }
}

/// The rasterized line of cells between the rounded cells of two
/// fixed-point positions, from-cell included, to-cell excluded.
pub open spec fn sight_cells(px: i64, py: i64, ex: i64, ey: i64) -> Seq<(int, int)> {
    let x0 = round_cell(px);
    let y0 = round_cell(py);
    let x1 = round_cell(ex);
    let y1 = round_cell(ey);
    let dx = if x1 >= x0 { x1 - x0 } else { x0 - x1 };
    let dy = if y1 >= y0 { y0 - y1 } else { y1 - y0 };
    let sx: int = if x0 < x1 { 1 } else { -1 };
    let sy: int = if y0 < y1 { 1 } else { -1 };
    los_cells(x0, y0, x1, y1, dx + dy, dx, dy, sx, sy, (dx - dy) as nat)
}

/// An in-bounds Wall cell blocks sight; cells outside the grid do not.
pub open spec fn wall_blocks(m: GridMap, c: (int, int)) -> bool {
    m.in_bounds(c.0, c.1) && !m.free_at(c.0, c.1)
}

/// Two positions see each other exactly when no visited cell of the
/// rasterized line between them holds a Wall.
pub open spec fn spec_can_see(m: GridMap, px: i64, py: i64, ex: i64, ey: i64) -> bool {
    forall|i: int|
        0 <= i < sight_cells(px, py, ex, ey).len() ==> !wall_blocks(
            m,
            #[trigger] sight_cells(px, py, ex, ey)[i],
        )
}

/// Arithmetic facts about one step of the line walk: the error term stays
/// small, and an axis at its target never steps past it.
proof fn lemma_los_step(dx: int, dy: int, cx: int, cy: int, err: int)
    requires
        0 <= dx <= 4096,
        -4096 <= dy <= 0,
        0 <= cx <= dx,
        0 <= cy <= -dy,
        !(cx == dx && cy == -dy),
        err == dx + dy + cx * dy + cy * dx,
    ensures
        -0x4000000 <= err <= 0x4000000,
        cx == dx ==> !(2 * err >= dy),
        cy == -dy ==> !(2 * err <= dx),
{
    assert(-0x4000000 <= err <= 0x4000000) by (nonlinear_arith)
        requires
            0 <= dx <= 4096,
            -4096 <= dy <= 0,
            0 <= cx <= dx,
            0 <= cy <= -dy,
            err == dx + dy + cx * dy + cy * dx,
    ;
    if cx == dx {
        assert(2 * err < dy) by (nonlinear_arith)
            requires
                0 <= dx,
                dy <= 0,
                0 <= cy <= -dy - 1,
                err == dx + dy + dx * dy + cy * dx,
        ;
    }
    if cy == -dy {
        assert(2 * err > dx) by (nonlinear_arith)
            requires
                0 <= cx <= dx - 1,
                dy <= 0,
                err == dx + dy + cx * dy + (-dy) * dx,
        ;
    }
}

/// Line-of-sight oracle: rasterizes the segment between the rounded cells
/// of the two positions and reports whether every visited in-bounds cell is
/// Free. A position looking from its own cell always sees itself.
pub fn can_see_enemy(px: i64, py: i64, ex: i64, ey: i64, map: &GridMap) -> (r: bool)
    requires
        map.wf(),
        map.pos_in_bounds(px, py),
        map.pos_in_bounds(ex, ey),
    ensures
        r == spec_can_see(*map, px, py, ex, ey),
        round_cell(px) == round_cell(ex) && round_cell(py) == round_cell(ey) ==> r,
{
    let w = map.width() as i64;
    let h = map.height() as i64;
    let x0: i64 = fp::cell_index(px + 32768);
    let y0: i64 = fp::cell_index(py + 32768);
    let x1: i64 = fp::cell_index(ex + 32768);
    let y1: i64 = fp::cell_index(ey + 32768);
    let dx: i64 = if x1 >= x0 {
        x1 - x0
    } else {
        x0 - x1
    };
    let dy: i64 = if y1 >= y0 {
        y0 - y1
    } else {
        y1 - y0
    };
    let sx: i64 = if x0 < x1 {
        1
    } else {
        -1
    };
    let sy: i64 = if y0 < y1 {
        1
    } else {
        -1
    };
    let mut x = x0;
    let mut y = y0;
    let mut err: i64 = dx + dy;
    let ghost full = sight_cells(px, py, ex, ey);
    let ghost mut done: Seq<(int, int)> = Seq::empty();
    let ghost mut cx: int = 0;
    let ghost mut cy: int = 0;
    let ghost mut fuel: nat = (dx - dy) as nat;
    proof {
        assert(0 <= x0 <= 4096 && 0 <= y0 <= 4096 && 0 <= x1 <= 4096 && 0 <= y1 <= 4096);
        assert(full == los_cells(
            x0 as int,
            y0 as int,
            x1 as int,
            y1 as int,
            (dx + dy) as int,
            dx as int,
            dy as int,
            sx as int,
            sy as int,
            fuel,
        ));
    }
    while x != x1 || y != y1
        invariant
            map.wf(),
            w == map.spec_width(),
            h == map.spec_height(),
            0 <= dx <= 4096,
            -4096 <= dy <= 0,
            sx == 1 || sx == -1,
            sy == 1 || sy == -1,
            sx == 1 ==> x1 - x0 == dx,
            sx == -1 ==> x0 - x1 == dx,
            sy == 1 ==> y0 - y1 == dy,
            sy == -1 ==> y1 - y0 == dy,
            0 <= x0 <= 4096 && 0 <= x1 <= 4096 && 0 <= y0 <= 4096 && 0 <= y1 <= 4096,
            0 <= cx <= dx,
            0 <= cy <= -dy,
            x == x0 + cx * sx,
            y == y0 + cy * sy,
            err == dx + dy + cx * dy + cy * dx,
            fuel >= (dx - cx) + (-dy - cy),
            full == sight_cells(px, py, ex, ey),
            full == done + los_cells(
                x as int,
                y as int,
                x1 as int,
                y1 as int,
                err as int,
                dx as int,
                dy as int,
                sx as int,
                sy as int,
                fuel,
            ),
            forall|i: int| 0 <= i < done.len() ==> !wall_blocks(*map, #[trigger] done[i]),
        decreases fuel,
    {
        proof {
            assert((x == x0 + cx * sx && 0 <= cx <= dx && (sx == 1 || sx == -1) && (sx == 1
                ==> x1 - x0 == dx) && (sx == -1 ==> x0 - x1 == dx)) ==> (x0 <= x <= x1 || x1 <= x
                <= x0)) by (nonlinear_arith);
            assert((y == y0 + cy * sy && 0 <= cy <= -dy && (sy == 1 || sy == -1) && (sy == 1
                ==> y0 - y1 == dy) && (sy == -1 ==> y1 - y0 == dy)) ==> (y0 <= y <= y1 || y1 <= y
                <= y0)) by (nonlinear_arith);
            assert(0 <= x <= 4096 && 0 <= y <= 4096);
            lemma_los_step(dx as int, dy as int, cx, cy, err as int);
            assert(fuel > 0);
        }
        if 0 <= x && x < w && 0 <= y && y < h {
            if !map.is_free(x as usize, y as usize) {
                proof {
                    let rest = los_cells(
                        x as int,
                        y as int,
                        x1 as int,
                        y1 as int,
                        err as int,
                        dx as int,
                        dy as int,
                        sx as int,
                        sy as int,
                        fuel,
                    );
                    assert(rest[0] == (x as int, y as int));
                    assert(full[done.len() as int] == (x as int, y as int));
                    assert(wall_blocks(*map, full[done.len() as int]));
                }
                return false;
            }
        }
        let e2 = 2 * err;
        let ghost oldx = x as int;
        let ghost oldy = y as int;
        let ghost olderr = err as int;
        proof {
            let rest = los_cells(
                oldx,
                oldy,
                x1 as int,
                y1 as int,
                olderr,
                dx as int,
                dy as int,
                sx as int,
                sy as int,
                fuel,
            );
            assert(rest[0] == (oldx, oldy));
            assert(!wall_blocks(*map, (oldx, oldy)));
            done = done.push((oldx, oldy));
        }
        if e2 >= dy {
            err = err + dy;
            x = x + sx;
            proof {
                assert((cx + 1) * sx == cx * sx + sx) by (nonlinear_arith);
                assert((cx + 1) * dy == cx * dy + dy) by (nonlinear_arith);
                cx = cx + 1;
            }
        }
        if e2 <= dx {
            err = err + dx;
            y = y + sy;
            proof {
                assert((cy + 1) * sy == cy * sy + sy) by (nonlinear_arith);
                assert((cy + 1) * dx == cy * dx + dx) by (nonlinear_arith);
                cy = cy + 1;
            }
        }
        proof {
            let rest = los_cells(
                oldx,
                oldy,
                x1 as int,
                y1 as int,
                olderr,
                dx as int,
                dy as int,
                sx as int,
                sy as int,
                fuel,
            );
            fuel = (fuel - 1) as nat;
            assert(rest =~= seq![(oldx, oldy)] + los_cells(
                x as int,
                y as int,
                x1 as int,
                y1 as int,
                err as int,
                dx as int,
                dy as int,
                sx as int,
                sy as int,
                fuel,
            ));
            assert(full =~= done + los_cells(
                x as int,
                y as int,
                x1 as int,
                y1 as int,
                err as int,
                dx as int,
                dy as int,
                sx as int,
                sy as int,
                fuel,
            ));
        }
    }
    proof {
        assert(los_cells(
            x as int,
            y as int,
            x1 as int,
            y1 as int,
            err as int,
            dx as int,
            dy as int,
            sx as int,
            sy as int,
            fuel,
        ) =~= Seq::empty());
        assert(full =~= done);
    }
    true
}

/// Visibility is symmetric under endpoint swap whenever both endpoint cells
/// are Free and no Wall stands strictly between them on the rasterized line
/// taken in either direction: both directions then see each other.
pub proof fn lemma_visibility_symmetric(m: GridMap, px: i64, py: i64, ex: i64, ey: i64)
    requires
        m.free_at(round_cell(px), round_cell(py)),
        m.free_at(round_cell(ex), round_cell(ey)),
        forall|i: int|
            1 <= i < sight_cells(px, py, ex, ey).len() ==> !wall_blocks(
                m,
                #[trigger] sight_cells(px, py, ex, ey)[i],
            ),
        forall|i: int|
            1 <= i < sight_cells(ex, ey, px, py).len() ==> !wall_blocks(
                m,
                #[trigger] sight_cells(ex, ey, px, py)[i],
            ),
    ensures
        spec_can_see(m, px, py, ex, ey),
        spec_can_see(m, ex, ey, px, py),
        spec_can_see(m, px, py, ex, ey) == spec_can_see(m, ex, ey, px, py),
{
    let f = sight_cells(px, py, ex, ey);
    if f.len() > 0 {
        assert(f[0] == (round_cell(px), round_cell(py)));
    }
    let b = sight_cells(ex, ey, px, py);
    if b.len() > 0 {
        assert(b[0] == (round_cell(ex), round_cell(ey)));
    }
}

} // verus!
