use vstd::prelude::*;

use crate::util::filled_grid;

verus! {

/// The frame buffer width, in character cells.
pub const SCREEN_W: usize = 320;

/// The frame buffer height, in character cells.
pub const SCREEN_H: usize = 160;

/// A well-formed frame buffer: `SCREEN_H` rows of `SCREEN_W` characters,
/// indexed `[row][column]`.
pub open spec fn screen_wf(s: Seq<Vec<char>>) -> bool {
    &&& s.len() == SCREEN_H
    &&& forall|y: int| 0 <= y < s.len() ==> (#[trigger] s[y])@.len() == SCREEN_W
}

/// A fresh frame buffer, every cell holding `'.'`.
pub fn get_screen() -> (s: Vec<Vec<char>>)
    ensures
        screen_wf(s@),
        forall|y: int, x: int|
            0 <= y < SCREEN_H && 0 <= x < SCREEN_W ==> s@[y]@[x] == '.',
{
    filled_grid(SCREEN_W, SCREEN_H, '.')
}

/// Clears every cell of the frame buffer to a blank.
pub fn reset_screen(screen: &mut Vec<Vec<char>>)
    ensures
        screen_wf(final(screen)@),
        forall|y: int, x: int|
            0 <= y < SCREEN_H && 0 <= x < SCREEN_W ==> final(screen)@[y]@[x] == ' ',
{
    *screen = filled_grid(SCREEN_W, SCREEN_H, ' ');
}

/// The cells that the integer error-accumulation line walk from `(x, y)`
/// toward `(x1, y1)` visits, the start cell included and the end cell
/// excluded. `dx, dy >= 0` are the axis distances, `sx`/`sy` the step
/// directions, `err` the running error; `fuel` bounds the walk.
pub open spec fn line_cells(
    x: int,
    y: int,
    x1: int,
    y1: int,
    err: int,
    dx: int,
    dy: int,
    sx: int,
    sy: int,
    fuel: nat,
) -> Seq<(int, int)>
    decreases fuel,
{
    if (x == x1 && y == y1) || fuel == 0 {
        Seq::empty()
    } else {
        let e2 = 2 * err;
        let nx = if e2 > -dy { x + sx } else { x };
        let e1 = if e2 > -dy { err - dy } else { err };
        let ny = if e2 < dx { y + sy } else { y };
        let ne = if e2 < dx { e1 + dx } else { e1 };
        seq![(x, y)] + line_cells(nx, ny, x1, y1, ne, dx, dy, sx, sy, (fuel - 1) as nat)
    }
}

/// The cells that drawing a line from `(x0, y0)` to `(x1, y1)` paints:
/// the rasterized walk, end point excluded.
pub open spec fn draw_cells(x0: int, y0: int, x1: int, y1: int) -> Seq<(int, int)> {
    let dx = if x1 >= x0 { x1 - x0 } else { x0 - x1 };
    let dy = if y1 >= y0 { y1 - y0 } else { y0 - y1 };
    let sx: int = if x0 < x1 { 1 } else { -1 };
    let sy: int = if y0 < y1 { 1 } else { -1 };
    line_cells(x0, y0, x1, y1, dx - dy, dx, dy, sx, sy, (dx + dy) as nat)
}

/// Arithmetic facts about one step of the line walk: the error term stays
/// bounded, and an axis at its target never steps past it.
proof fn lemma_line_step(dx: int, dy: int, cx: int, cy: int, err: int)
    requires
        0 <= dx <= 0x1000_0000,
        0 <= dy <= 0x1000_0000,
        0 <= cx <= dx,
        0 <= cy <= dy,
        !(cx == dx && cy == dy),
        err == dx - dy - cx * dy + cy * dx,
    ensures
        -0x2000_0000_0000_0000 <= err <= 0x2000_0000_0000_0000,
        cx == dx ==> !(2 * err > -dy),
        cy == dy ==> !(2 * err < dx),
{
    assert(-0x2000_0000_0000_0000 <= err <= 0x2000_0000_0000_0000) by (nonlinear_arith)
        requires
            0 <= dx <= 0x1000_0000,
            0 <= dy <= 0x1000_0000,
            0 <= cx <= dx,
            0 <= cy <= dy,
            err == dx - dy - cx * dy + cy * dx,
    ;
    if cx == dx {
        assert(2 * err <= -dy) by (nonlinear_arith)
            requires
                0 <= dx,
                0 <= cy <= dy - 1,
                err == dx - dy - dx * dy + cy * dx,
        ;
    }
    if cy == dy {
        assert(2 * err >= dx) by (nonlinear_arith)
            requires
                0 <= cx <= dx - 1,
                0 <= dy,
                err == dx - dy - cx * dy + dy * dx,
    ;
    }
}

/// Draws the rasterized line from `(x0, y0)` toward `(x1, y1)` in glyph
/// `c`, painting every visited cell that lies on the screen; the end point
/// itself is not painted, and nothing else changes.
pub fn draw_line(
    matrix: &mut Vec<Vec<char>>,
    x0: usize,
    y0: usize,
    x1: usize,
    y1: usize,
    c: char,
)
    requires
        screen_wf(old(matrix)@),
        x0 <= 0x1000_0000 && y0 <= 0x1000_0000 && x1 <= 0x1000_0000 && y1 <= 0x1000_0000,
    ensures
        screen_wf(final(matrix)@),
        forall|yy: int, xx: int|
            0 <= yy < SCREEN_H && 0 <= xx < SCREEN_W ==> final(matrix)@[yy]@[xx] == (
            if draw_cells(x0 as int, y0 as int, x1 as int, y1 as int).contains((xx, yy)) {
                c
            } else {
                old(matrix)@[yy]@[xx]
            }),
{
    let ghost m0 = old(matrix)@;
    let dx: i64 = if x1 >= x0 {
        x1 as i64 - x0 as i64
    } else {
        x0 as i64 - x1 as i64
    };
    let dy: i64 = if y1 >= y0 {
        y1 as i64 - y0 as i64
    } else {
        y0 as i64 - y1 as i64
    };
    let sx: i64 = if x0 < x1 {
        1
    } else {
        -1
    };
    let sy: i64 = if y0 < y1 {
        1
    } else {
        -1
    };
    let mut err: i64 = dx - dy;
    let mut x = x0 as i64;
    let mut y = y0 as i64;
    let xg = x1 as i64;
    let yg = y1 as i64;
    let ghost full = draw_cells(x0 as int, y0 as int, x1 as int, y1 as int);
    let ghost mut done: Seq<(int, int)> = Seq::empty();
    let ghost mut cx: int = 0;
    let ghost mut cy: int = 0;
    let ghost mut fuel: nat = (dx + dy) as nat;
    while x != xg || y != yg
        invariant
            screen_wf(matrix@),
            0 <= dx <= 0x1000_0000,
            0 <= dy <= 0x1000_0000,
            sx == 1 || sx == -1,
            sy == 1 || sy == -1,
            sx == 1 ==> xg - x0 == dx,
            sx == -1 ==> x0 as int - xg == dx,
            sy == 1 ==> yg - y0 == dy,
            sy == -1 ==> y0 as int - yg == dy,
            0 <= x0 <= 0x1000_0000 && 0 <= xg <= 0x1000_0000,
            0 <= y0 <= 0x1000_0000 && 0 <= yg <= 0x1000_0000,
            0 <= cx <= dx,
            0 <= cy <= dy,
            x == x0 + cx * sx,
            y == y0 + cy * sy,
            err == dx - dy - cx * dy + cy * dx,
            fuel >= (dx - cx) + (dy - cy),
            full == draw_cells(x0 as int, y0 as int, x1 as int, y1 as int),
            full == done + line_cells(
                x as int,
                y as int,
                xg as int,
                yg as int,
                err as int,
                dx as int,
                dy as int,
                sx as int,
                sy as int,
                fuel,
            ),
            forall|yy: int, xx: int|
                0 <= yy < SCREEN_H && 0 <= xx < SCREEN_W ==> matrix@[yy]@[xx] == (
                if done.contains((xx, yy)) {
                    c
                } else {
                    m0[yy]@[xx]
                }),
        decreases fuel,
    {
        proof {
            assert((x == x0 + cx * sx && 0 <= cx <= dx && (sx == 1 || sx == -1) && (sx == 1
                ==> xg - x0 == dx) && (sx == -1 ==> x0 as int - xg == dx)) ==> (x0 <= x <= xg
                || xg <= x <= x0)) by (nonlinear_arith);
            assert((y == y0 + cy * sy && 0 <= cy <= dy && (sy == 1 || sy == -1) && (sy == 1
                ==> yg - y0 == dy) && (sy == -1 ==> y0 as int - yg == dy)) ==> (y0 <= y <= yg
                || yg <= y <= y0)) by (nonlinear_arith);
            assert(0 <= x <= 0x1000_0000 && 0 <= y <= 0x1000_0000);
            lemma_line_step(dx as int, dy as int, cx, cy, err as int);
            assert(fuel > 0);
        }
        let ghost mprev = matrix@;
        let ghost prevd = done;
        let ghost oldx = x as int;
        let ghost oldy = y as int;
        let ghost olderr = err as int;
        if x < SCREEN_W as i64 && y < SCREEN_H as i64 {
            proof {
                assert(matrix@[y as int]@.len() == SCREEN_W);
            }
            matrix[y as usize][x as usize] = c;
        }
        let e2 = 2 * err;
        proof {
            let rest = line_cells(
                oldx,
                oldy,
                xg as int,
                yg as int,
                olderr,
                dx as int,
                dy as int,
                sx as int,
                sy as int,
                fuel,
            );
            assert(rest[0] == (oldx, oldy));
            done = done.push((oldx, oldy));
            assert forall|z: (int, int)| #[trigger] done.contains(z) implies prevd.contains(z)
                || z == (oldx, oldy) by {
                let idx = choose|idx: int| 0 <= idx < done.len() && done[idx] == z;
                if idx < prevd.len() {
                    assert(prevd[idx] == z);
                }
            }
            assert(done[done.len() - 1] == (oldx, oldy));
            assert(done.contains((oldx, oldy)));
            assert forall|z: (int, int)| #[trigger] prevd.contains(z) implies done.contains(z) by {
                let idx = choose|idx: int| 0 <= idx < prevd.len() && prevd[idx] == z;
                assert(done[idx] == z);
            }
        }
        if e2 > -dy {
            err = err - dy;
            x = x + sx;
            proof {
                assert((cx + 1) * sx == cx * sx + sx) by (nonlinear_arith);
                assert((cx + 1) * dy == cx * dy + dy) by (nonlinear_arith);
                cx = cx + 1;
            }
        }
        if e2 < dx {
            err = err + dx;
            y = y + sy;
            proof {
                assert((cy + 1) * sy == cy * sy + sy) by (nonlinear_arith);
                assert((cy + 1) * dx == cy * dx + dx) by (nonlinear_arith);
                cy = cy + 1;
            }
        }
        proof {
            let rest = line_cells(
                oldx,
                oldy,
                xg as int,
                yg as int,
                olderr,
                dx as int,
                dy as int,
                sx as int,
                sy as int,
                fuel,
            );
            fuel = (fuel - 1) as nat;
            assert(rest =~= seq![(oldx, oldy)] + line_cells(
                x as int,
                y as int,
                xg as int,
                yg as int,
                err as int,
                dx as int,
                dy as int,
                sx as int,
                sy as int,
                fuel,
            ));
            assert(full =~= done + line_cells(
                x as int,
                y as int,
                xg as int,
                yg as int,
                err as int,
                dx as int,
                dy as int,
                sx as int,
                sy as int,
                fuel,
            ));
            // the paint of the visited cell keeps the pointwise account
            assert forall|yy: int, xx: int| 0 <= yy < SCREEN_H && 0 <= xx < SCREEN_W implies
                matrix@[yy]@[xx] == (if done.contains((xx, yy)) {
                    c
                } else {
                    m0[yy]@[xx]
                }) by {
                assert(mprev[yy]@[xx] == (if prevd.contains((xx, yy)) {
                    c
                } else {
                    m0[yy]@[xx]
                }));
                if yy == oldy && xx == oldx {
                    assert(matrix@[yy]@[xx] == c);
                    assert(done.contains((xx, yy)));
                } else {
                    assert(matrix@[yy]@[xx] == mprev[yy]@[xx]);
                    assert(done.contains((xx, yy)) == prevd.contains((xx, yy)));
                }
            }
        }
    }
    proof {
        assert(line_cells(
            x as int,
            y as int,
            xg as int,
            yg as int,
            err as int,
            dx as int,
            dy as int,
            sx as int,
            sy as int,
            fuel,
        ) =~= Seq::empty());
        assert(full =~= done);
    }
}

} // verus!
