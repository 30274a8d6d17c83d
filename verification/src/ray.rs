use vstd::prelude::*;

use crate::fp;
use crate::map::GridMap;
use crate::screen::SCREEN_H;

verus! {

/// The direction of one component of a ray: negative, exactly zero
/// (parallel to the other axis family), or positive.
#[derive(Clone, Copy, PartialEq, Eq, Structural, Debug)]
pub enum Sign {
    Neg,
    Zero,
    Pos,
}

/// Which kind of wall edge a column's ray hit first, if any.
#[derive(Clone, Copy, PartialEq, Eq, Structural, Debug)]
pub enum HitKind {
    HorizontalEdge,
    VerticalEdge,
    Miss,
}

/// One column's ray, described by plain values: the sign of its x and y
/// components, its tangent and cotangent in 16.16 fixed point, and the
/// cosine of its offset from the view direction (the fisheye correction
/// factor), also in fixed point.
#[derive(Clone, Copy, PartialEq, Eq, Structural, Debug)]
pub struct RayParams {
    pub xdir: Sign,
    pub ydir: Sign,
    pub tan: i64,
    pub ctg: i64,
    pub fish: i64,
}

impl RayParams {
    /// Trigonometric values small enough that grid marching stays inside
    /// `i64`, and a correction cosine in `[0, 1]`.
    pub open spec fn wf(self) -> bool {
        &&& -0x400_0000_0000 <= self.tan <= 0x400_0000_0000
        &&& -0x400_0000_0000 <= self.ctg <= 0x400_0000_0000
        &&& 0 <= self.fish <= 65536
    }
}

/// One rendered column: the kind of edge hit, the fisheye-corrected
/// fixed-point distance to it (`0` for a miss), and the wall-slice height
/// in screen rows.
#[derive(Clone, Copy, PartialEq, Eq, Structural, Debug)]
pub struct ColumnHit {
    pub kind: HitKind,
    pub dist: i64,
    pub height: usize,
}

/// Grid-step marching: from `(rx, ry)`, repeatedly test the cell
/// `(cell(rx) + xoff, cell(ry) + yoff)` and advance by `(xo, yo)`, for at
/// most `steps` probes. The first in-bounds Wall cell stops the march and
/// yields the boundary point; cells outside the grid are skipped.
pub open spec fn march(
    m: GridMap,
    rx: int,
    ry: int,
    xo: int,
    yo: int,
    xoff: int,
    yoff: int,
    steps: nat,
) -> Option<(int, int)>
    decreases steps,
{
    if steps == 0 {
        None
    } else {
        let mx = rx / 65536 + xoff;
        let my = ry / 65536 + yoff;
        if m.in_bounds(mx, my) && !m.free_at(mx, my) {
            Some((rx, ry))
        } else {
            march(m, rx + xo, ry + yo, xo, yo, xoff, yoff, (steps - 1) as nat)
        }
    }
}

/// The horizontal-edge pass: the ray crosses successive horizontal grid
/// lines `y = k`; at each crossing the x coordinate follows the cotangent
/// relation. A ray with no y component never crosses one.
pub open spec fn h_pass(m: GridMap, px: int, py: int, p: RayParams) -> Option<(int, int)> {
    match p.ydir {
        Sign::Zero => None,
        Sign::Neg => {
            let ry0 = (py / 65536) * 65536;
            let rx0 = px + fp::mul_fp(ry0 - py, p.ctg as int);
            march(m, rx0, ry0, -p.ctg as int, -65536, 0, -1, m.spec_width() as nat)
        },
        Sign::Pos => {
            let ry0 = (py / 65536) * 65536 + 65536;
            let rx0 = px + fp::mul_fp(ry0 - py, p.ctg as int);
            march(m, rx0, ry0, p.ctg as int, 65536, 0, 0, m.spec_width() as nat)
        },
    }
}

/// The vertical-edge pass: the ray crosses successive vertical grid lines
/// `x = k`; at each crossing the y coordinate follows the tangent relation.
pub open spec fn v_pass(m: GridMap, px: int, py: int, p: RayParams) -> Option<(int, int)> {
    match p.xdir {
        Sign::Zero => None,
        Sign::Neg => {
            let rx0 = (px / 65536) * 65536;
            let ry0 = py + fp::mul_fp(rx0 - px, p.tan as int);
            march(m, rx0, ry0, -65536, -p.tan as int, -1, 0, m.spec_width() as nat)
        },
        Sign::Pos => {
            let rx0 = (px / 65536) * 65536 + 65536;
            let ry0 = py + fp::mul_fp(rx0 - px, p.tan as int);
            march(m, rx0, ry0, 65536, p.tan as int, 0, 0, m.spec_width() as nat)
        },
    }
}

/// The wall-slice height for a corrected fixed-point distance: at most the
/// screen height, a degenerate distance giving the full screen.
pub open spec fn spec_slice_height(d: int) -> int {
    if d <= 0 {
        SCREEN_H as int
    } else {
        let hh = (SCREEN_H as int * 65536) / d;
        if hh > SCREEN_H as int {
            SCREEN_H as int
        } else {
            hh
        }
    }
}

/// The column record for a hit at `pt` of kind `kind`, seen from
/// `(px, py)` by a ray with fisheye factor `fish`.
pub open spec fn spec_hit_record(px: int, py: int, pt: (int, int), kind: HitKind, fish: int) -> ColumnHit {
    let raw = fp::sqrt_floor(fp::dist_sq(px, py, pt.0, pt.1));
    let corr = fp::mul_fp(raw, fish);
    ColumnHit { kind, dist: corr as i64, height: spec_slice_height(corr) as usize }
}

/// What casting one column returns: the nearer of the two passes' hits
/// (ties favoring the horizontal pass), with its fisheye-corrected distance
/// and slice height; a miss when neither pass strikes a wall.
pub open spec fn spec_column(m: GridMap, px: int, py: int, p: RayParams) -> ColumnHit {
    let h = h_pass(m, px, py, p);
    let v = v_pass(m, px, py, p);
    match (h, v) {
        (Option::None, Option::None) => ColumnHit { kind: HitKind::Miss, dist: 0, height: 0 },
        (Option::Some(hp), Option::None) => spec_hit_record(px, py, hp, HitKind::HorizontalEdge, p.fish as int),
        (Option::None, Option::Some(vp)) => spec_hit_record(px, py, vp, HitKind::VerticalEdge, p.fish as int),
        (Option::Some(hp), Option::Some(vp)) => {
            if fp::dist_sq(px, py, vp.0, vp.1) < fp::dist_sq(px, py, hp.0, hp.1) {
                spec_hit_record(px, py, vp, HitKind::VerticalEdge, p.fish as int)
            } else {
                spec_hit_record(px, py, hp, HitKind::HorizontalEdge, p.fish as int)
            }
        },
    }
}

/// The product of a sub-cell offset (at most one map unit) and a bounded
/// trigonometric value, in fixed point.
fn offset_times_trig(d: i64, t: i64) -> (r: i64)
    requires
        -65536 <= d <= 65536,
        -0x400_0000_0000 <= t <= 0x400_0000_0000,
    ensures
        r == fp::mul_fp(d as int, t as int),
        -0x400_0000_0000 <= r <= 0x400_0000_0000,
{
    proof {
        assert(-(65536 * 0x400_0000_0000) <= d as int * t <= 65536 * 0x400_0000_0000)
            by (nonlinear_arith)
            requires
                -65536 <= d <= 65536,
                -0x400_0000_0000 <= t <= 0x400_0000_0000,
        ;
    }
    fp::fp_mul(d, t)
}

/// The executable grid-step march. Mirrors `march` exactly.
fn march_ray(
    map: &GridMap,
    rx0: i64,
    ry0: i64,
    xo: i64,
    yo: i64,
    xoff: i64,
    yoff: i64,
    steps: usize,
) -> (hit: Option<(i64, i64)>)
    requires
        map.wf(),
        steps <= 4096,
        -0x8_0000_0000_0000 <= rx0 <= 0x8_0000_0000_0000,
        -0x8_0000_0000_0000 <= ry0 <= 0x8_0000_0000_0000,
        -0x800_0000_0000 <= xo <= 0x800_0000_0000,
        -0x800_0000_0000 <= yo <= 0x800_0000_0000,
        xoff == 0 || xoff == -1,
        yoff == 0 || yoff == -1,
    ensures
        match hit {
            Option::Some(pt) => {
                &&& march(*map, rx0 as int, ry0 as int, xo as int, yo as int, xoff as int, yoff as int, steps as nat)
                    == Option::Some((pt.0 as int, pt.1 as int))
                &&& 0 <= pt.0 < (map.spec_width() + 1) * 65536
                &&& 0 <= pt.1 < (map.spec_height() + 1) * 65536
            },
            Option::None => march(*map, rx0 as int, ry0 as int, xo as int, yo as int, xoff as int, yoff as int, steps as nat)
                is None,
        },
{
    let w = map.width() as i64;
    let h = map.height() as i64;
    let mut rx = rx0;
    let mut ry = ry0;
    let mut dof: usize = 0;
    while dof < steps
        invariant
            map.wf(),
            w == map.spec_width(),
            h == map.spec_height(),
            dof <= steps <= 4096,
            -0x800_0000_0000 <= xo <= 0x800_0000_0000,
            -0x800_0000_0000 <= yo <= 0x800_0000_0000,
            xoff == 0 || xoff == -1,
            yoff == 0 || yoff == -1,
            -0x8_0000_0000_0000 <= rx0 <= 0x8_0000_0000_0000,
            -0x8_0000_0000_0000 <= ry0 <= 0x8_0000_0000_0000,
            -0x8_0000_0000_0000 - 0x800_0000_0000 * 4096 <= rx <= 0x8_0000_0000_0000
                + 0x800_0000_0000 * 4096,
            rx == rx0 + dof * xo,
            ry == ry0 + dof * yo,
            -0x8_0000_0000_0000 - 0x800_0000_0000 * 4096 <= ry <= 0x8_0000_0000_0000
                + 0x800_0000_0000 * 4096,
            march(*map, rx0 as int, ry0 as int, xo as int, yo as int, xoff as int, yoff as int, steps as nat)
                == march(*map, rx as int, ry as int, xo as int, yo as int, xoff as int, yoff as int, (steps - dof) as nat),
        decreases steps - dof,
    {
        let mut wall = false;
        let mut mx: i64 = 0;
        let mut my: i64 = 0;
        if rx >= 0 && ry >= 0 {
            mx = fp::cell_index(rx) + xoff;
            my = fp::cell_index(ry) + yoff;
            if 0 <= mx && mx < w && 0 <= my && my < h {
                if !map.is_free(mx as usize, my as usize) {
                    wall = true;
                }
            }
        }
        proof {
            let smx = rx as int / 65536 + xoff;
            let smy = ry as int / 65536 + yoff;
            if rx < 0 {
                assert(rx as int / 65536 < 0);
                assert(!map.in_bounds(smx, smy));
            }
            if ry < 0 {
                assert(ry as int / 65536 < 0);
                assert(!map.in_bounds(smx, smy));
            }
            assert(wall == (map.in_bounds(smx, smy) && !map.free_at(smx, smy)));
        }
        if wall {
            proof {
                let smx = rx as int / 65536 + xoff;
                let smy = ry as int / 65536 + yoff;
                assert(0 <= smx - xoff <= w);
                assert(65536 * (smx - xoff) <= rx < 65536 * (smx - xoff + 1));
                assert(rx < (w + 1) * 65536) by (nonlinear_arith)
                    requires
                        rx < 65536 * (smx - xoff + 1),
                        smx - xoff + 1 <= w + 1,
                ;
                assert(0 <= smy - yoff <= h);
                assert(65536 * (smy - yoff) <= ry < 65536 * (smy - yoff + 1));
                assert(ry < (h + 1) * 65536) by (nonlinear_arith)
                    requires
                        ry < 65536 * (smy - yoff + 1),
                        smy - yoff + 1 <= h + 1,
                ;
            }
            return Some((rx, ry));
        }
        rx = rx + xo;
        ry = ry + yo;
        dof = dof + 1;
        proof {
            assert(rx == rx0 + dof * xo && ry == ry0 + dof * yo && -0x8_0000_0000_0000
                - 0x800_0000_0000 * 4096 <= rx <= 0x8_0000_0000_0000 + 0x800_0000_0000 * 4096
                && -0x8_0000_0000_0000 - 0x800_0000_0000 * 4096 <= ry <= 0x8_0000_0000_0000
                + 0x800_0000_0000 * 4096) by (nonlinear_arith)
                requires
                    rx == (rx0 + (dof - 1) * xo) + xo,
                    ry == (ry0 + (dof - 1) * yo) + yo,
                    1 <= dof <= 4096,
                    -0x800_0000_0000 <= xo <= 0x800_0000_0000,
                    -0x800_0000_0000 <= yo <= 0x800_0000_0000,
                    -0x8_0000_0000_0000 <= rx0 <= 0x8_0000_0000_0000,
                    -0x8_0000_0000_0000 <= ry0 <= 0x8_0000_0000_0000,
            ;
        }
    }
    None
}

/// Builds the column record for a hit point.
fn hit_record(px: i64, py: i64, hx: i64, hy: i64, kind: HitKind, fish: i64) -> (hit: ColumnHit)
    requires
        0 <= px < 0x1000_0000,
        0 <= py < 0x1000_0000,
        0 <= hx < 0x1100_0000,
        0 <= hy < 0x1100_0000,
        0 <= fish <= 65536,
        kind != HitKind::Miss,
    ensures
        hit == spec_hit_record(px as int, py as int, (hx as int, hy as int), kind, fish as int),
{
    let raw = fp::distance(px, py, hx, hy);
    proof {
        assert(0 <= raw as int * fish && raw as int * fish <= raw as int * 65536 && raw as int
            * 65536 < 0x4000_0000_0000_0000) by (nonlinear_arith)
            requires
                0 <= raw <= 0x8000_0000,
                0 <= fish <= 65536,
        ;
    }
    let corr = fp::fp_mul(raw, fish);
    proof {
        assert(0 <= corr <= raw);
    }
    let height: usize = if corr <= 0 {
        SCREEN_H
    } else {
        let hh = (SCREEN_H as i64 * 65536) / corr;
        if hh > SCREEN_H as i64 {
            SCREEN_H
        } else {
            hh as usize
        }
    };
    ColumnHit { kind, dist: corr, height }
}

/// Casts one column's ray: runs the horizontal-edge and vertical-edge
/// passes, keeps the nearer hit (ties favor the horizontal pass), corrects
/// the distance for fisheye distortion and converts it to a slice height.
pub fn cast_column(map: &GridMap, px: i64, py: i64, p: &RayParams) -> (hit: ColumnHit)
    requires
        map.wf(),
        map.pos_in_bounds(px, py),
        p.wf(),
    ensures
        hit == spec_column(*map, px as int, py as int, *p),
{
    let w = map.width();
    proof {
        assert(map.spec_width() * 65536 <= 4096 * 65536) by (nonlinear_arith)
            requires
                map.spec_width() <= 4096,
        ;
        assert(map.spec_height() * 65536 <= 4096 * 65536) by (nonlinear_arith)
            requires
                map.spec_height() <= 4096,
        ;
    }
    // horizontal-edge pass
    let hhit: Option<(i64, i64)> = match p.ydir {
        Sign::Zero => None,
        Sign::Neg => {
            let ry0 = fp::cell_index(py) * 65536;
            let rx0 = px + offset_times_trig(ry0 - py, p.ctg);
            march_ray(map, rx0, ry0, -p.ctg, -65536, 0, -1, w)
        },
        Sign::Pos => {
            let ry0 = fp::cell_index(py) * 65536 + 65536;
            let rx0 = px + offset_times_trig(ry0 - py, p.ctg);
            march_ray(map, rx0, ry0, p.ctg, 65536, 0, 0, w)
        },
    };
    // vertical-edge pass
    let vhit: Option<(i64, i64)> = match p.xdir {
        Sign::Zero => None,
        Sign::Neg => {
            let rx0 = fp::cell_index(px) * 65536;
            let ry0 = py + offset_times_trig(rx0 - px, p.tan);
            march_ray(map, rx0, ry0, -65536, -p.tan, -1, 0, w)
        },
        Sign::Pos => {
            let rx0 = fp::cell_index(px) * 65536 + 65536;
            let ry0 = py + offset_times_trig(rx0 - px, p.tan);
            march_ray(map, rx0, ry0, 65536, p.tan, 0, 0, w)
        },
    };
    proof {
        assert(match hhit {
            Option::Some(pt) => h_pass(*map, px as int, py as int, *p) == Option::Some(
                (pt.0 as int, pt.1 as int),
            ),
            Option::None => h_pass(*map, px as int, py as int, *p) is None,
        });
        assert(match vhit {
            Option::Some(pt) => v_pass(*map, px as int, py as int, *p) == Option::Some(
                (pt.0 as int, pt.1 as int),
            ),
            Option::None => v_pass(*map, px as int, py as int, *p) is None,
        });
    }
    match (hhit, vhit) {
        (None, None) => ColumnHit { kind: HitKind::Miss, dist: 0, height: 0 },
        (Some(hp), None) => hit_record(px, py, hp.0, hp.1, HitKind::HorizontalEdge, p.fish),
        (None, Some(vp)) => hit_record(px, py, vp.0, vp.1, HitKind::VerticalEdge, p.fish),
        (Some(hp), Some(vp)) => {
            let dh = fp::distance_sq(px, py, hp.0, hp.1);
            let dv = fp::distance_sq(px, py, vp.0, vp.1);
            if dv < dh {
                hit_record(px, py, vp.0, vp.1, HitKind::VerticalEdge, p.fish)
            } else {
                hit_record(px, py, hp.0, hp.1, HitKind::HorizontalEdge, p.fish)
            }
        },
    }
}

/// Casts one ray per screen column: element `i` of the result is the
/// column record of ray `i`. The caller supplies one `RayParams` per
/// column, covering the field of view in column order.
pub fn cast_frame(map: &GridMap, px: i64, py: i64, params: &Vec<RayParams>) -> (hits: Vec<
    ColumnHit,
>)
    requires
        map.wf(),
        map.pos_in_bounds(px, py),
        forall|i: int| 0 <= i < params@.len() ==> (#[trigger] params@[i]).wf(),
    ensures
        hits@.len() == params@.len(),
        forall|i: int|
            0 <= i < params@.len() ==> #[trigger] hits@[i] == spec_column(
                *map,
                px as int,
                py as int,
                params@[i],
            ),
{
    let mut hits: Vec<ColumnHit> = Vec::new();
    let n = params.len();
    for r in 0..n
        invariant
            map.wf(),
            map.pos_in_bounds(px, py),
            n == params@.len(),
            forall|i: int| 0 <= i < params@.len() ==> (#[trigger] params@[i]).wf(),
            hits@.len() == r,
            forall|i: int|
                0 <= i < r ==> #[trigger] hits@[i] == spec_column(
                    *map,
                    px as int,
                    py as int,
                    params@[i],
                ),
    {
        let hit = cast_column(map, px, py, &params[r]);
        hits.push(hit);
    }
    hits
}

} // verus!
