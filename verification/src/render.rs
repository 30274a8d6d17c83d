use vstd::prelude::*;

use crate::fp;
use crate::ray::ColumnHit;
use crate::ray::HitKind;
use crate::screen::SCREEN_H;
use crate::screen::SCREEN_W;
use crate::screen::draw_cells;
use crate::screen::draw_line;
use crate::screen::line_cells;
use crate::screen::screen_wf;

verus! {

/// Half the field of view (30 degrees) in fixed-point radians.
pub const HALF_FOV: i64 = 34315;

/// Screen columns per fixed-point radian of angular offset:
/// `SCREEN_W / (2 * HALF_FOV)` in fixed point.
pub const FOV_SCALE: i64 = 20026326;

/// The largest billboard edge, in screen cells.
pub const MAX_SPRITE: i64 = 140;

/// The glyph that a column's wall slice is drawn with: vertical-edge hits
/// render distinctly from horizontal-edge ones.
pub open spec fn glyph_of(k: HitKind) -> char {
    match k {
        HitKind::VerticalEdge => '|',
        _ => '-',
    }
}

/// The top row of a centered wall slice of height `h`.
pub open spec fn slice_top(h: int) -> int {
    SCREEN_H as int / 2 - h / 2
}

/// Whether row `yy` lies inside the centered wall slice of height `h`.
pub open spec fn slice_covers(h: int, yy: int) -> bool {
    slice_top(h) <= yy < slice_top(h) + h
}

/// The cells of a vertical drawn line are exactly the column segment from
/// `y0` up to but excluding `y1`.
proof fn lemma_vertical_cells(x: int, y: int, y1: int, dy: int, fuel: nat)
    requires
        0 <= y1 - y <= fuel,
        dy >= 1,
        dy >= y1 - y,
    ensures
        forall|c: (int, int)|
            line_cells(x, y, x, y1, -dy, 0, dy, -1, 1, fuel).contains(c) <==> (c.0 == x && y
                <= c.1 < y1),
    decreases y1 - y,
{
    let s = line_cells(x, y, x, y1, -dy, 0, dy, -1, 1, fuel);
    if y == y1 {
        assert forall|c: (int, int)| s.contains(c) implies false by {
            let i = choose|i: int| 0 <= i < s.len() && s[i] == c;
        }
    } else {
        lemma_vertical_cells(x, y + 1, y1, dy, (fuel - 1) as nat);
        let rest = line_cells(x, y + 1, x, y1, -dy, 0, dy, -1, 1, (fuel - 1) as nat);
        assert(s =~= seq![(x, y)] + rest);
        assert forall|c: (int, int)| s.contains(c) implies (c.0 == x && y <= c.1 < y1) by {
            let i = choose|i: int| 0 <= i < s.len() && s[i] == c;
            if i == 0 {
            } else {
                assert(rest[i - 1] == c);
                assert(rest.contains(c));
            }
        }
        assert forall|c: (int, int)| c.0 == x && y <= c.1 < y1 implies s.contains(c) by {
            if c.1 == y {
                assert(s[0] == c);
            } else {
                assert(rest.contains(c));
                let i = choose|i: int| 0 <= i < rest.len() && rest[i] == c;
                assert(s[i + 1] == c);
            }
        }
    }
}

/// The painted cells of a vertical line drawn downward.
proof fn lemma_vertical_draw_cells(x: int, y0: int, y1: int)
    requires
        0 <= y0 <= y1,
    ensures
        forall|c: (int, int)|
            draw_cells(x, y0, x, y1).contains(c) <==> (c.0 == x && y0 <= c.1 < y1),
{
    if y0 == y1 {
        let s = draw_cells(x, y0, x, y1);
        assert forall|c: (int, int)| s.contains(c) implies false by {
            let i = choose|i: int| 0 <= i < s.len() && s[i] == c;
        }
    } else {
        lemma_vertical_cells(x, y0, y1, y1 - y0, (y1 - y0) as nat);
    }
}

/// The frame `s` holds `s0` with the wall slices of the first `upto`
/// columns of `hits` painted over it.
pub open spec fn walls_painted(
    s0: Seq<Vec<char>>,
    s: Seq<Vec<char>>,
    hits: Seq<ColumnHit>,
    upto: int,
) -> bool {
    forall|yy: int, xx: int|
        0 <= yy < SCREEN_H && 0 <= xx < SCREEN_W ==> s[yy]@[xx] == (if xx < upto && slice_covers(
            hits[xx].height as int,
            yy,
        ) {
            glyph_of(hits[xx].kind)
        } else {
            s0[yy]@[xx]
        })
}

/// Draws every column's wall slice: element `r` of `hits` paints the
/// centered vertical run of its glyph in column `r`; all other cells keep
/// their contents.
pub fn render_walls(screen: &mut Vec<Vec<char>>, hits: &Vec<ColumnHit>)
    requires
        screen_wf(old(screen)@),
        hits@.len() <= SCREEN_W,
        forall|i: int| 0 <= i < hits@.len() ==> (#[trigger] hits@[i]).height <= SCREEN_H,
    ensures
        screen_wf(final(screen)@),
        walls_painted(old(screen)@, final(screen)@, hits@, hits@.len() as int),
{
    let ghost s0 = old(screen)@;
    let n = hits.len();
    let mut r: usize = 0;
    while r < n
        invariant
            screen_wf(screen@),
            n == hits@.len() <= SCREEN_W,
            r <= n,
            forall|i: int| 0 <= i < hits@.len() ==> (#[trigger] hits@[i]).height <= SCREEN_H,
            walls_painted(s0, screen@, hits@, r as int),
        decreases n - r,
    {
        let hit = &hits[r];
        let height = hit.height;
        let tmp = SCREEN_H / 2 - height / 2;
        let c: char = match hit.kind {
            HitKind::VerticalEdge => '|',
            _ => '-',
        };
        let ghost sprev = screen@;
        draw_line(screen, r, tmp, r, tmp + height, c);
        proof {
            lemma_vertical_draw_cells(r as int, tmp as int, tmp as int + height as int);
            assert forall|yy: int, xx: int| 0 <= yy < SCREEN_H && 0 <= xx < SCREEN_W implies
                screen@[yy]@[xx] == (if xx < r + 1 && slice_covers(hits@[xx].height as int, yy) {
                    glyph_of(hits@[xx].kind)
                } else {
                    s0[yy]@[xx]
                }) by {
                assert(sprev[yy]@[xx] == (if xx < r && slice_covers(hits@[xx].height as int, yy) {
                    glyph_of(hits@[xx].kind)
                } else {
                    s0[yy]@[xx]
                }));
                let prevval = sprev[yy]@[xx];
                let dc = draw_cells(r as int, tmp as int, r as int, tmp as int + height as int);
                assert(screen@[yy]@[xx] == (if dc.contains((xx, yy)) {
                    c
                } else {
                    prevval
                }));
                assert(dc.contains((xx, yy)) <==> (xx == r as int && tmp <= yy < tmp + height));
            }
        }
        r = r + 1;
    }
}

/// The billboard edge length for a fixed-point distance: shrinking with
/// the square of the distance (`MAX_SPRITE / (d*d/5 + 1)` in map units),
/// clamped to `[1, MAX_SPRITE]`.
pub open spec fn sprite_size(dist: int) -> int {
    let sf = fp::mul_fp(dist, dist) / 5 + 65536;
    let raw = (MAX_SPRITE as int * 65536) / sf;
    if raw < 1 {
        1
    } else if raw > MAX_SPRITE as int {
        MAX_SPRITE as int
    } else {
        raw
    }
}

/// The leftmost column of the billboard for an angular offset `ang` (in
/// fixed-point radians, within the field of view): the offset mapped
/// linearly across the screen, rounded, less half the sprite.
pub open spec fn sprite_left(ang: int, size: int) -> int {
    (fp::mul_fp(ang + HALF_FOV as int, FOV_SCALE as int) + 32768) / 65536 - size / 2
}

/// The top row of the vertically centered billboard.
pub open spec fn sprite_top(size: int) -> int {
    SCREEN_H as int / 2 - size / 2
}

/// Whether the billboard for offset `ang` and distance `dist` covers the
/// screen cell `(xx, yy)`.
pub open spec fn sprite_covers(ang: int, dist: int, xx: int, yy: int) -> bool {
    let size = sprite_size(dist);
    &&& sprite_left(ang, size) <= xx < sprite_left(ang, size) + size
    &&& sprite_top(size) <= yy < sprite_top(size) + size
}

/// Draws the enemy billboard: if the angular offset `ang` of the enemy from
/// the view direction is within half the field of view, paints an `'E'`
/// square sized by inverse-square distance falloff, centered vertically and
/// placed horizontally by the offset; clipped to the screen. Outside the
/// field of view nothing changes.
pub fn render_enemy(screen: &mut Vec<Vec<char>>, ang: i64, dist: i64)
    requires
        screen_wf(old(screen)@),
        -0x100000 <= ang <= 0x100000,
        0 <= dist <= 0x4000_0000,
    ensures
        screen_wf(final(screen)@),
        forall|yy: int, xx: int|
            0 <= yy < SCREEN_H && 0 <= xx < SCREEN_W ==> final(screen)@[yy]@[xx] == (
            if -HALF_FOV <= ang <= HALF_FOV && sprite_covers(ang as int, dist as int, xx, yy) {
                'E'
            } else {
                old(screen)@[yy]@[xx]
            }),
{
    let ghost s0 = old(screen)@;
    if !(-HALF_FOV <= ang && ang <= HALF_FOV) {
        return ;
    }
    proof {
        assert(0 <= dist as int * dist <= 0x4000_0000 * 0x4000_0000) by (nonlinear_arith)
            requires
                0 <= dist <= 0x4000_0000,
        ;
    }
    let dsq = fp::fp_mul(dist, dist);
    let sf = dsq / 5 + 65536;
    let raw = (MAX_SPRITE * 65536) / sf;
    let size: i64 = if raw < 1 {
        1
    } else if raw > MAX_SPRITE {
        MAX_SPRITE
    } else {
        raw
    };
    proof {
        assert(0 <= (ang + HALF_FOV) as int * FOV_SCALE <= 0x200000 * 0x2000000)
            by (nonlinear_arith)
            requires
                0 <= ang + HALF_FOV <= 0x200000,
                FOV_SCALE == 20026326,
        ;
    }
    let pos = (fp::fp_mul(ang + HALF_FOV, FOV_SCALE) + 32768) / 65536;
    let left = pos - size / 2;
    let top = SCREEN_H as i64 / 2 - size / 2;
    let ghost sz = size as int;
    let mut i: i64 = 0;
    while i < size
        invariant
            screen_wf(screen@),
            1 <= size <= MAX_SPRITE,
            sz == sprite_size(dist as int),
            size == sz,
            left == sprite_left(ang as int, sz),
            top == sprite_top(sz),
            -0x1_0000_0000 <= left <= 0x1_0000_0000,
            0 <= top <= SCREEN_H as int / 2,
            0 <= i <= size,
            forall|yy: int, xx: int|
                0 <= yy < SCREEN_H && 0 <= xx < SCREEN_W ==> screen@[yy]@[xx] == (
                if left <= xx < left + size && top <= yy < top + i {
                    'E'
                } else {
                    s0[yy]@[xx]
                }),
        decreases size - i,
    {
        let y = top + i;
        let mut j: i64 = 0;
        while j < size
            invariant
                screen_wf(screen@),
                1 <= size <= MAX_SPRITE,
                -0x1_0000_0000 <= left <= 0x1_0000_0000,
                0 <= top <= SCREEN_H as int / 2,
                0 <= i < size,
                y == top + i,
                0 <= j <= size,
                forall|yy: int, xx: int|
                    0 <= yy < SCREEN_H && 0 <= xx < SCREEN_W ==> screen@[yy]@[xx] == (
                    if (left <= xx < left + size && top <= yy < top + i) || (yy == y && left <= xx
                        < left + j) {
                        'E'
                    } else {
                        s0[yy]@[xx]
                    }),
            decreases size - j,
        {
            let x = left + j;
            if 0 <= x && x < SCREEN_W as i64 && 0 <= y && y < SCREEN_H as i64 {
                proof {
                    assert(screen@[y as int]@.len() == SCREEN_W);
                }
                screen[y as usize][x as usize] = 'E';
            }
            j = j + 1;
        }
        i = i + 1;
    }
}

} // verus!
