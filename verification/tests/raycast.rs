use raycaster::GridMap;
use raycaster::ray::ColumnHit;
use raycaster::ray::HitKind;
use raycaster::ray::RayParams;
use raycaster::ray::Sign;
use raycaster::ray::cast_column;
use raycaster::ray::cast_frame;
use raycaster::screen::SCREEN_H;
use raycaster::screen::SCREEN_W;

const ONE: i64 = 65536;
const TRIG_MAX: i64 = 0x400_0000_0000;

fn bordered_map() -> GridMap {
    let mut cells = vec![vec![0u8; 8]; 8];
    for i in 0..8 {
        cells[0][i] = 1;
        cells[7][i] = 1;
        cells[i][0] = 1;
        cells[i][7] = 1;
    }
    GridMap { cells }
}

fn to_fp(v: f64) -> i64 {
    (v * 65536.0) as i64
}

fn clamp_trig(v: f64) -> i64 {
    let w = to_fp(v);
    if w > TRIG_MAX {
        TRIG_MAX
    } else if w < -TRIG_MAX {
        -TRIG_MAX
    } else {
        w
    }
}

/// The per-column ray description for a ray angle `ra` and heading `pa`,
/// both in radians.
fn params_for(ra: f64, pa: f64) -> RayParams {
    let s = ra.sin();
    let c = ra.cos();
    let ydir = if s > 0.0 {
        Sign::Pos
    } else if s < 0.0 {
        Sign::Neg
    } else {
        Sign::Zero
    };
    let xdir = if c > 0.0 {
        Sign::Pos
    } else if c < 0.0 {
        Sign::Neg
    } else {
        Sign::Zero
    };
    let tan = if c == 0.0 { 0 } else { clamp_trig(s / c) };
    let ctg = if s == 0.0 { 0 } else { clamp_trig(c / s) };
    let mut fish = to_fp((ra - pa).cos());
    if fish < 0 {
        fish = 0;
    }
    if fish > ONE {
        fish = ONE;
    }
    RayParams { xdir, ydir, tan, ctg, fish }
}

#[test]
fn axis_aligned_wall_one_unit_away() {
    let map = bordered_map();
    // player at (6.0, 3.5) looking along +x: the first vertical grid line
    // is x = 7, whose cell (7, 3) is the border wall, exactly 1 unit away
    let hit = cast_column(
        &map,
        6 * ONE,
        3 * ONE + ONE / 2,
        &RayParams { xdir: Sign::Pos, ydir: Sign::Zero, tan: 0, ctg: 0, fish: ONE },
    );
    assert_eq!(hit.kind, HitKind::VerticalEdge);
    assert_eq!(hit.dist, ONE);
    assert_eq!(hit.height, SCREEN_H);
}

#[test]
fn axis_aligned_horizontal_edge_one_unit_away() {
    let map = bordered_map();
    // player at (3.5, 6.0) looking along +y: the horizontal grid line y = 7
    // bounds the wall cell (3, 7), exactly 1 unit away
    let hit = cast_column(
        &map,
        3 * ONE + ONE / 2,
        6 * ONE,
        &RayParams { xdir: Sign::Zero, ydir: Sign::Pos, tan: 0, ctg: 0, fish: ONE },
    );
    assert_eq!(hit.kind, HitKind::HorizontalEdge);
    assert_eq!(hit.dist, ONE);
    assert_eq!(hit.height, SCREEN_H);
}

#[test]
fn nearer_pass_wins() {
    let map = bordered_map();
    // player at (6.5, 5.0) looking down-right at 45 degrees: the vertical
    // edge x = 7 is hit after 0.5 horizontal units, the horizontal edge
    // y = 6 after 1.0 vertical units; the vertical-edge hit is nearer
    let p = params_for(std::f64::consts::FRAC_PI_4, std::f64::consts::FRAC_PI_4);
    let hit = cast_column(&map, 6 * ONE + ONE / 2, 5 * ONE, &p);
    assert_eq!(hit.kind, HitKind::VerticalEdge);
}

#[test]
fn empty_room_frame_is_symmetric() {
    let map = bordered_map();
    let px = 4 * ONE;
    let py = 4 * ONE;
    let step = std::f64::consts::FRAC_PI_3 / SCREEN_W as f64;
    let mut params: Vec<RayParams> = Vec::new();
    for r in 0..SCREEN_W {
        let off = (r as f64 - (SCREEN_W / 2) as f64) * step;
        params.push(params_for(off, 0.0));
    }
    let hits: Vec<ColumnHit> = cast_frame(&map, px, py, &params);
    assert_eq!(hits.len(), SCREEN_W);
    for hit in &hits {
        assert!(hit.kind != HitKind::Miss);
        assert!(hit.height <= SCREEN_H);
        assert!(hit.height > 0);
    }
    // mirrored columns around the center see mirrored geometry
    for i in 1..SCREEN_W / 2 {
        assert_eq!(hits[i].height, hits[SCREEN_W - i].height);
        assert_eq!(hits[i].dist, hits[SCREEN_W - i].dist);
    }
    // the center column is at least as tall as the frame's edges
    let center = hits[SCREEN_W / 2].height;
    assert!(center >= hits[0].height);
    assert!(center >= hits[SCREEN_W - 1].height);
}

#[test]
fn ray_between_pillars_passes_them() {
    // pillar at (2, 2): a ray from (1.5, 2.5) along +x hits it at x = 2
    let mut cells = vec![vec![0u8; 8]; 8];
    for i in 0..8 {
        cells[0][i] = 1;
        cells[7][i] = 1;
        cells[i][0] = 1;
        cells[i][7] = 1;
    }
    cells[2][2] = 1;
    let map = GridMap { cells };
    let hit = cast_column(
        &map,
        ONE + ONE / 2,
        2 * ONE + ONE / 2,
        &RayParams { xdir: Sign::Pos, ydir: Sign::Zero, tan: 0, ctg: 0, fish: ONE },
    );
    assert_eq!(hit.kind, HitKind::VerticalEdge);
    assert_eq!(hit.dist, ONE / 2);
    // a slice nearer than one unit fills the whole screen
    assert_eq!(hit.height, SCREEN_H);
}

#[test]
fn miss_gives_zero_height() {
    // an unbounded open map: a ray parallel to both passes' families can
    // strike nothing
    let map = GridMap { cells: vec![vec![0u8; 8]; 8] };
    let hit = cast_column(
        &map,
        4 * ONE,
        4 * ONE,
        &RayParams { xdir: Sign::Zero, ydir: Sign::Zero, tan: 0, ctg: 0, fish: ONE },
    );
    assert_eq!(hit.kind, HitKind::Miss);
    assert_eq!(hit.height, 0);
    assert_eq!(hit.dist, 0);
}
