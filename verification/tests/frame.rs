use raycaster::ray::ColumnHit;
use raycaster::ray::HitKind;
use raycaster::render::render_enemy;
use raycaster::render::render_walls;
use raycaster::screen::SCREEN_H;
use raycaster::screen::SCREEN_W;
use raycaster::screen::draw_line;
use raycaster::screen::get_screen;
use raycaster::screen::reset_screen;

const ONE: i64 = 65536;

#[test]
fn fresh_screen_is_dotted() {
    let s = get_screen();
    assert_eq!(s.len(), SCREEN_H);
    for row in &s {
        assert_eq!(row.len(), SCREEN_W);
        assert!(row.iter().all(|&c| c == '.'));
    }
}

#[test]
fn reset_blanks_every_cell() {
    let mut s = get_screen();
    s[3][4] = 'x';
    reset_screen(&mut s);
    assert_eq!(s.len(), SCREEN_H);
    for row in &s {
        assert_eq!(row.len(), SCREEN_W);
        assert!(row.iter().all(|&c| c == ' '));
    }
}

#[test]
fn diagonal_line_paints_up_to_the_end_point() {
    let mut s = get_screen();
    reset_screen(&mut s);
    draw_line(&mut s, 0, 0, 3, 3, '*');
    assert_eq!(s[0][0], '*');
    assert_eq!(s[1][1], '*');
    assert_eq!(s[2][2], '*');
    // the end point itself is never painted
    assert_eq!(s[3][3], ' ');
    assert_eq!(s[0][1], ' ');
    assert_eq!(s[1][0], ' ');
}

#[test]
fn vertical_line_paints_a_column_run() {
    let mut s = get_screen();
    reset_screen(&mut s);
    draw_line(&mut s, 10, 5, 10, 9, '|');
    for y in 5..9 {
        assert_eq!(s[y][10], '|');
    }
    assert_eq!(s[9][10], ' ');
    assert_eq!(s[5][9], ' ');
    assert_eq!(s[5][11], ' ');
}

#[test]
fn wall_slices_are_centered_per_column() {
    let mut s = get_screen();
    reset_screen(&mut s);
    let hits = vec![
        ColumnHit { kind: HitKind::VerticalEdge, dist: ONE, height: SCREEN_H },
        ColumnHit { kind: HitKind::HorizontalEdge, dist: 4 * ONE, height: 40 },
        ColumnHit { kind: HitKind::Miss, dist: 0, height: 0 },
    ];
    render_walls(&mut s, &hits);
    // column 0: full-height vertical-edge glyph
    for y in 0..SCREEN_H {
        assert_eq!(s[y][0], '|');
    }
    // column 1: 40 rows centered at 80, rows 60..100
    for y in 0..SCREEN_H {
        if (60..100).contains(&y) {
            assert_eq!(s[y][1], '-');
        } else {
            assert_eq!(s[y][1], ' ');
        }
    }
    // column 2: a miss draws nothing
    for y in 0..SCREEN_H {
        assert_eq!(s[y][2], ' ');
    }
    // untouched columns stay blank
    assert_eq!(s[80][3], ' ');
}

#[test]
fn enemy_billboard_shrinks_with_distance() {
    let mut s = get_screen();
    reset_screen(&mut s);
    // 3 map units straight ahead: size 50, left column 135, top row 55
    render_enemy(&mut s, 0, 3 * ONE);
    for y in 55..105 {
        for x in 135..185 {
            assert_eq!(s[y][x], 'E');
        }
    }
    assert_eq!(s[54][135], ' ');
    assert_eq!(s[55][134], ' ');
    assert_eq!(s[105][184], ' ');
    assert_eq!(s[104][185], ' ');
}

#[test]
fn enemy_outside_the_fov_is_not_drawn() {
    let mut s = get_screen();
    reset_screen(&mut s);
    // one radian to the side is beyond the 30-degree half field of view
    render_enemy(&mut s, ONE, 2 * ONE);
    for row in &s {
        assert!(row.iter().all(|&c| c == ' '));
    }
}
