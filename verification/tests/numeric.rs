use raycaster::fp::cell_index;
use raycaster::fp::distance;
use raycaster::fp::fp_mul;
use raycaster::fp::isqrt;

const ONE: i64 = 65536;

#[test]
fn integer_square_roots_are_exact_floors() {
    assert_eq!(isqrt(0), 0);
    assert_eq!(isqrt(1), 1);
    assert_eq!(isqrt(2), 1);
    assert_eq!(isqrt(3), 1);
    assert_eq!(isqrt(4), 2);
    assert_eq!(isqrt(ONE * ONE), ONE);
    assert_eq!(isqrt(2 * ONE * ONE), 92681);
    assert_eq!(isqrt(i64::MAX), 3037000499);
}

#[test]
fn fixed_point_products_truncate_toward_zero() {
    assert_eq!(fp_mul(ONE, ONE), ONE);
    assert_eq!(fp_mul(-ONE, ONE / 2), -ONE / 2);
    assert_eq!(fp_mul(3, 3), 0);
    assert_eq!(fp_mul(-3, 3), 0);
    assert_eq!(fp_mul(3 * ONE, ONE / 2), 3 * ONE / 2);
}

#[test]
fn cells_are_floors_of_coordinates() {
    assert_eq!(cell_index(0), 0);
    assert_eq!(cell_index(ONE - 1), 0);
    assert_eq!(cell_index(ONE), 1);
    assert_eq!(cell_index(7 * ONE + ONE / 2), 7);
}

#[test]
fn euclidean_distance_in_map_units() {
    assert_eq!(distance(0, 0, 3 * ONE, 4 * ONE), 5 * ONE);
    assert_eq!(distance(ONE, ONE, ONE, ONE), 0);
    assert_eq!(distance(2 * ONE, 3 * ONE, 3 * ONE, 3 * ONE), ONE);
}
