//! Exact expected values for the geometric primitives.

use xpbd::balls::closest_point_on_segment;
use xpbd::fixed::{fx_div, fx_mul, isqrt_u128, SCALE};
use xpbd::intersect::{ray_sphere_intersect, ray_triangle_intersect, Ray};
use xpbd::skinning::{mat_get_determinant, mat_set_inverse, mat_set_mult, Mat3};
use xpbd::spatial_hash::{floor_div, SpatialHash};
use xpbd::vec3::Vec3;

fn v(x: i64, y: i64, z: i64) -> Vec3 {
    Vec3 { x, y, z }
}

#[test]
fn fixed_point_products_and_quotients() {
    // 2 * 3 = 6, 1 / 4 = 0.25, in raw millionths.
    assert_eq!(fx_mul(2 * SCALE, 3 * SCALE), 6 * SCALE);
    assert_eq!(fx_div(SCALE, 4 * SCALE), 250_000);
    // Rounding is toward zero on both signs.
    assert_eq!(fx_mul(-1_500_000, 1_500_000), -2_250_000);
    assert_eq!(fx_div(-SCALE, 3 * SCALE), -333_333);
}

#[test]
fn integer_square_roots_are_exact() {
    assert_eq!(isqrt_u128(0), 0);
    assert_eq!(isqrt_u128(1), 1);
    assert_eq!(isqrt_u128(144), 12);
    assert_eq!(isqrt_u128(145), 12);
    assert_eq!(isqrt_u128(1_000_000_000_000), 1_000_000);
}

#[test]
fn vector_length_of_pythagorean_triple() {
    // (3, 4, 0) has length exactly 5.
    let a = v(3 * SCALE, 4 * SCALE, 0);
    assert_eq!(a.length(), 5 * SCALE);
}

#[test]
fn floor_division_rounds_toward_negative_infinity() {
    assert_eq!(floor_div(7, 2), 3);
    assert_eq!(floor_div(-7, 2), -4);
    assert_eq!(floor_div(-8, 2), -4);
    assert_eq!(floor_div(0, 5), 0);
}

#[test]
fn ray_hits_sphere_at_both_roots() {
    // A unit sphere five units ahead: entry at four, exit at six.
    let ray = Ray { origin: v(0, 0, -5 * SCALE), direction: v(0, 0, SCALE) };
    let hit = ray_sphere_intersect(ray, v(0, 0, 0), SCALE);
    assert_eq!(hit, Some((4 * SCALE, 6 * SCALE)));
}

#[test]
fn ray_misses_sphere_off_axis() {
    let ray = Ray { origin: v(5 * SCALE, 0, -5 * SCALE), direction: v(0, 0, SCALE) };
    let hit = ray_sphere_intersect(ray, v(0, 0, 0), SCALE);
    assert_eq!(hit, None);
}

#[test]
fn ray_hits_triangle_at_distance() {
    // A large triangle in the plane five units ahead, pierced at its
    // interior: the hit parameter is exactly five.
    let ray = Ray { origin: v(0, 0, 0), direction: v(0, 0, SCALE) };
    let hit = ray_triangle_intersect(
        ray,
        v(-SCALE, -SCALE, 5 * SCALE),
        v(3 * SCALE, -SCALE, 5 * SCALE),
        v(-SCALE, 3 * SCALE, 5 * SCALE),
    );
    assert_eq!(hit, Some(5 * SCALE));
}

#[test]
fn ray_misses_triangle_behind_origin() {
    let ray = Ray { origin: v(0, 0, 0), direction: v(0, 0, SCALE) };
    let hit = ray_triangle_intersect(
        ray,
        v(-SCALE, -SCALE, -5 * SCALE),
        v(3 * SCALE, -SCALE, -5 * SCALE),
        v(-SCALE, 3 * SCALE, -5 * SCALE),
    );
    assert_eq!(hit, None);
}

#[test]
fn closest_point_clamps_to_segment_ends() {
    let a = v(0, 0, 0);
    let b = v(2 * SCALE, 0, 0);
    // Beyond the far end: clamps to b.
    let c = closest_point_on_segment(v(5 * SCALE, SCALE, 0), a, b);
    assert_eq!(c, b);
    // Before the near end: clamps to a.
    let c = closest_point_on_segment(v(-3 * SCALE, SCALE, 0), a, b);
    assert_eq!(c, a);
    // Above the middle: projects straight down.
    let c = closest_point_on_segment(v(SCALE, SCALE, 0), a, b);
    assert_eq!(c, v(SCALE, 0, 0));
}

#[test]
fn hash_query_scans_neighbouring_cells() {
    // Two points in adjacent cells are both returned for a radius that
    // spans the cell border.
    let points = vec![v(100_000, 0, 0), v(1_100_000, 0, 0)];
    let mut hash = SpatialHash::new(SCALE, points.len());
    hash.create(&points);
    hash.query(&points, 0, SCALE);
    assert!(hash.query_ids.contains(&0));
    assert!(hash.query_ids.contains(&1));
    assert_eq!(hash.query_size, hash.query_ids.len());
}

#[test]
fn determinant_of_identity_is_one() {
    let m = Mat3 {
        m0: SCALE,
        m1: 0,
        m2: 0,
        m3: 0,
        m4: SCALE,
        m5: 0,
        m6: 0,
        m7: 0,
        m8: SCALE,
    };
    assert_eq!(mat_get_determinant(&m), SCALE);
}

#[test]
fn inverse_of_uniform_scaling() {
    // The inverse of scaling by two is scaling by a half.
    let mut m = Mat3 {
        m0: 2 * SCALE,
        m1: 0,
        m2: 0,
        m3: 0,
        m4: 2 * SCALE,
        m5: 0,
        m6: 0,
        m7: 0,
        m8: 2 * SCALE,
    };
    mat_set_inverse(&mut m);
    assert_eq!(m.m0, 500_000);
    assert_eq!(m.m4, 500_000);
    assert_eq!(m.m8, 500_000);
    assert_eq!(m.m3, 0);
    // Applying the inverse halves a vector.
    let r = mat_set_mult(&m, v(4 * SCALE, 2 * SCALE, 0));
    assert_eq!(r, v(2 * SCALE, SCALE, 0));
}

#[test]
fn singular_inverse_zeroes_only_the_first_entry() {
    // A rank-one matrix has determinant zero; the routine then zeroes the
    // first entry and leaves the rest untouched, a kept quirk.
    let mut m = Mat3 {
        m0: SCALE,
        m1: SCALE,
        m2: SCALE,
        m3: SCALE,
        m4: SCALE,
        m5: SCALE,
        m6: SCALE,
        m7: SCALE,
        m8: SCALE,
    };
    mat_set_inverse(&mut m);
    assert_eq!(m.m0, 0);
    assert_eq!(m.m1, SCALE);
    assert_eq!(m.m8, SCALE);
}
