//! Ray intersection tests for picking.
//!
//! A ray is an origin and a direction. The sphere test solves the
//! quadratic analytically and returns both roots; the triangle test is the
//! Möller-Trumbore formulation with the standard barycentric checks and a
//! small epsilon guarding near-parallel rays and hits behind the origin.

use vstd::prelude::*;

verus! {

use crate::fixed::{
    SCALE, tdiv, fxmul, fxdiv, abs_i, is_sqrt, sqrt_i, div_i128, isqrt_u128, lemma_tdiv_bound,
    lemma_mul_bound, lemma_sqrt_exists, lemma_sqrt_unique, lemma_sqrt_le,
};
use crate::vec3::{Vec3, V3, v_add, v_sub, v_scale, v_dot, v_cross, v_len2, in_b, VLIM};
use crate::particles::{PLIM, in_lim};

/// Tolerance below which a ray is treated as parallel to a triangle and a
/// hit as sitting behind the origin: one hundred-thousandth of a unit.
pub const EPS: i64 = 10;

/// A picking ray: origin and (not necessarily unit) direction.
#[derive(Clone, Copy, PartialEq, Eq, Structural, Debug)]
pub struct Ray {
    /// Starting point.
    pub origin: Vec3,
    /// Direction of travel.
    pub direction: Vec3,
}

/// The two quadratic roots of the ray-sphere test, or nothing when the
/// discriminant is negative, the ray is degenerate, an input is out of
/// range, or a root overflows the scalar range.
pub open spec fn ray_sphere(o: V3, d: V3, c: V3, r: int) -> Option<(int, int)> {
    if !in_b(o, PLIM as int) || !in_b(d, PLIM as int) || !in_b(c, PLIM as int) || !(0 <= r
        <= PLIM) {
        Option::None
    } else {
        let m = v_sub(c, o);
        let a = v_dot(d, d);
        if a == 0 {
            Option::None
        } else {
            let b = v_dot(m, d);
            let cc = v_dot(m, m) - fxmul(r, r);
            let delta = b * b - a * cc;
            if delta < 0 {
                Option::None
            } else {
                let root = sqrt_i(delta);
                let t1 = tdiv((b - root) * SCALE, a);
                let t2 = tdiv((b + root) * SCALE, a);
                if t1 < i64::MIN || t1 > i64::MAX || t2 < i64::MIN || t2 > i64::MAX {
                    Option::None
                } else {
                    Option::Some((t1, t2))
                }
            }
        }
    }
}

/// The ray-sphere intersection distances `(t0, t1)` with `t0 <= t1`,
/// exactly as [`ray_sphere`] states.
pub fn ray_sphere_intersect(ray: Ray, sphere_center: Vec3, sphere_radius: i64) -> (res: Option<
    (i64, i64),
>)
    ensures
        ({
            let spec = ray_sphere(ray.origin@, ray.direction@, sphere_center@,
                sphere_radius as int);
            match res {
                Option::Some((t1, t2)) => spec == Option::Some((t1 as int, t2 as int)),
                Option::None => spec is None,
            }
        }),
{
    if !(in_lim(ray.origin, PLIM) && in_lim(ray.direction, PLIM) && in_lim(sphere_center, PLIM)
        && 0 <= sphere_radius && sphere_radius <= PLIM) {
        return Option::None;
    }
    proof {
        crate::vec3::lemma_sub_in_b(sphere_center@, ray.origin@, PLIM as int);
    }
    let m = sphere_center.sub(ray.origin);
    let a = ray.direction.dot(ray.direction);
    if a == 0 {
        return Option::None;
    }
    proof {
        lemma_dot_cap2(m@, m@);
        lemma_dot_cap2(m@, ray.direction@);
        lemma_dot_cap2(ray.direction@, ray.direction@);
        lemma_mul_bound(sphere_radius as int, sphere_radius as int, PLIM as int, PLIM as int);
        crate::vec3::lemma_shrink_by(
            sphere_radius as int * sphere_radius as int,
            (PLIM as int) * (PLIM as int),
            SCALE as int,
        );
    }
    let b = m.dot(ray.direction);
    let cc = m.dot(m) - crate::fixed::fx_mul(sphere_radius, sphere_radius);
    proof {
        lemma_mul_bound(b as int, b as int, 4_000_000_000_000_000_000int,
            4_000_000_000_000_000_000int);
        lemma_mul_bound(a as int, cc as int, 4_000_000_000_000_000_000int,
            8_000_000_000_000_000_000int);
    }
    let delta: i128 = (b as i128) * (b as i128) - (a as i128) * (cc as i128);
    if delta < 0 {
        return Option::None;
    }
    let root128 = isqrt_u128(delta as u128);
    proof {
        lemma_sqrt_exists(delta as int);
        lemma_sqrt_unique(delta as int, root128 as int, sqrt_i(delta as int));
        assert(4_000_000_000_000_000_000int * 4_000_000_000_000_000_000int
            + 4_000_000_000_000_000_000int * 8_000_000_000_000_000_000int
            <= 7_000_000_000_000_000_000int * 7_000_000_000_000_000_000int) by (nonlinear_arith);
        lemma_sqrt_le(delta as int, root128 as int, 7_000_000_000_000_000_000int);
    }
    let root = root128;
    proof {
        lemma_mul_bound(b as int - root as int, SCALE as int, 11_000_000_000_000_000_000int,
            SCALE as int);
        lemma_mul_bound(b as int + root as int, SCALE as int, 11_000_000_000_000_000_000int,
            SCALE as int);
        lemma_tdiv_bound((b as int - root as int) * SCALE, a as int);
        lemma_tdiv_bound((b as int + root as int) * SCALE, a as int);
    }
    let t1 = div_i128(((b as i128) - (root as i128)) * (SCALE as i128), a as i128);
    let t2 = div_i128(((b as i128) + (root as i128)) * (SCALE as i128), a as i128);
    if t1 < i64::MIN as i128 || t1 > i64::MAX as i128 || t2 < i64::MIN as i128
        || t2 > i64::MAX as i128 {
        return Option::None;
    }
    Option::Some((t1 as i64, t2 as i64))
}

/// A dot product of two double-range vectors is bounded by four
/// quintillion.
proof fn lemma_dot_cap2(a: V3, b: V3)
    requires
        in_b(a, 2 * PLIM as int),
        in_b(b, 2 * PLIM as int),
    ensures
        abs_i(v_dot(a, b)) <= 4_000_000_000_000_000_000,
{
    lemma_mul_bound(a.x, b.x, 2 * PLIM as int, 2 * PLIM as int);
    lemma_mul_bound(a.y, b.y, 2 * PLIM as int, 2 * PLIM as int);
    lemma_mul_bound(a.z, b.z, 2 * PLIM as int, 2 * PLIM as int);
    assert(3 * ((2 * PLIM as int) * (2 * PLIM as int)) <= 4_000_000_000_000_000_000int
        * (SCALE as int)) by (nonlinear_arith)
        requires PLIM == 300_000_000_000i64, SCALE == 1_000_000i64;
    crate::vec3::lemma_shrink_by(
        a.x * b.x + a.y * b.y + a.z * b.z,
        4_000_000_000_000_000_000int * (SCALE as int),
        SCALE as int,
    );
    crate::vec3::lemma_mul_div_exact(4_000_000_000_000_000_000int, SCALE as int);
    assert(4_000_000_000_000_000_000int * (SCALE as int) == (SCALE as int)
        * 4_000_000_000_000_000_000int) by (nonlinear_arith);
}

/// The Möller-Trumbore ray-triangle test: nothing for near-parallel rays,
/// barycentric coordinates outside the triangle, hits behind the origin,
/// out-of-range inputs, or a distance that overflows the scalar range;
/// otherwise the ray parameter of the hit.
pub open spec fn ray_triangle(o: V3, d: V3, v0: V3, v1: V3, v2: V3) -> Option<int> {
    if !in_b(o, PLIM as int) || !in_b(d, PLIM as int) || !in_b(v0, PLIM as int) || !in_b(
        v1,
        PLIM as int,
    ) || !in_b(v2, PLIM as int) {
        Option::None
    } else {
        let edge1 = v_sub(v1, v0);
        let edge2 = v_sub(v2, v0);
        let h = v_cross(d, edge2);
        let a = v_dot(edge1, h);
        if -EPS < a < EPS {
            Option::None
        } else {
            let s = v_sub(o, v0);
            let u = tdiv(v_dot(s, h) * SCALE, a);
            if u < 0 || u > SCALE {
                Option::None
            } else {
                let q = v_cross(s, edge1);
                let v = tdiv(v_dot(d, q) * SCALE, a);
                if v < 0 || u + v > SCALE {
                    Option::None
                } else {
                    let t = tdiv(v_dot(edge2, q) * SCALE, a);
                    if t > EPS && t <= i64::MAX {
                        Option::Some(t)
                    } else {
                        Option::None
                    }
                }
            }
        }
    }
}

/// Cross product of two double-range vectors, without the general cap.
fn cross_wide(a: Vec3, b: Vec3) -> (r: Vec3)
    requires
        in_b(a@, 2 * PLIM as int),
        in_b(b@, 2 * PLIM as int),
    ensures
        r@ == v_cross(a@, b@),
        in_b(r@, 1_000_000_000_000_000_000int),
{
    proof {
        lemma_mul_bound(a@.y, b@.z, 2 * PLIM as int, 2 * PLIM as int);
        lemma_mul_bound(a@.z, b@.y, 2 * PLIM as int, 2 * PLIM as int);
        lemma_mul_bound(a@.z, b@.x, 2 * PLIM as int, 2 * PLIM as int);
        lemma_mul_bound(a@.x, b@.z, 2 * PLIM as int, 2 * PLIM as int);
        lemma_mul_bound(a@.x, b@.y, 2 * PLIM as int, 2 * PLIM as int);
        lemma_mul_bound(a@.y, b@.x, 2 * PLIM as int, 2 * PLIM as int);
        assert(2 * ((2 * PLIM as int) * (2 * PLIM as int)) <= 1_000_000_000_000_000_000int
            * (SCALE as int)) by (nonlinear_arith)
            requires PLIM == 300_000_000_000i64, SCALE == 1_000_000i64;
        assert(2 * ((2 * PLIM as int) * (2 * PLIM as int)) >= 0) by (nonlinear_arith)
            requires PLIM == 300_000_000_000i64;
        crate::vec3::lemma_shrink_by(a@.y * b@.z - a@.z * b@.y,
            1_000_000_000_000_000_000int * (SCALE as int), SCALE as int);
        crate::vec3::lemma_shrink_by(a@.z * b@.x - a@.x * b@.z,
            1_000_000_000_000_000_000int * (SCALE as int), SCALE as int);
        crate::vec3::lemma_shrink_by(a@.x * b@.y - a@.y * b@.x,
            1_000_000_000_000_000_000int * (SCALE as int), SCALE as int);
        crate::vec3::lemma_mul_div_exact(1_000_000_000_000_000_000int, SCALE as int);
        assert(1_000_000_000_000_000_000int * (SCALE as int) == (SCALE as int)
            * 1_000_000_000_000_000_000int) by (nonlinear_arith);
    }
    let x = div_i128((a.y as i128) * (b.z as i128) - (a.z as i128) * (b.y as i128),
        SCALE as i128);
    let y = div_i128((a.z as i128) * (b.x as i128) - (a.x as i128) * (b.z as i128),
        SCALE as i128);
    let z = div_i128((a.x as i128) * (b.y as i128) - (a.y as i128) * (b.x as i128),
        SCALE as i128);
    Vec3 { x: x as i64, y: y as i64, z: z as i64 }
}

/// Dot product of a double-range vector with a wide vector, in a wide
/// word.
fn dot_wide(a: Vec3, b: Vec3) -> (r: i128)
    requires
        in_b(a@, 2 * PLIM as int),
        in_b(b@, 1_000_000_000_000_000_000int),
    ensures
        r as int == v_dot(a@, b@),
        abs_i(r as int) <= 2_000_000_000_000_000_000_000_000_000_000,
{
    proof {
        lemma_mul_bound(a@.x, b@.x, 2 * PLIM as int, 1_000_000_000_000_000_000int);
        lemma_mul_bound(a@.y, b@.y, 2 * PLIM as int, 1_000_000_000_000_000_000int);
        lemma_mul_bound(a@.z, b@.z, 2 * PLIM as int, 1_000_000_000_000_000_000int);
        assert(3 * ((2 * PLIM as int) * 1_000_000_000_000_000_000int)
            <= 2_000_000_000_000_000_000_000_000_000_000int) by (nonlinear_arith)
            requires PLIM == 300_000_000_000i64;
        assert(3 * ((2 * PLIM as int) * 1_000_000_000_000_000_000int) >= 0) by (nonlinear_arith)
            requires PLIM == 300_000_000_000i64;
        crate::vec3::lemma_shrink_by(
            a@.x * b@.x + a@.y * b@.y + a@.z * b@.z,
            3 * ((2 * PLIM as int) * 1_000_000_000_000_000_000int),
            SCALE as int,
        );
        vstd::arithmetic::div_mod::lemma_div_is_ordered(
            3 * ((2 * PLIM as int) * 1_000_000_000_000_000_000int),
            2_000_000_000_000_000_000_000_000_000_000int,
            SCALE as int,
        );
        vstd::arithmetic::div_mod::lemma_div_nonincreasing(
            2_000_000_000_000_000_000_000_000_000_000int,
            SCALE as int,
        );
    }
    div_i128(
        (a.x as i128) * (b.x as i128) + (a.y as i128) * (b.y as i128) + (a.z as i128)
            * (b.z as i128),
        SCALE as i128,
    )
}

/// The ray-triangle intersection distance, exactly as [`ray_triangle`]
/// states.
#[verifier::rlimit(60)]
pub fn ray_triangle_intersect(ray: Ray, v0: Vec3, v1: Vec3, v2: Vec3) -> (res: Option<i64>)
    ensures
        ({
            let spec = ray_triangle(ray.origin@, ray.direction@, v0@, v1@, v2@);
            match res {
                Option::Some(t) => spec == Option::Some(t as int),
                Option::None => spec is None,
            }
        }),
{
    if !(in_lim(ray.origin, PLIM) && in_lim(ray.direction, PLIM) && in_lim(v0, PLIM) && in_lim(
        v1,
        PLIM,
    ) && in_lim(v2, PLIM)) {
        return Option::None;
    }
    proof {
        crate::vec3::lemma_sub_in_b(v1@, v0@, PLIM as int);
        crate::vec3::lemma_sub_in_b(v2@, v0@, PLIM as int);
        crate::vec3::lemma_sub_in_b(ray.origin@, v0@, PLIM as int);
    }
    let edge1 = v1.sub(v0);
    let edge2 = v2.sub(v0);
    let h = cross_wide(ray.direction, edge2);
    let a = dot_wide(edge1, h);
    if -(EPS as i128) < a && a < EPS as i128 {
        return Option::None;
    }
    let s = ray.origin.sub(v0);
    let sh = dot_wide(s, h);
    proof {
        lemma_mul_bound(sh as int, SCALE as int, 2_000_000_000_000_000_000_000_000_000_000int,
            SCALE as int);
        lemma_tdiv_bound(sh as int * SCALE, a as int);
        assert(2_000_000_000_000_000_000_000_000_000_000int * (SCALE as int)
            < 0x40000000000000000000000000000000) by (nonlinear_arith);
    }
    let u = div_i128(sh * (SCALE as i128), a);
    if u < 0 || u > SCALE as i128 {
        return Option::None;
    }
    let q = cross_wide(s, edge1);
    let dq = dot_wide(ray.direction, q);
    proof {
        lemma_mul_bound(dq as int, SCALE as int, 2_000_000_000_000_000_000_000_000_000_000int,
            SCALE as int);
        lemma_tdiv_bound(dq as int * SCALE, a as int);
        assert(2_000_000_000_000_000_000_000_000_000_000int * (SCALE as int)
            < 0x40000000000000000000000000000000) by (nonlinear_arith);
    }
    let v = div_i128(dq * (SCALE as i128), a);
    if v < 0 || u + v > SCALE as i128 {
        return Option::None;
    }
    let eq = dot_wide(edge2, q);
    proof {
        lemma_mul_bound(eq as int, SCALE as int, 2_000_000_000_000_000_000_000_000_000_000int,
            SCALE as int);
        lemma_tdiv_bound(eq as int * SCALE, a as int);
        assert(2_000_000_000_000_000_000_000_000_000_000int * (SCALE as int)
            < 0x40000000000000000000000000000000) by (nonlinear_arith);
    }
    let t = div_i128(eq * (SCALE as i128), a);
    if t > EPS as i128 && t <= i64::MAX as i128 {
        Option::Some(t as i64)
    } else {
        Option::None
    }
}

/// The nearest triangle hit among the first `k` triangles of a flat index
/// list, as the smallest ray parameter.
pub open spec fn nearest_hit(ps: Seq<V3>, ids: Seq<usize>, o: V3, d: V3, k: int) -> Option<int>
    decreases k,
{
    if k <= 0 {
        Option::None
    } else {
        let prev = nearest_hit(ps, ids, o, d, k - 1);
        let tri = if 3 * (k - 1) + 2 < ids.len() && ids[3 * (k - 1)] < ps.len() && ids[3 * (k - 1)
            + 1] < ps.len() && ids[3 * (k - 1) + 2] < ps.len() {
            ray_triangle(
                o,
                d,
                ps[ids[3 * (k - 1)] as int],
                ps[ids[3 * (k - 1) + 1] as int],
                ps[ids[3 * (k - 1) + 2] as int],
            )
        } else {
            Option::None
        };
        match (prev, tri) {
            (Option::None, t) => t,
            (Option::Some(p), Option::None) => Option::Some(p),
            (Option::Some(p), Option::Some(t)) => Option::Some(
                if t < p {
                    t
                } else {
                    p
                },
            ),
        }
    }
}

/// The distance along the ray to the nearest triangle of a flat index
/// list, exactly as [`nearest_hit`] states: triangle `k` uses vertices
/// `ids[3k] .. ids[3k + 2]`.
#[verifier::rlimit(80)]
pub fn ray_mesh_intersect(ray: Ray, positions: &Vec<Vec3>, ids: &Vec<usize>) -> (res: Option<
    i64,
>)
    ensures
        ({
            let spec = nearest_hit(
                crate::particles::views(positions@),
                ids@,
                ray.origin@,
                ray.direction@,
                (ids@.len() / 3) as int,
            );
            match res {
                Option::Some(t) => spec == Option::Some(t as int),
                Option::None => spec is None,
            }
        }),
{
    let ghost ps = crate::particles::views(positions@);
    let total = ids.len();
    let n = total / 3;
    proof {
        vstd::arithmetic::div_mod::lemma_fundamental_div_mod(total as int, 3);
    }
    let mut best: Option<i64> = Option::None;
    let mut k: usize = 0;
    while k < n
        invariant
            n == ids@.len() / 3,
            total == ids@.len(),
            3 * (n as int) <= total,
            ps == crate::particles::views(positions@),
            k <= n,
            ({
                let spec = nearest_hit(ps, ids@, ray.origin@, ray.direction@, k as int);
                match best {
                    Option::Some(t) => spec == Option::Some(t as int),
                    Option::None => spec is None,
                }
            }),
        decreases n - k,
    {
        let i0 = ids[3 * k];
        let i1 = ids[3 * k + 1];
        let i2 = ids[3 * k + 2];
        let hit: Option<i64> = if i0 < positions.len() && i1 < positions.len() && i2
            < positions.len() {
            proof {
                assert(ps[i0 as int] == positions@[i0 as int]@);
                assert(ps[i1 as int] == positions@[i1 as int]@);
                assert(ps[i2 as int] == positions@[i2 as int]@);
            }
            ray_triangle_intersect(ray, positions[i0], positions[i1], positions[i2])
        } else {
            Option::None
        };
        best = match (best, hit) {
            (Option::None, t) => t,
            (Option::Some(p), Option::None) => Option::Some(p),
            (Option::Some(p), Option::Some(t)) => Option::Some(
                if t < p {
                    t
                } else {
                    p
                },
            ),
        };
        k += 1;
    }
    best
}

} // verus!
