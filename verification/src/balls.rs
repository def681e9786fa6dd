//! Rigid ball dynamics and pairwise collision response.
//!
//! Balls are spheres without rotation: a position, a velocity, a radius, a
//! mass and a restitution coefficient. Collisions are resolved discretely
//! after integration: separate overlapping bodies along the contact normal
//! (splitting the correction by mass or equally), then exchange the normal
//! velocity components with the one-dimensional elastic-collision formula
//! weighted by restitution. Tangential velocity is untouched: there is no
//! friction model.

use vstd::prelude::*;

verus! {

use crate::fixed::{
    SCALE, tdiv, fxmul, abs_i, div_i128, lemma_tdiv_bound, lemma_mul_bound, lemma_sqrt_le,
    lemma_tdiv_exact,
};
use crate::vec3::{
    Vec3, V3, v_add, v_sub, v_scale, v_div, v_dot, v_len, v_len2, in_b, VLIM, lemma_unit_bound,
    lemma_scale_unit, lemma_shrink_by, lemma_mul_div_exact, lemma_sub_in_b,
};
use crate::particles::{PLIM, MLIM, in_lim};

/// Magnitude cap on ball velocities inside the collision response.
pub const BLIM: i64 = 100_000_000_000;

/// A rigid ball: a sphere with no rotational state.
#[derive(Clone, Copy, PartialEq, Eq, Structural, Debug)]
pub struct Ball {
    /// Centre position.
    pub pos: Vec3,
    /// Linear velocity.
    pub vel: Vec3,
    /// Sphere radius, a positive raw scalar.
    pub radius: i64,
    /// Mass, a positive raw scalar.
    pub mass: i64,
    /// Restitution coefficient in `[0, 1]`, as a raw scalar.
    pub restitution: i64,
}

/// The values a ball must hold for the collision response to engage:
/// bounded position and velocity, a positive bounded radius and mass, and
/// a restitution within `[0, 1]`.
pub open spec fn ball_ok(b: Ball) -> bool {
    &&& in_b(b.pos@, PLIM as int)
    &&& in_b(b.vel@, BLIM as int)
    &&& 0 < b.radius <= PLIM
    &&& 0 < b.mass <= MLIM
    &&& 0 <= b.restitution <= SCALE
}

/// The post-collision normal velocity of the first body in a
/// one-dimensional collision: `(m1 v1 + m2 v2 - m2 (v1 - v2) e) / (m1 + m2)`
/// in fixed point, with one rounding for the restitution product and one
/// for the final quotient.
pub open spec fn elastic_v1(m1: int, m2: int, v1: int, v2: int, e: int) -> int {
    tdiv(m1 * v1 + m2 * v2 - tdiv(m2 * (v1 - v2) * e, SCALE as int), m1 + m2)
}

/// The post-collision normal velocity of the second body, symmetric to
/// [`elastic_v1`].
pub open spec fn elastic_v2(m1: int, m2: int, v1: int, v2: int, e: int) -> int {
    tdiv(m1 * v1 + m2 * v2 - tdiv(m1 * (v2 - v1) * e, SCALE as int), m1 + m2)
}

/// Energy is not created by the elastic exchange. For equal masses, a
/// fully elastic collision (restitution one) exchanges the two normal
/// velocities exactly, preserving the relative speed; a fully plastic one
/// (restitution zero) leaves both bodies at the common mean, a relative
/// normal velocity of exactly zero. Both hold of the fixed-point formula
/// with no rounding error at all.
pub proof fn lemma_elastic_collision(m: int, v1: int, v2: int)
    requires
        m >= 1,
    ensures
        elastic_v1(m, m, v1, v2, SCALE as int) == v2,
        elastic_v2(m, m, v1, v2, SCALE as int) == v1,
        elastic_v1(m, m, v1, v2, 0) == elastic_v2(m, m, v1, v2, 0),
{
    let s = SCALE as int;
    assert(m * (v1 - v2) * s == s * (m * (v1 - v2))) by (nonlinear_arith);
    lemma_tdiv_exact(m * (v1 - v2), s);
    assert(m * (v2 - v1) * s == s * (m * (v2 - v1))) by (nonlinear_arith);
    lemma_tdiv_exact(m * (v2 - v1), s);
    assert(m * v1 + m * v2 - m * (v1 - v2) == (2 * m) * v2) by (nonlinear_arith);
    assert(m * v1 + m * v2 - m * (v2 - v1) == (2 * m) * v1) by (nonlinear_arith);
    lemma_tdiv_exact(v2, 2 * m);
    lemma_tdiv_exact(v1, 2 * m);
    assert(m * (v1 - v2) * 0 == 0) by (nonlinear_arith);
    assert(m * (v2 - v1) * 0 == 0) by (nonlinear_arith);
}

/// The mirror of one ball-ball contact: separate the two centres equally
/// along the contact normal, then exchange normal velocities with
/// restitution `e`. No contact (zero or over-range separation) leaves both
/// balls unchanged.
pub open spec fn ball_ball_collided(a: Ball, b: Ball, e: int) -> (Ball, Ball) {
    if !ball_ok(a) || !ball_ok(b) || !(0 <= e <= SCALE) {
        (a, b)
    } else {
        let d = v_sub(b.pos@, a.pos@);
        let len = v_len(d);
        if len == 0 || len > a.radius + b.radius {
            (a, b)
        } else {
            let dir = v_div(d, len);
            let corr = tdiv(a.radius + b.radius - len, 2);
            let pa = v_add(a.pos@, v_scale(dir, -corr));
            let pb = v_add(b.pos@, v_scale(dir, corr));
            let v1 = v_dot(a.vel@, dir);
            let v2 = v_dot(b.vel@, dir);
            let nv1 = elastic_v1(a.mass as int, b.mass as int, v1, v2, e);
            let nv2 = elastic_v2(a.mass as int, b.mass as int, v1, v2, e);
            let va = v_add(a.vel@, v_scale(dir, nv1 - v1));
            let vb = v_add(b.vel@, v_scale(dir, nv2 - v2));
            (
                Ball { pos: to_vec3(pa), vel: to_vec3(va), ..a },
                Ball { pos: to_vec3(pb), vel: to_vec3(vb), ..b },
            )
        }
    }
}

/// The executable vector holding an in-range mathematical value.
pub open spec fn to_vec3(v: V3) -> Vec3 {
    Vec3 { x: v.x as i64, y: v.y as i64, z: v.z as i64 }
}

/// A weighted average with a bounded impulse term stays within three times
/// the velocity cap.
proof fn lemma_elastic_bound(m1: int, m2: int, v1: int, v2: int, e: int, cap: int)
    requires
        1 <= m1,
        1 <= m2,
        abs_i(v1) <= cap,
        abs_i(v2) <= cap,
        0 <= e <= SCALE,
        0 <= cap,
    ensures
        abs_i(elastic_v1(m1, m2, v1, v2, e)) <= 3 * cap,
        abs_i(elastic_v2(m1, m2, v1, v2, e)) <= 3 * cap,
{
    lemma_impulse_bound(m2, v1 - v2, e, 2 * cap);
    lemma_impulse_bound(m1, v2 - v1, e, 2 * cap);
    lemma_avg_bound(m1, m2, v1, v2, tdiv(m2 * (v1 - v2) * e, SCALE as int), cap);
    lemma_avg_bound(m2, m1, v2, v1, tdiv(m1 * (v2 - v1) * e, SCALE as int), cap);
    assert(m1 * v1 + m2 * v2 == m2 * v2 + m1 * v1) by (nonlinear_arith);
}

/// The restitution impulse `m dv e / SCALE` is at most `m |dv|`.
proof fn lemma_impulse_bound(m: int, dv: int, e: int, dcap: int)
    requires
        1 <= m,
        abs_i(dv) <= dcap,
        0 <= e <= SCALE,
        0 <= dcap,
    ensures
        abs_i(tdiv(m * dv * e, SCALE as int)) <= m * dcap,
{
    assert(abs_i(m * dv * e) <= (m * dcap) * (SCALE as int)) by (nonlinear_arith)
        requires
            1 <= m,
            abs_i(dv) <= dcap,
            0 <= e <= SCALE,
            0 <= dcap,
    ;
    assert((m * dcap) * (SCALE as int) >= 0) by (nonlinear_arith)
        requires 1 <= m, 0 <= dcap;
    lemma_shrink_by(m * dv * e, (m * dcap) * (SCALE as int), SCALE as int);
    lemma_mul_div_exact(m * dcap, SCALE as int);
    assert((m * dcap) * (SCALE as int) == (SCALE as int) * (m * dcap)) by (nonlinear_arith);
}

/// The quotient of the collision numerator by the mass sum is bounded by
/// three times the velocity cap.
proof fn lemma_avg_bound(m1: int, m2: int, v1: int, v2: int, t: int, cap: int)
    requires
        1 <= m1,
        1 <= m2,
        abs_i(v1) <= cap,
        abs_i(v2) <= cap,
        abs_i(t) <= m2 * (2 * cap),
        0 <= cap,
    ensures
        abs_i(tdiv(m1 * v1 + m2 * v2 - t, m1 + m2)) <= 3 * cap,
{
    assert(abs_i(m1 * v1 + m2 * v2 - t) <= (m1 + m2) * (3 * cap)) by (nonlinear_arith)
        requires
            1 <= m1,
            1 <= m2,
            abs_i(v1) <= cap,
            abs_i(v2) <= cap,
            abs_i(t) <= m2 * (2 * cap),
            0 <= cap,
    ;
    assert((m1 + m2) * (3 * cap) >= 0) by (nonlinear_arith)
        requires 1 <= m1, 1 <= m2, 0 <= cap;
    lemma_shrink_by(m1 * v1 + m2 * v2 - t, (m1 + m2) * (3 * cap), m1 + m2);
    lemma_mul_div_exact(3 * cap, m1 + m2);
    assert((m1 + m2) * (3 * cap) == (3 * cap) * (m1 + m2)) by (nonlinear_arith);
}

/// Bounds needed before computing one ball-ball contact.
proof fn lemma_contact_bounds(a: Ball, b: Ball, len: int)
    requires
        ball_ok(a),
        ball_ok(b),
        is_sqrt(v_len2(v_sub(b.pos@, a.pos@)), len),
        1 <= len <= a.radius + b.radius,
    ensures
        len <= 2 * PLIM as int,
        in_b(v_div(v_sub(b.pos@, a.pos@), len), SCALE as int),
        abs_i(v_dot(a.vel@, v_div(v_sub(b.pos@, a.pos@), len))) <= 3 * BLIM as int,
        abs_i(v_dot(b.vel@, v_div(v_sub(b.pos@, a.pos@), len))) <= 3 * BLIM as int,
{
    let d = v_sub(b.pos@, a.pos@);
    lemma_unit_bound(d, len);
    let dir = v_div(d, len);
    lemma_dot_unit_bound(a.vel@, dir, BLIM as int);
    lemma_dot_unit_bound(b.vel@, dir, BLIM as int);
}

use crate::fixed::is_sqrt;

/// A dot product with a unit-bounded direction is at most three times the
/// other vector's component cap.
pub proof fn lemma_dot_unit_bound(v: V3, dir: V3, cap: int)
    requires
        in_b(v, cap),
        in_b(dir, SCALE as int),
        0 <= cap,
    ensures
        abs_i(v_dot(v, dir)) <= 3 * cap,
{
    lemma_mul_bound(v.x, dir.x, cap, SCALE as int);
    lemma_mul_bound(v.y, dir.y, cap, SCALE as int);
    lemma_mul_bound(v.z, dir.z, cap, SCALE as int);
    assert((3 * cap) * (SCALE as int) == 3 * (cap * (SCALE as int))) by (nonlinear_arith);
    assert((3 * cap) * (SCALE as int) >= 0) by (nonlinear_arith)
        requires 0 <= cap;
    lemma_shrink_by(
        v.x * dir.x + v.y * dir.y + v.z * dir.z,
        (3 * cap) * (SCALE as int),
        SCALE as int,
    );
    lemma_mul_div_exact(3 * cap, SCALE as int);
    assert((3 * cap) * (SCALE as int) == (SCALE as int) * (3 * cap)) by (nonlinear_arith);
}

/// Resolves one ball-ball contact with restitution `e`: positions are
/// pushed apart equally along the contact normal and normal velocities
/// follow the elastic-collision formula, exactly as
/// [`ball_ball_collided`] states.
#[verifier::rlimit(60)]
pub fn handle_ball_ball_collision(a: &mut Ball, b: &mut Ball, e: i64)
    ensures
        (*final(a), *final(b)) == ball_ball_collided(*old(a), *old(b), e as int),
{
    let ea = *a;
    let eb = *b;
    if !(0 <= e && e <= SCALE) || !ball_ok_exec(ea) || !ball_ok_exec(eb) {
        return ;
    }
    proof {
        lemma_sub_in_b(eb.pos@, ea.pos@, PLIM as int);
    }
    let d = eb.pos.sub(ea.pos);
    let len = d.length();
    if len == 0 || len > ea.radius + eb.radius {
        return ;
    }
    proof {
        lemma_contact_bounds(ea, eb, len as int);
    }
    let dir = d.div(len);
    let corr = (ea.radius + eb.radius - len) / 2;
    proof {
        assert(corr as int == tdiv(ea.radius + eb.radius - len, 2));
        lemma_scale_unit(dir@, -(corr as int));
        lemma_scale_unit(dir@, corr as int);
    }
    a.pos = ea.pos.add(dir.scale(-corr));
    b.pos = eb.pos.add(dir.scale(corr));
    let v1 = ea.vel.dot(dir);
    let v2 = eb.vel.dot(dir);
    proof {
        lemma_elastic_bound(ea.mass as int, eb.mass as int, v1 as int, v2 as int, e as int,
            3 * BLIM as int);
        lemma_impulse_bound(eb.mass as int, (v1 - v2) as int, e as int, 6 * BLIM as int);
        lemma_impulse_bound(ea.mass as int, (v2 - v1) as int, e as int, 6 * BLIM as int);
        lemma_mul_bound(eb.mass as int, v1 as int - v2 as int, MLIM as int, 6 * BLIM as int);
        lemma_mul_bound(ea.mass as int, v2 as int - v1 as int, MLIM as int, 6 * BLIM as int);
        lemma_mul_bound(
            eb.mass as int * (v1 as int - v2 as int),
            e as int,
            MLIM as int * (6 * BLIM as int),
            SCALE as int,
        );
        lemma_mul_bound(
            ea.mass as int * (v2 as int - v1 as int),
            e as int,
            MLIM as int * (6 * BLIM as int),
            SCALE as int,
        );
        assert((MLIM as int) * (6 * BLIM as int) * (SCALE as int)
            < 0x40000000000000000000000000000000) by (nonlinear_arith)
            requires MLIM == 1_000_000_000_000i64, BLIM == 100_000_000_000i64, SCALE == 1_000_000i64;
        lemma_mul_bound(ea.mass as int, v1 as int, MLIM as int, 3 * BLIM as int);
        lemma_mul_bound(eb.mass as int, v2 as int, MLIM as int, 3 * BLIM as int);
        assert((MLIM as int) * (6 * BLIM as int) == 2 * ((MLIM as int) * (3 * BLIM as int)))
            by (nonlinear_arith);
    }
    let t1 = div_i128((eb.mass as i128) * ((v1 - v2) as i128) * (e as i128), SCALE as i128);
    let t2 = div_i128((ea.mass as i128) * ((v2 - v1) as i128) * (e as i128), SCALE as i128);
    let nv1 = div_i128(
        (ea.mass as i128) * (v1 as i128) + (eb.mass as i128) * (v2 as i128) - t1,
        (ea.mass as i128) + (eb.mass as i128),
    ) as i64;
    let nv2 = div_i128(
        (ea.mass as i128) * (v1 as i128) + (eb.mass as i128) * (v2 as i128) - t2,
        (ea.mass as i128) + (eb.mass as i128),
    ) as i64;
    proof {
        lemma_scale_unit(dir@, nv1 as int - v1 as int);
        lemma_scale_unit(dir@, nv2 as int - v2 as int);
    }
    a.vel = ea.vel.add(dir.scale(nv1 - v1));
    b.vel = eb.vel.add(dir.scale(nv2 - v2));
}

/// True when the collision response engages for this ball.
pub fn ball_ok_exec(b: Ball) -> (r: bool)
    ensures
        r == ball_ok(b),
{
    in_lim(b.pos, PLIM) && in_lim(b.vel, BLIM) && 0 < b.radius && b.radius <= PLIM && 0 < b.mass
        && b.mass <= MLIM && 0 <= b.restitution && b.restitution <= SCALE
}

/// A product with a factor of at most one (raw `SCALE`) never grows.
pub proof fn lemma_fxmul_frac(a: int, e: int)
    requires
        abs_i(e) <= SCALE as int,
    ensures
        abs_i(fxmul(a, e)) <= abs_i(a),
{
    lemma_mul_bound(a, e, abs_i(a), SCALE as int);
    assert(abs_i(a) * (SCALE as int) >= 0) by (nonlinear_arith);
    lemma_shrink_by(a * e, abs_i(a) * (SCALE as int), SCALE as int);
    lemma_mul_div_exact(abs_i(a), SCALE as int);
    assert(abs_i(a) * (SCALE as int) == (SCALE as int) * abs_i(a)) by (nonlinear_arith);
}

/// One sub-step of free flight: gravity scaled into the velocity, the
/// velocity scaled into the position, each increment skipped if it leaves
/// the solver's range.
pub open spec fn fly_step(p: V3, v: V3, g: V3, sdt: int, scale: int) -> (V3, V3) {
    if !in_b(p, PLIM as int) || !in_b(v, PLIM as int) || !in_b(g, PLIM as int) || !(0 <= sdt
        <= SCALE) || !(0 <= scale <= VLIM) {
        (p, v)
    } else {
        let dv = v_scale(v_scale(g, sdt), scale);
        if !in_b(dv, PLIM as int) {
            (p, v)
        } else {
            let v1 = v_add(v, dv);
            let dp = v_scale(v_scale(v1, sdt), scale);
            if !in_b(dp, PLIM as int) {
                (p, v1)
            } else {
                (v_add(p, dp), v1)
            }
        }
    }
}

/// `k` sub-steps of free flight.
pub open spec fn fly_upto(p: V3, v: V3, g: V3, sdt: int, scale: int, k: int) -> (V3, V3)
    decreases k,
{
    if k <= 0 {
        (p, v)
    } else {
        let prev = fly_upto(p, v, g, sdt, scale, k - 1);
        fly_step(prev.0, prev.1, g, sdt, scale)
    }
}

/// The box response for one axis value: clamp to the wall and reflect the
/// velocity, scaled by restitution.
pub open spec fn wall_axis(p: int, v: int, lo: int, hi: int, e: int) -> (int, int) {
    if p < lo {
        (lo, -fxmul(v, e))
    } else if p > hi {
        (hi, -fxmul(v, e))
    } else {
        (p, v)
    }
}

/// Keeping a ball inside the box `[-half, half]^3` with the floor raised
/// to the ball's radius: each axis is clamped in turn and the
/// corresponding velocity component reflected with restitution `e`.
pub open spec fn walls_clamped(b: Ball, half: int, e: int) -> Ball {
    if !(0 < b.radius && b.radius <= half <= PLIM as int) || !(0 <= e <= SCALE) || !in_b(
        b.pos@,
        PLIM as int,
    ) || !in_b(b.vel@, PLIM as int) {
        b
    } else {
        let lim = half - b.radius;
        let rx = wall_axis(b.pos@.x, b.vel@.x, -lim, lim, e);
        let ry = wall_axis(b.pos@.y, b.vel@.y, b.radius as int, lim, e);
        let rz = wall_axis(b.pos@.z, b.vel@.z, -lim, lim, e);
        Ball {
            pos: to_vec3(V3 { x: rx.0, y: ry.0, z: rz.0 }),
            vel: to_vec3(V3 { x: rx.1, y: ry.1, z: rz.1 }),
            ..b
        }
    }
}

/// Advances one ball by `sub_steps` sub-steps of gravity and drift, then
/// keeps it inside the box `[-half_size, half_size]^3` (with the floor at
/// the ball's radius), reflecting velocity with restitution `e`. A
/// degenerate sub-step duration makes the whole tick a guarded no-op:
/// neither the integration nor the wall response runs.
pub fn simulate_ball(
    ball: &mut Ball,
    gravity: Vec3,
    sdt: i64,
    sub_steps: u32,
    scale: i64,
    half_size: i64,
    e: i64,
)
    ensures
        sdt <= 0 ==> *final(ball) == *old(ball),
        sdt >= 1 ==> ({
            let flown = fly_upto(
                old(ball).pos@,
                old(ball).vel@,
                gravity@,
                sdt as int,
                scale as int,
                sub_steps as int,
            );
            *final(ball) == walls_clamped(
                Ball { pos: to_vec3(flown.0), vel: to_vec3(flown.1), ..*old(ball) },
                half_size as int,
                e as int,
            )
        }),
{
    if sdt <= 0 {
        return ;
    }
    let mut step: u32 = 0;
    let ghost p0 = ball.pos@;
    let ghost v0 = ball.vel@;
    while step < sub_steps
        invariant
            step <= sub_steps,
            ball.radius == old(ball).radius,
            ball.mass == old(ball).mass,
            ball.restitution == old(ball).restitution,
            p0 == old(ball).pos@,
            v0 == old(ball).vel@,
            ({
                let f = fly_upto(p0, v0, gravity@, sdt as int, scale as int, step as int);
                ball.pos@ == f.0 && ball.vel@ == f.1
            }),
        decreases sub_steps - step,
    {
        let p = ball.pos;
        let v = ball.vel;
        if in_lim(p, PLIM) && in_lim(v, PLIM) && in_lim(gravity, PLIM) && 0 <= sdt && sdt <= SCALE
            && 0 <= scale && scale <= VLIM {
            proof {
                crate::vec3::lemma_scale_bounds(gravity@, sdt as int, PLIM as int, SCALE as int);
                lemma_mul_div_exact(PLIM as int, SCALE as int);
            }
            let dv = gravity.scale(sdt).scale(scale);
            if in_lim(dv, PLIM) {
                let v1 = v.add(dv);
                proof {
                    crate::vec3::lemma_scale_bounds(v1@, sdt as int, 2 * PLIM as int,
                        SCALE as int);
                    lemma_mul_div_exact(2 * PLIM as int, SCALE as int);
                }
                let dp = v1.scale(sdt).scale(scale);
                ball.vel = v1;
                if in_lim(dp, PLIM) {
                    ball.pos = p.add(dp);
                }
            }
        }
        step += 1;
    }
    // Box walls.
    let b = *ball;
    if 0 < b.radius && b.radius <= half_size && half_size <= PLIM && 0 <= e && e <= SCALE
        && in_lim(b.pos, PLIM) && in_lim(b.vel, PLIM) {
        let lim = half_size - b.radius;
        proof {
            lemma_fxmul_frac(b.vel@.x as int, e as int);
            lemma_fxmul_frac(b.vel@.y as int, e as int);
            lemma_fxmul_frac(b.vel@.z as int, e as int);
        }
        let mut px = b.pos.x;
        let mut py = b.pos.y;
        let mut pz = b.pos.z;
        let mut vx = b.vel.x;
        let mut vy = b.vel.y;
        let mut vz = b.vel.z;
        if px < -lim {
            px = -lim;
            vx = -crate::fixed::fx_mul(vx, e);
        } else if px > lim {
            px = lim;
            vx = -crate::fixed::fx_mul(vx, e);
        }
        if py < b.radius {
            py = b.radius;
            vy = -crate::fixed::fx_mul(vy, e);
        } else if py > lim {
            py = lim;
            vy = -crate::fixed::fx_mul(vy, e);
        }
        if pz < -lim {
            pz = -lim;
            vz = -crate::fixed::fx_mul(vz, e);
        } else if pz > lim {
            pz = lim;
            vz = -crate::fixed::fx_mul(vz, e);
        }
        ball.pos = Vec3 { x: px, y: py, z: pz };
        ball.vel = Vec3 { x: vx, y: vy, z: vz };
    }
}

/// The symmetric box response of the flat scenes: a ball crossing either
/// wall of `[-half_x, half_x] * [-half_y, half_y]` is clamped back and
/// its velocity component reflected with restitution `e`. The third axis
/// is untouched.
pub open spec fn flat_walls_clamped(b: Ball, half_x: int, half_y: int, e: int) -> Ball {
    if !(0 <= half_x <= PLIM && 0 <= half_y <= PLIM) || !(0 <= e <= SCALE) || !in_b(
        b.pos@,
        PLIM as int,
    ) || !in_b(b.vel@, PLIM as int) {
        b
    } else {
        let rx = wall_axis(b.pos@.x, b.vel@.x, -half_x, half_x, e);
        let ry = wall_axis(b.pos@.y, b.vel@.y, -half_y, half_y, e);
        Ball {
            pos: to_vec3(V3 { x: rx.0, y: ry.0, z: b.pos@.z }),
            vel: to_vec3(V3 { x: rx.1, y: ry.1, z: b.vel@.z }),
            ..b
        }
    }
}

/// Keeps a ball inside the flat window box, exactly as
/// [`flat_walls_clamped`] states.
pub fn handle_wall_collisions(ball: &mut Ball, half_x: i64, half_y: i64, e: i64)
    ensures
        *final(ball) == flat_walls_clamped(*old(ball), half_x as int, half_y as int, e as int),
{
    let b = *ball;
    if !(0 <= half_x && half_x <= PLIM && 0 <= half_y && half_y <= PLIM && 0 <= e && e <= SCALE
        && in_lim(b.pos, PLIM) && in_lim(b.vel, PLIM)) {
        return ;
    }
    proof {
        lemma_fxmul_frac(b.vel@.x as int, e as int);
        lemma_fxmul_frac(b.vel@.y as int, e as int);
    }
    let mut px = b.pos.x;
    let mut py = b.pos.y;
    let mut vx = b.vel.x;
    let mut vy = b.vel.y;
    if px < -half_x {
        px = -half_x;
        vx = -crate::fixed::fx_mul(vx, e);
    } else if px > half_x {
        px = half_x;
        vx = -crate::fixed::fx_mul(vx, e);
    }
    if py < -half_y {
        py = -half_y;
        vy = -crate::fixed::fx_mul(vy, e);
    } else if py > half_y {
        py = half_y;
        vy = -crate::fixed::fx_mul(vy, e);
    }
    ball.pos = Vec3 { x: px, y: py, z: b.pos.z };
    ball.vel = Vec3 { x: vx, y: vy, z: b.vel.z };
}

/// A static circular bumper: it pushes balls out and fires them away with
/// a configured outward speed.
#[derive(Clone, Copy, PartialEq, Eq, Structural, Debug)]
pub struct Obstacle {
    /// Centre position.
    pub pos: Vec3,
    /// Bumper radius, a positive raw scalar.
    pub radius: i64,
    /// Outward speed given to a hit ball.
    pub push_velocity: i64,
}

/// The values an obstacle must hold for the response to engage.
pub open spec fn obstacle_ok(o: Obstacle) -> bool {
    &&& in_b(o.pos@, PLIM as int)
    &&& 0 < o.radius <= PLIM
    &&& abs_i(o.push_velocity as int) <= BLIM as int
}

/// The mirror of one ball-bumper contact: push the ball just outside and
/// set its outward velocity component to the bumper's push speed. The
/// second component reports whether contact happened (the observable score
/// event).
pub open spec fn obstacle_collided(b: Ball, o: Obstacle) -> (Ball, bool) {
    if !ball_ok(b) || !obstacle_ok(o) {
        (b, false)
    } else {
        let d = v_sub(b.pos@, o.pos@);
        let len = v_len(d);
        if len == 0 || len > b.radius + o.radius {
            (b, false)
        } else {
            let dir = v_div(d, len);
            let corr = b.radius + o.radius - len;
            let p1 = v_add(b.pos@, v_scale(dir, corr));
            let v = v_dot(b.vel@, dir);
            let v1 = v_add(b.vel@, v_scale(dir, o.push_velocity - v));
            (Ball { pos: to_vec3(p1), vel: to_vec3(v1), ..b }, true)
        }
    }
}

/// Resolves one ball-bumper contact and counts it in `score` (the pinball
/// scoring side effect), saturating rather than wrapping the counter.
pub fn handle_ball_obstacle_collision(ball: &mut Ball, o: &Obstacle, score: &mut u64)
    ensures
        *final(ball) == obstacle_collided(*old(ball), *o).0,
        *final(score) == if obstacle_collided(*old(ball), *o).1 && *old(score) < u64::MAX {
            (*old(score) + 1) as u64
        } else {
            *old(score)
        },
{
    let b = *ball;
    if !ball_ok_exec(b) || !(in_lim(o.pos, PLIM) && 0 < o.radius && o.radius <= PLIM
        && -BLIM <= o.push_velocity && o.push_velocity <= BLIM) {
        return ;
    }
    proof {
        lemma_sub_in_b(b.pos@, o.pos@, PLIM as int);
    }
    let d = b.pos.sub(o.pos);
    let len = d.length();
    if len == 0 || len > b.radius + o.radius {
        return ;
    }
    proof {
        lemma_mul_bound(2 * PLIM as int, 2 * PLIM as int, 2 * PLIM as int, 2 * PLIM as int);
        assert(v_len2(d@) <= 3 * ((2 * PLIM as int) * (2 * PLIM as int))) by {
            lemma_mul_bound(d@.x, d@.x, 2 * PLIM as int, 2 * PLIM as int);
            lemma_mul_bound(d@.y, d@.y, 2 * PLIM as int, 2 * PLIM as int);
            lemma_mul_bound(d@.z, d@.z, 2 * PLIM as int, 2 * PLIM as int);
        }
        assert(3 * ((2 * PLIM as int) * (2 * PLIM as int)) <= 1_100_000_000_000int
            * 1_100_000_000_000int) by (nonlinear_arith)
            requires PLIM == 300_000_000_000i64;
        lemma_sqrt_le(v_len2(d@), len as int, 1_100_000_000_000int);
        lemma_unit_bound(d@, len as int);
    }
    let dir = d.div(len);
    let corr = b.radius + o.radius - len;
    proof {
        lemma_scale_unit(dir@, corr as int);
        lemma_dot_unit_bound(b.vel@, dir@, BLIM as int);
    }
    ball.pos = b.pos.add(dir.scale(corr));
    let v = b.vel.dot(dir);
    proof {
        lemma_scale_unit(dir@, o.push_velocity as int - v as int);
    }
    ball.vel = b.vel.add(dir.scale(o.push_velocity - v));
    if *score < u64::MAX {
        *score = *score + 1;
    }
}

/// The point of segment `[a, b]` closest to `p`: the projection parameter
/// is clamped into `[0, 1]`. Out-of-range inputs and a degenerate segment
/// answer `a`.
pub open spec fn cp_seg(p: V3, a: V3, b: V3) -> V3 {
    if !in_b(p, PLIM as int) || !in_b(a, PLIM as int) || !in_b(b, PLIM as int) {
        a
    } else {
        let ab = v_sub(b, a);
        let t = v_dot(ab, ab);
        if t == 0 {
            a
        } else {
            let q = tdiv((v_dot(p, ab) - v_dot(a, ab)) * SCALE, t);
            let tc = if q < 0 {
                0
            } else if q > SCALE {
                SCALE as int
            } else {
                q
            };
            v_add(a, v_scale(ab, tc))
        }
    }
}

/// Closest point on a segment, exactly as [`cp_seg`] states.
pub fn closest_point_on_segment(p: Vec3, a: Vec3, b: Vec3) -> (r: Vec3)
    ensures
        r@ == cp_seg(p@, a@, b@),
{
    if !(in_lim(p, PLIM) && in_lim(a, PLIM) && in_lim(b, PLIM)) {
        return a;
    }
    proof {
        lemma_sub_in_b(b@, a@, PLIM as int);
    }
    let ab = b.sub(a);
    let t = ab.dot(ab);
    if t == 0 {
        return a;
    }
    proof {
        lemma_dot_pos(ab@);
        lemma_dot_cap(p@, ab@);
        lemma_dot_cap(a@, ab@);
        let num = (v_dot(p@, ab@) - v_dot(a@, ab@)) * (SCALE as int);
        lemma_mul_bound(v_dot(p@, ab@) - v_dot(a@, ab@), SCALE as int,
            4_000_000_000_000_000_000int, SCALE as int);
        lemma_tdiv_bound(num, t as int);
    }
    let q = div_i128(
        ((p.dot(ab) as i128) - (a.dot(ab) as i128)) * (SCALE as i128),
        t as i128,
    );
    let tc: i64 = if q < 0 {
        0
    } else if q > SCALE as i128 {
        SCALE
    } else {
        q as i64
    };
    proof {
        crate::vec3::lemma_scale_bounds(ab@, tc as int, 2 * PLIM as int, SCALE as int);
        lemma_mul_div_exact(2 * PLIM as int, SCALE as int);
    }
    a.add(ab.scale(tc))
}

/// A rotating flipper paddle: a capsule from its pivot to its tip, with
/// an independently simulated rotation. The tip position is derived from
/// the rotation by the host (trigonometry stays outside the solver); the
/// response only needs pivot, tip, radius and the current angular
/// velocity.
#[derive(Clone, Copy, PartialEq, Eq, Structural, Debug)]
pub struct Flipper {
    /// Pivot position.
    pub pos: Vec3,
    /// Tip position.
    pub tip: Vec3,
    /// Capsule radius, a positive raw scalar.
    pub radius: i64,
    /// Current rotation angle in raw radians.
    pub rotation: i64,
    /// Rotation at the previous tick.
    pub prev_rotation: i64,
    /// Resting angle.
    pub rest_angle: i64,
    /// Angle at full press.
    pub max_rotation: i64,
    /// Drive speed in raw radians per second.
    pub angular_velocity: i64,
    /// Drive direction: one or minus one, as a raw scalar.
    pub sign: i64,
    /// Measured angular velocity of the last simulated tick.
    pub current_angular_velocity: i64,
}

/// Magnitude cap on flipper angles and angular speeds.
pub const ALIM: i64 = 1_000_000_000;

/// The smaller of two raw scalars.
pub open spec fn min_i(a: int, b: int) -> int {
    if a < b {
        a
    } else {
        b
    }
}

/// The larger of two raw scalars.
pub open spec fn max_i(a: int, b: int) -> int {
    if a < b {
        b
    } else {
        a
    }
}

/// The mirror of one flipper drive tick: advance the rotation toward the
/// pressed or resting stop, clamp it between the two stops, and measure
/// the angular velocity actually achieved. Returns the new
/// `(rotation, previous rotation, current angular velocity)`.
pub open spec fn flipper_driven(f: Flipper, dt: int, pressed: bool) -> (int, int, int) {
    if !(1 <= dt <= SCALE) || abs_i(f.rotation as int) > ALIM as int || abs_i(
        f.angular_velocity as int,
    ) > ALIM as int || abs_i(f.rest_angle as int) > ALIM as int || abs_i(f.max_rotation as int)
        > ALIM as int || abs_i(f.sign as int) > SCALE as int {
        (f.rotation as int, f.prev_rotation as int, f.current_angular_velocity as int)
    } else {
        let step = fxmul(fxmul(dt, f.angular_velocity as int), f.sign as int);
        let moved = if pressed {
            f.rotation + step
        } else {
            f.rotation - step
        };
        let lo = min_i(f.rest_angle as int, f.max_rotation as int);
        let hi = max_i(f.rest_angle as int, f.max_rotation as int);
        let clamped = if moved < lo {
            lo
        } else if moved > hi {
            hi
        } else {
            moved
        };
        (clamped, f.rotation as int, tdiv((clamped - f.rotation) * SCALE, dt))
    }
}

/// Advances a flipper's rotation for one tick: driven toward the pressed
/// stop while its key is held and back to rest otherwise, clamped between
/// the two stops, with the achieved angular velocity recorded for the
/// collision response. The host recomputes `tip` from the new rotation.
pub fn flipper_simulate(f: &mut Flipper, dt: i64, pressed: bool)
    ensures
        final(f).rotation as int == flipper_driven(*old(f), dt as int, pressed).0,
        final(f).prev_rotation as int == flipper_driven(*old(f), dt as int, pressed).1,
        final(f).current_angular_velocity as int == flipper_driven(*old(f), dt as int, pressed).2,
        final(f).pos == old(f).pos,
        final(f).tip == old(f).tip,
        final(f).radius == old(f).radius,
        final(f).rest_angle == old(f).rest_angle,
        final(f).max_rotation == old(f).max_rotation,
        final(f).angular_velocity == old(f).angular_velocity,
        final(f).sign == old(f).sign,
{
    if !(1 <= dt && dt <= SCALE) || f.rotation < -ALIM || f.rotation > ALIM
        || f.angular_velocity < -ALIM || f.angular_velocity > ALIM || f.rest_angle < -ALIM
        || f.rest_angle > ALIM || f.max_rotation < -ALIM || f.max_rotation > ALIM || f.sign
        < -SCALE || f.sign > SCALE {
        return ;
    }
    proof {
        lemma_fxmul_frac(f.angular_velocity as int, dt as int);
        assert(fxmul(dt as int, f.angular_velocity as int) == fxmul(
            f.angular_velocity as int,
            dt as int,
        )) by {
            assert((dt as int) * (f.angular_velocity as int) == (f.angular_velocity as int)
                * (dt as int)) by (nonlinear_arith);
        }
        lemma_fxmul_frac(fxmul(dt as int, f.angular_velocity as int), f.sign as int);
    }
    let step = crate::fixed::fx_mul(crate::fixed::fx_mul(dt, f.angular_velocity), f.sign);
    let moved = if pressed {
        f.rotation + step
    } else {
        f.rotation - step
    };
    let lo = if f.rest_angle < f.max_rotation {
        f.rest_angle
    } else {
        f.max_rotation
    };
    let hi = if f.rest_angle < f.max_rotation {
        f.max_rotation
    } else {
        f.rest_angle
    };
    let clamped = if moved < lo {
        lo
    } else if moved > hi {
        hi
    } else {
        moved
    };
    proof {
        lemma_mul_bound(clamped as int - f.rotation as int, SCALE as int, 2 * ALIM as int,
            SCALE as int);
        lemma_tdiv_bound((clamped as int - f.rotation as int) * SCALE, dt as int);
    }
    let cav = div_i128(
        ((clamped as i128) - (f.rotation as i128)) * (SCALE as i128),
        dt as i128,
    ) as i64;
    f.prev_rotation = f.rotation;
    f.rotation = clamped;
    f.current_angular_velocity = cav;
}

/// The mirror of one ball-flipper contact: push the ball out of the
/// capsule and take the flipper's surface speed at the contact into the
/// ball's normal velocity. The tangential component is left as it was, a
/// documented inaccuracy of this response: balls cling to the paddle a
/// little, which is accepted for the control it gives.
pub open spec fn flipper_collided(b: Ball, f: Flipper) -> Ball {
    if !ball_ok(b) || !in_b(f.pos@, PLIM as int) || !in_b(f.tip@, PLIM as int) || !(0 < f.radius
        <= PLIM) || abs_i(f.current_angular_velocity as int) > BLIM as int {
        b
    } else {
        let closest = cp_seg(b.pos@, f.pos@, f.tip@);
        let d = v_sub(b.pos@, closest);
        let len = v_len(d);
        if len == 0 || len > b.radius + f.radius {
            b
        } else {
            let dir = v_div(d, len);
            let corr = b.radius + f.radius - len;
            let p1 = v_add(b.pos@, v_scale(dir, corr));
            let rv = v_sub(v_add(closest, v_scale(dir, f.radius as int)), f.pos@);
            let sv = v_scale(V3 { x: -rv.y, y: rv.x, z: 0 }, f.current_angular_velocity as int);
            if !in_b(sv, BLIM as int) {
                Ball { pos: to_vec3(p1), ..b }
            } else {
                let v = v_dot(b.vel@, dir);
                let vnew = v_dot(sv, dir);
                let v1 = v_add(b.vel@, v_scale(dir, vnew - v));
                Ball { pos: to_vec3(p1), vel: to_vec3(v1), ..b }
            }
        }
    }
}

/// Resolves one ball-flipper contact, exactly as [`flipper_collided`]
/// states.
#[verifier::rlimit(60)]
pub fn handle_ball_flipper_collision(ball: &mut Ball, f: &Flipper)
    ensures
        *final(ball) == flipper_collided(*old(ball), *f),
{
    let b = *ball;
    if !ball_ok_exec(b) || !(in_lim(f.pos, PLIM) && in_lim(f.tip, PLIM) && 0 < f.radius
        && f.radius <= PLIM && -BLIM <= f.current_angular_velocity
        && f.current_angular_velocity <= BLIM) {
        return ;
    }
    let closest = closest_point_on_segment(b.pos, f.pos, f.tip);
    proof {
        lemma_cp_in_range(b.pos@, f.pos@, f.tip@);
        lemma_sub_in_b(b.pos@, closest@, 3 * PLIM as int);
    }
    let d = b.pos.sub(closest);
    let len = d.length();
    if len == 0 || len > b.radius + f.radius {
        return ;
    }
    proof {
        lemma_mul_bound(4 * PLIM as int, 4 * PLIM as int, 4 * PLIM as int, 4 * PLIM as int);
        assert(v_len2(d@) <= 3 * ((4 * PLIM as int) * (4 * PLIM as int))) by {
            lemma_mul_bound(d@.x, d@.x, 4 * PLIM as int, 4 * PLIM as int);
            lemma_mul_bound(d@.y, d@.y, 4 * PLIM as int, 4 * PLIM as int);
            lemma_mul_bound(d@.z, d@.z, 4 * PLIM as int, 4 * PLIM as int);
        }
        assert(3 * ((4 * PLIM as int) * (4 * PLIM as int)) <= 2_100_000_000_000int
            * 2_100_000_000_000int) by (nonlinear_arith)
            requires PLIM == 300_000_000_000i64;
        lemma_sqrt_le(v_len2(d@), len as int, 2_100_000_000_000int);
        lemma_unit_bound(d@, len as int);
    }
    let dir = d.div(len);
    let corr = b.radius + f.radius - len;
    proof {
        lemma_scale_unit(dir@, corr as int);
        lemma_scale_unit(dir@, f.radius as int);
    }
    ball.pos = b.pos.add(dir.scale(corr));
    let rv = closest.add(dir.scale(f.radius)).sub(f.pos);
    let perp = Vec3 { x: -rv.y, y: rv.x, z: 0 };
    proof {
        crate::vec3::lemma_scale_bounds(perp@, f.current_angular_velocity as int,
            5 * PLIM as int, BLIM as int);
    }
    let sv = perp.scale(f.current_angular_velocity);
    if in_lim(sv, BLIM) {
        proof {
            lemma_dot_unit_bound(b.vel@, dir@, BLIM as int);
            lemma_dot_unit_bound(sv@, dir@, BLIM as int);
        }
        let v = b.vel.dot(dir);
        let vnew = sv.dot(dir);
        proof {
            lemma_scale_unit(dir@, vnew as int - v as int);
        }
        ball.vel = b.vel.add(dir.scale(vnew - v));
    }
}

/// The closest point on a solver-range segment is within three times the
/// solver range.
proof fn lemma_cp_in_range(p: V3, a: V3, b: V3)
    requires
        in_b(p, PLIM as int),
        in_b(a, PLIM as int),
        in_b(b, PLIM as int),
    ensures
        in_b(cp_seg(p, a, b), 3 * PLIM as int),
{
    let ab = v_sub(b, a);
    let t = v_dot(ab, ab);
    if t != 0 {
        let q = tdiv((v_dot(p, ab) - v_dot(a, ab)) * SCALE, t);
        let tc = if q < 0 {
            0
        } else if q > SCALE {
            SCALE as int
        } else {
            q
        };
        lemma_scale_frac_vec(ab, tc);
    }
}

/// Scaling a vector by a factor of at most one keeps its bounds.
proof fn lemma_scale_frac_vec(ab: V3, tc: int)
    requires
        0 <= tc <= SCALE,
    ensures
        abs_i(v_scale(ab, tc).x) <= abs_i(ab.x),
        abs_i(v_scale(ab, tc).y) <= abs_i(ab.y),
        abs_i(v_scale(ab, tc).z) <= abs_i(ab.z),
{
    lemma_fxmul_frac(ab.x, tc);
    lemma_fxmul_frac(ab.y, tc);
    lemma_fxmul_frac(ab.z, tc);
}

/// Every point of the closed polyline is within the solver range.
pub open spec fn border_ok(pts: Seq<V3>) -> bool {
    forall|i: int| 0 <= i < pts.len() ==> in_b(#[trigger] pts[i], PLIM as int)
}

/// The candidate contact of border segment `i`: closest point, outward
/// normal of the segment (its left-hand perpendicular) and distance.
pub open spec fn seg_candidate(pts: Seq<V3>, p: V3, i: int) -> (V3, V3, int) {
    let a = pts[i];
    let b = pts[if i + 1 == pts.len() {
        0int
    } else {
        i + 1
    }];
    let c = cp_seg(p, a, b);
    let ab = v_sub(b, a);
    (c, V3 { x: -ab.y, y: ab.x, z: 0 }, v_len(v_sub(p, c)))
}

/// The globally nearest of the first `k` border segments (ties keep the
/// earlier segment).
pub open spec fn best_seg(pts: Seq<V3>, p: V3, k: int) -> (V3, V3, int)
    decreases k,
{
    if k <= 1 {
        seg_candidate(pts, p, 0)
    } else {
        let prev = best_seg(pts, p, k - 1);
        let cand = seg_candidate(pts, p, k - 1);
        if cand.2 < prev.2 {
            cand
        } else {
            prev
        }
    }
}

/// The mirror of one ball-border contact: find the globally nearest
/// segment of the closed polyline, then push the ball to the inside and
/// reflect its normal velocity scaled by its restitution. The side of the
/// border is told by the sign of the separation against the segment
/// normal.
pub open spec fn border_collided(b: Ball, pts: Seq<V3>) -> Ball {
    if pts.len() < 3 || !border_ok(pts) || !ball_ok(b) {
        b
    } else {
        let best = best_seg(pts, b.pos@, pts.len() as int);
        let closest = best.0;
        let normal = best.1;
        let d0 = v_sub(b.pos@, closest);
        let dist0 = v_len(d0);
        let d = if dist0 == 0 {
            normal
        } else {
            d0
        };
        let dist = if dist0 == 0 {
            v_len(normal)
        } else {
            dist0
        };
        if dist == 0 {
            b
        } else {
            let du = v_div(d, dist);
            let inside = v_dot(du, normal) >= 0;
            if (inside && dist > b.radius) || (!inside && dist > PLIM) {
                b
            } else {
                let p1 = if inside {
                    v_add(b.pos@, v_scale(du, b.radius - dist))
                } else {
                    v_add(b.pos@, v_scale(du, -(dist + b.radius)))
                };
                let v = v_dot(b.vel@, du);
                let vnew = fxmul(abs_i(v), b.restitution as int);
                let v1 = v_add(b.vel@, v_scale(du, vnew - v));
                Ball { pos: to_vec3(p1), vel: to_vec3(v1), ..b }
            }
        }
    }
}

/// Resolves one ball-border contact against a closed polyline, exactly as
/// [`border_collided`] states. The nearest segment is found by scanning
/// every edge.
#[verifier::rlimit(80)]
pub fn handle_ball_border_collision(ball: &mut Ball, points: &Vec<Vec3>)
    ensures
        *final(ball) == border_collided(*old(ball), crate::particles::views(points@)),
{
    let ghost pts = crate::particles::views(points@);
    let b = *ball;
    let n = points.len();
    if n < 3 || !ball_ok_exec(b) {
        return ;
    }
    let mut all_ok = true;
    let mut i: usize = 0;
    while i < n
        invariant
            n == points@.len(),
            pts == crate::particles::views(points@),
            i <= n,
            all_ok == forall|j: int| 0 <= j < i ==> in_b(#[trigger] pts[j], PLIM as int),
        decreases n - i,
    {
        if !in_lim(points[i], PLIM) {
            all_ok = false;
        }
        proof {
            assert(pts[i as int] == points@[i as int]@);
        }
        i += 1;
    }
    if !all_ok {
        return ;
    }
    proof {
        assert(border_ok(pts));
        assert forall|j: int| 0 <= j < n implies in_b(#[trigger] points@[j]@, PLIM as int) by {
            assert(pts[j] == points@[j]@);
        }
    }
    // Scan every edge for the globally nearest point.
    proof {
        assert(pts[0] == points@[0]@);
        assert(pts[1int] == points@[1]@);
    }
    let mut closest = closest_point_on_segment(b.pos, points[0], points[1]);
    let e0 = points[1].sub(points[0]);
    let mut normal = Vec3 { x: -e0.y, y: e0.x, z: 0 };
    proof {
        lemma_cp_in_range(b.pos@, pts[0], pts[1int]);
        lemma_sub_in_b(b.pos@, cp_seg(b.pos@, pts[0], pts[1int]), 3 * PLIM as int);
        lemma_dist_cap(b.pos@, cp_seg(b.pos@, pts[0], pts[1int]));
    }
    let mut min_dist = b.pos.dist(closest);
    let mut index: usize = 1;
    while index < n
        invariant
            n == points@.len(),
            3 <= n,
            pts == crate::particles::views(points@),
            border_ok(pts),
            forall|j: int| 0 <= j < n ==> in_b(#[trigger] points@[j]@, PLIM as int),
            in_b(b.pos@, PLIM as int),
            1 <= index <= n,
            (closest@, normal@, min_dist as int) == best_seg(pts, b.pos@, index as int),
        decreases n - index,
    {
        let a2 = points[index];
        let b2 = points[if index + 1 == n {
            0
        } else {
            index + 1
        }];
        let c = closest_point_on_segment(b.pos, a2, b2);
        proof {
            assert(pts[index as int] == points@[index as int]@);
            assert(pts[if index as int + 1 == n as int { 0int } else { index as int + 1 }]
                == points@[if index as int + 1 == n as int { 0int } else { index as int + 1 }]@);
            lemma_cp_in_range(b.pos@, a2@, b2@);
            lemma_sub_in_b(b.pos@, c@, 3 * PLIM as int);
            lemma_dist_cap(b.pos@, c@);
        }
        let dist = b.pos.dist(c);
        if dist < min_dist {
            min_dist = dist;
            closest = c;
            let ab = b2.sub(a2);
            normal = Vec3 { x: -ab.y, y: ab.x, z: 0 };
        }
        index += 1;
    }
    // Push out of the nearest segment.
    proof {
        lemma_best_in_range(pts, b.pos@, n as int);
        lemma_sub_in_b(b.pos@, closest@, 3 * PLIM as int);
        lemma_dist_cap(b.pos@, closest@);
    }
    let d0 = b.pos.sub(closest);
    let dist0 = d0.length();
    let d = if dist0 == 0 {
        normal
    } else {
        d0
    };
    proof {
        lemma_dist_cap2(normal@);
    }
    let dist = if dist0 == 0 {
        normal.length()
    } else {
        dist0
    };
    if dist == 0 {
        return ;
    }
    proof {
        lemma_unit_bound(d@, dist as int);
        lemma_dot_unit_bound(normal@, v_div(d@, dist as int), 2 * PLIM as int);
    }
    let du = d.div(dist);
    let side = du.dot(normal);
    if side >= 0 && dist > b.radius {
        return ;
    }
    if side < 0 && dist > PLIM {
        return ;
    }
    proof {
        lemma_scale_unit(du@, b.radius as int - dist as int);
        lemma_scale_unit(du@, -(dist as int + b.radius as int));
        lemma_dot_unit_bound(b.vel@, du@, BLIM as int);
        lemma_fxmul_frac(abs_i(v_dot(b.vel@, du@)) as i64 as int, b.restitution as int);
    }
    if side >= 0 {
        ball.pos = b.pos.add(du.scale(b.radius - dist));
    } else {
        ball.pos = b.pos.add(du.scale(-(dist + b.radius)));
    }
    let v = b.vel.dot(du);
    let vabs = if v >= 0 {
        v
    } else {
        -v
    };
    let vnew = crate::fixed::fx_mul(vabs, b.restitution);
    proof {
        lemma_scale_unit(du@, vnew as int - v as int);
    }
    ball.vel = b.vel.add(du.scale(vnew - v));
}

/// The distance to a point within three solver ranges fits the square
/// root cap.
proof fn lemma_dist_cap(p: V3, c: V3)
    requires
        in_b(p, PLIM as int),
        in_b(c, 3 * PLIM as int),
    ensures
        v_len(v_sub(p, c)) <= 2_100_000_000_000,
        is_sqrt(v_len2(v_sub(p, c)), v_len(v_sub(p, c))),
{
    let d = v_sub(p, c);
    crate::vec3::lemma_len2_nonneg(d);
    crate::fixed::lemma_sqrt_exists(v_len2(d));
    lemma_mul_bound(d.x, d.x, 4 * PLIM as int, 4 * PLIM as int);
    lemma_mul_bound(d.y, d.y, 4 * PLIM as int, 4 * PLIM as int);
    lemma_mul_bound(d.z, d.z, 4 * PLIM as int, 4 * PLIM as int);
    assert(3 * ((4 * PLIM as int) * (4 * PLIM as int)) <= 2_100_000_000_000int
        * 2_100_000_000_000int) by (nonlinear_arith)
        requires PLIM == 300_000_000_000i64;
    lemma_sqrt_le(v_len2(d), v_len(d), 2_100_000_000_000);
}

/// The length of a doubled-range vector fits the square root cap.
proof fn lemma_dist_cap2(d: V3)
    requires
        in_b(d, 2 * PLIM as int),
    ensures
        v_len(d) <= 1_100_000_000_000,
        is_sqrt(v_len2(d), v_len(d)),
{
    crate::vec3::lemma_len2_nonneg(d);
    crate::fixed::lemma_sqrt_exists(v_len2(d));
    lemma_mul_bound(d.x, d.x, 2 * PLIM as int, 2 * PLIM as int);
    lemma_mul_bound(d.y, d.y, 2 * PLIM as int, 2 * PLIM as int);
    lemma_mul_bound(d.z, d.z, 2 * PLIM as int, 2 * PLIM as int);
    assert(3 * ((2 * PLIM as int) * (2 * PLIM as int)) <= 1_100_000_000_000int
        * 1_100_000_000_000int) by (nonlinear_arith)
        requires PLIM == 300_000_000_000i64;
    lemma_sqrt_le(v_len2(d), v_len(d), 1_100_000_000_000);
}

/// Every candidate of an in-range border stays in range, so the best one
/// does.
proof fn lemma_best_in_range(pts: Seq<V3>, p: V3, k: int)
    requires
        border_ok(pts),
        in_b(p, PLIM as int),
        1 <= k <= pts.len(),
        3 <= pts.len(),
    ensures
        in_b(best_seg(pts, p, k).0, 3 * PLIM as int),
        in_b(best_seg(pts, p, k).1, 2 * PLIM as int),
    decreases k,
{
    if k <= 1 {
        lemma_cp_in_range(p, pts[0], pts[if 1int == pts.len() {
            0int
        } else {
            1int
        }]);
    } else {
        lemma_best_in_range(pts, p, k - 1);
        lemma_cp_in_range(p, pts[k - 1], pts[if k == pts.len() {
            0int
        } else {
            k
        }]);
    }
}

/// One tick of free flight for every ball: gravity into velocity,
/// velocity into position.
pub open spec fn balls_integrated(bs: Seq<Ball>, g: V3, dt: int) -> Seq<Ball> {
    bs.map_values(
        |b: Ball|
            {
                let f = fly_step(b.pos@, b.vel@, g, dt, SCALE as int);
                Ball { pos: to_vec3(f.0), vel: to_vec3(f.1), ..b }
            },
    )
}

/// The collision of pair `(i, j)` applied inside the buffer, with the
/// lesser of the two restitutions.
pub open spec fn pair_collided_seq(bs: Seq<Ball>, i: int, j: int) -> Seq<Ball> {
    let e = min_i(bs[i].restitution as int, bs[j].restitution as int);
    let r = ball_ball_collided(bs[i], bs[j], e);
    bs.update(i, r.0).update(j, r.1)
}

/// Ball `i` collided against balls `i + 1 .. j` in order.
pub open spec fn collide_row(bs: Seq<Ball>, i: int, j: int) -> Seq<Ball>
    decreases j - i,
{
    if j <= i + 1 {
        bs
    } else {
        pair_collided_seq(collide_row(bs, i, j - 1), i, j - 1)
    }
}

/// All unordered pairs among the first `i` rows collided, each row against
/// every later ball.
pub open spec fn collide_pairs(bs: Seq<Ball>, i: int) -> Seq<Ball>
    decreases i,
{
    if i <= 0 {
        bs
    } else {
        let prev = collide_pairs(bs, i - 1);
        collide_row(prev, i - 1, prev.len() as int)
    }
}

/// A row of collisions keeps the buffer length.
pub proof fn lemma_collide_row_len(bs: Seq<Ball>, i: int, j: int)
    requires
        0 <= i < bs.len(),
        j <= bs.len(),
    ensures
        collide_row(bs, i, j).len() == bs.len(),
    decreases j,
{
    if j > i + 1 {
        lemma_collide_row_len(bs, i, j - 1);
    }
}

/// The pair sweep keeps the buffer length.
pub proof fn lemma_collide_pairs_len(bs: Seq<Ball>, i: int)
    requires
        i <= bs.len(),
    ensures
        collide_pairs(bs, i).len() == bs.len(),
    decreases i,
{
    if i > 0 {
        lemma_collide_pairs_len(bs, i - 1);
        if i - 1 < bs.len() {
            lemma_collide_row_len(collide_pairs(bs, i - 1), i - 1, bs.len() as int);
        }
    }
}

/// One ball fully resolved against the static scene: every bumper in
/// order (counting hits), every flipper, then the border, exactly in the
/// order the tick applies them.
pub open spec fn ball_vs_obstacles(b: Ball, obs: Seq<Obstacle>, k: int, score: int) -> (
    Ball,
    int,
)
    decreases k,
{
    if k <= 0 {
        (b, score)
    } else {
        let prev = ball_vs_obstacles(b, obs, k - 1, score);
        let r = obstacle_collided(prev.0, obs[k - 1]);
        (r.0, if r.1 && prev.1 < u64::MAX { prev.1 + 1 } else { prev.1 })
    }
}

/// One ball resolved against every flipper in order.
pub open spec fn ball_vs_flippers(b: Ball, fls: Seq<Flipper>, k: int) -> Ball
    decreases k,
{
    if k <= 0 {
        b
    } else {
        flipper_collided(ball_vs_flippers(b, fls, k - 1), fls[k - 1])
    }
}

/// The whole static-scene pass for the first `k` balls: bumpers, flippers
/// and border per ball, threading the score through.
pub open spec fn balls_vs_scene(
    bs: Seq<Ball>,
    obs: Seq<Obstacle>,
    fls: Seq<Flipper>,
    pts: Seq<V3>,
    score: int,
    k: int,
) -> (Seq<Ball>, int)
    decreases k,
{
    if k <= 0 {
        (bs, score)
    } else {
        let prev = balls_vs_scene(bs, obs, fls, pts, score, k - 1);
        let o = ball_vs_obstacles(prev.0[k - 1], obs, obs.len() as int, prev.1);
        let f = ball_vs_flippers(o.0, fls, fls.len() as int);
        let w = border_collided(f, pts);
        (prev.0.update(k - 1, w), o.1)
    }
}

/// One full pinball tick: integrate every ball under gravity, resolve
/// every unordered ball pair (lesser restitution), then resolve each ball
/// against every bumper (scoring each hit), every flipper and the border,
/// in that order.
#[verifier::rlimit(60)]
pub fn simulate(
    balls: &mut Vec<Ball>,
    obstacles: &Vec<Obstacle>,
    flippers: &Vec<Flipper>,
    border: &Vec<Vec3>,
    gravity: Vec3,
    dt: i64,
    score: &mut u64,
)
    ensures
        final(balls)@.len() == old(balls)@.len(),
        ({
            let after_pairs = collide_pairs(
                balls_integrated(old(balls)@, gravity@, dt as int),
                old(balls)@.len() as int,
            );
            let done = balls_vs_scene(
                after_pairs,
                obstacles@,
                flippers@,
                crate::particles::views(border@),
                *old(score) as int,
                old(balls)@.len() as int,
            );
            final(balls)@ == done.0 && *final(score) == done.1
        }),
{
    let ghost bs0 = balls@;
    let n = balls.len();
    // Integrate.
    let mut i: usize = 0;
    while i < n
        invariant
            balls@.len() == n,
            bs0.len() == n,
            i <= n,
            forall|k: int| i <= k < n ==> balls@[k] == bs0[k],
            forall|k: int| 0 <= k < i ==> balls@[k] == balls_integrated(bs0, gravity@, dt as int)[k],
        decreases n - i,
    {
        let b = balls[i];
        let mut nb = b;
        simulate_one_step(&mut nb, gravity, dt);
        balls.set(i, nb);
        i += 1;
    }
    proof {
        assert(balls@ =~= balls_integrated(bs0, gravity@, dt as int));
    }
    // Ball-ball pairs.
    let ghost bsi = balls@;
    let mut i: usize = 0;
    while i < n
        invariant
            balls@.len() == n,
            bsi.len() == n,
            i <= n,
            balls@ == collide_pairs(bsi, i as int),
        decreases n - i,
    {
        let ghost row0 = balls@;
        let mut j: usize = i + 1;
        while j < n
            invariant
                balls@.len() == n,
                row0.len() == n,
                i < n,
                i + 1 <= j <= n,
                balls@ == collide_row(row0, i as int, j as int),
            decreases n - j,
        {
            let mut a = balls[i];
            let mut b = balls[j];
            let e = if a.restitution < b.restitution {
                a.restitution
            } else {
                b.restitution
            };
            handle_ball_ball_collision(&mut a, &mut b, e);
            balls.set(i, a);
            balls.set(j, b);
            j += 1;
        }
        i += 1;
        proof {
            assert(collide_pairs(bsi, i as int) == collide_row(row0, i as int - 1, n as int));
        }
    }
    // Static scene.
    let ghost bsp = balls@;
    let ghost score0 = *score as int;
    let mut i: usize = 0;
    while i < n
        invariant
            balls@.len() == n,
            bsp.len() == n,
            i <= n,
            forall|k: int| i <= k < n ==> balls@[k] == bsp[k],
            (balls@, *score as int) == balls_vs_scene(
                bsp,
                obstacles@,
                flippers@,
                crate::particles::views(border@),
                score0,
                i as int,
            ),
        decreases n - i,
    {
        let mut b = balls[i];
        let m = obstacles.len();
        let ghost b0 = b;
        let ghost sc0 = *score as int;
        let mut oi: usize = 0;
        while oi < m
            invariant
                m == obstacles@.len(),
                oi <= m,
                (b, *score as int) == ball_vs_obstacles(b0, obstacles@, oi as int, sc0),
            decreases m - oi,
        {
            let o = obstacles[oi];
            handle_ball_obstacle_collision(&mut b, &o, score);
            oi += 1;
        }
        let fm = flippers.len();
        let ghost b1 = b;
        let mut fi: usize = 0;
        while fi < fm
            invariant
                fm == flippers@.len(),
                fi <= fm,
                b == ball_vs_flippers(b1, flippers@, fi as int),
            decreases fm - fi,
        {
            let f = flippers[fi];
            handle_ball_flipper_collision(&mut b, &f);
            fi += 1;
        }
        handle_ball_border_collision(&mut b, border);
        balls.set(i, b);
        i += 1;
    }
}

/// One tick of free flight for a single ball, shared by the tick driver
/// and the bead scenarios.
pub fn simulate_one_step(ball: &mut Ball, gravity: Vec3, dt: i64)
    ensures
        ({
            let f = fly_step(old(ball).pos@, old(ball).vel@, gravity@, dt as int, SCALE as int);
            *final(ball) == Ball { pos: to_vec3(f.0), vel: to_vec3(f.1), ..*old(ball) }
        }),
{
    let p = ball.pos;
    let v = ball.vel;
    if in_lim(p, PLIM) && in_lim(v, PLIM) && in_lim(gravity, PLIM) && 0 <= dt && dt <= SCALE {
        proof {
            crate::vec3::lemma_scale_bounds(gravity@, dt as int, PLIM as int, SCALE as int);
            lemma_mul_div_exact(PLIM as int, SCALE as int);
            crate::vec3::lemma_scale_bounds(
                v_scale(gravity@, dt as int),
                SCALE as int,
                PLIM as int,
                SCALE as int,
            );
        }
        let dv = gravity.scale(dt).scale(SCALE);
        if in_lim(dv, PLIM) {
            let v1 = v.add(dv);
            proof {
                crate::vec3::lemma_scale_bounds(v1@, dt as int, 2 * PLIM as int, SCALE as int);
                lemma_mul_div_exact(2 * PLIM as int, SCALE as int);
                crate::vec3::lemma_scale_bounds(
                    v_scale(v1@, dt as int),
                    SCALE as int,
                    2 * PLIM as int,
                    SCALE as int,
                );
            }
            let dp = v1.scale(dt).scale(SCALE);
            ball.vel = v1;
            if in_lim(dp, PLIM) {
                ball.pos = p.add(dp);
            }
        }
    }
}

/// A dot product of a vector with itself is nonnegative.
proof fn lemma_dot_pos(a: V3)
    ensures
        v_dot(a, a) >= 0,
{
    assert(a.x * a.x >= 0) by (nonlinear_arith);
    assert(a.y * a.y >= 0) by (nonlinear_arith);
    assert(a.z * a.z >= 0) by (nonlinear_arith);
    lemma_tdiv_bound(a.x * a.x + a.y * a.y + a.z * a.z, SCALE as int);
}

/// A dot product of two solver-range vectors is within four quintillion.
proof fn lemma_dot_cap(a: V3, b: V3)
    requires
        in_b(a, PLIM as int),
        in_b(b, 2 * PLIM as int),
    ensures
        abs_i(v_dot(a, b)) <= 2_000_000_000_000_000_000,
{
    lemma_mul_bound(a.x, b.x, PLIM as int, 2 * PLIM as int);
    lemma_mul_bound(a.y, b.y, PLIM as int, 2 * PLIM as int);
    lemma_mul_bound(a.z, b.z, PLIM as int, 2 * PLIM as int);
    assert(3 * ((PLIM as int) * (2 * PLIM as int)) <= 2_000_000_000_000_000_000int
        * (SCALE as int)) by (nonlinear_arith)
        requires PLIM == 300_000_000_000i64, SCALE == 1_000_000i64;
    lemma_shrink_by(
        a.x * b.x + a.y * b.y + a.z * b.z,
        2_000_000_000_000_000_000int * (SCALE as int),
        SCALE as int,
    );
    lemma_mul_div_exact(2_000_000_000_000_000_000int, SCALE as int);
    assert(2_000_000_000_000_000_000int * (SCALE as int) == (SCALE as int)
        * 2_000_000_000_000_000_000int) by (nonlinear_arith);
}

} // verus!
