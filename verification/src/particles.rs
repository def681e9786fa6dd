//! The XPBD particle solver core.
//!
//! A body is a flat set of particles: parallel buffers of current position,
//! previous position, velocity and inverse mass. One sub-step is pre-solve
//! (integrate and clamp to the ground plane), solve (project each
//! constraint with compliance weighting) and post-solve (recover velocity
//! from the position delta). Every phase is specified by an exact mirror
//! over the integer view, with local guards for degenerate and out-of-range
//! values in place of propagated errors: a skipped element contributes no
//! correction.

use vstd::prelude::*;

verus! {

use crate::fixed::{
    SCALE, tdiv, fxmul, abs_i, is_sqrt, div_i128, lemma_tdiv_bound, lemma_mul_bound,
    lemma_sqrt_le,
};
use crate::vec3::{
    Vec3, V3, v_add, v_sub, v_scale, v_div, v_len, v_len2, in_b, VLIM, lemma_unit_bound,
    lemma_scale_unit, lemma_comp_le_len_given, lemma_shrink_by, lemma_mul_div_exact,
    lemma_scale_bounds, lemma_len2_nonneg,
};
use vstd::pervasive::VecAdditionalExecFns;

/// Magnitude cap on positions, velocities and rest values inside the
/// solver: three hundred thousand units. A particle or constraint outside
/// it is left untouched by the step, like any other degenerate element.
pub const PLIM: i64 = 300_000_000_000;

/// Magnitude cap on inverse masses inside the solver.
pub const MLIM: i64 = 1_000_000_000_000;

/// The mathematical values of a buffer of vectors.
pub open spec fn views(s: Seq<Vec3>) -> Seq<V3> {
    s.map_values(|v: Vec3| v@)
}

/// The integration step of one particle: gravity into velocity, velocity
/// into position, and the ground clamp that reverts a particle falling
/// under the plane to its old place at height zero. Returns the new
/// `(position, previous position, velocity)`.
pub open spec fn pre_step(p: V3, pr: V3, v: V3, w: int, g: V3, dt: int) -> (V3, V3, V3) {
    if w == 0 || !in_b(p, PLIM as int) || !in_b(v, PLIM as int) || !in_b(g, PLIM as int) {
        (p, pr, v)
    } else {
        let v1 = v_add(v, v_scale(g, dt));
        let p1 = v_add(p, v_scale(v1, dt));
        if p1.y < 0 {
            (V3 { x: p.x, y: 0, z: p.z }, p, v1)
        } else {
            (p1, p, v1)
        }
    }
}

/// The velocity-recovery step of one particle: the position delta over the
/// sub-step, divided by its duration.
pub open spec fn post_step(p: V3, pr: V3, v: V3, w: int, dt: int) -> V3 {
    if w == 0 || !in_b(p, PLIM as int) || !in_b(pr, PLIM as int) {
        v
    } else {
        v_div(v_sub(p, pr), dt)
    }
}

/// One compliance-weighted distance-constraint projection between
/// particles `i0` and `i1`: move both along their separation so that its
/// length approaches `rest`, each by its inverse-mass share. Degenerate
/// cases (both pinned, zero separation, out-of-range values) leave the
/// buffer unchanged.
pub open spec fn solve_dist_one(
    ps: Seq<V3>,
    ws: Seq<i64>,
    i0: int,
    i1: int,
    rest: int,
    alpha: int,
) -> Seq<V3> {
    if !(0 <= i0 < ps.len() && 0 <= i1 < ps.len()) {
        ps
    } else {
        let w0 = ws[i0] as int;
        let w1 = ws[i1] as int;
        if w0 < 0 || w1 < 0 || w0 > MLIM || w1 > MLIM || w0 + w1 == 0 {
            ps
        } else if !in_b(ps[i0], PLIM as int) || !in_b(ps[i1], PLIM as int) || !(0 <= rest
            <= PLIM) || alpha < 0 {
            ps
        } else {
            let d = v_sub(ps[i0], ps[i1]);
            let len = v_len(d);
            if len == 0 {
                ps
            } else {
                let dir = v_div(d, len);
                let c = len - rest;
                let s = tdiv(-c * SCALE, w0 + w1 + alpha);
                let p0 = v_add(ps[i0], v_scale(dir, fxmul(s, w0)));
                let p1 = v_add(ps[i1], v_scale(dir, fxmul(-s, w1)));
                ps.update(i0, p0).update(i1, p1)
            }
        }
    }
}

/// The first `k` distance constraints of a flat pair list, projected in
/// order.
pub open spec fn solve_dist_upto(
    ps: Seq<V3>,
    ws: Seq<i64>,
    ids: Seq<usize>,
    rests: Seq<i64>,
    alpha: int,
    k: int,
) -> Seq<V3>
    decreases k,
{
    if k <= 0 {
        ps
    } else {
        let prev = solve_dist_upto(ps, ws, ids, rests, alpha, k - 1);
        solve_dist_one(
            prev,
            ws,
            ids[2 * (k - 1)] as int,
            ids[2 * (k - 1) + 1] as int,
            rests[k - 1] as int,
            alpha,
        )
    }
}

/// A projection step never moves a pinned particle, and never moves any
/// particle of another constraint.
pub proof fn lemma_solve_dist_one_pinned(
    ps: Seq<V3>,
    ws: Seq<i64>,
    i0: int,
    i1: int,
    rest: int,
    alpha: int,
    i: int,
)
    requires
        0 <= i < ps.len(),
        i == i0 || i == i1 ==> ws[i] == 0,
    ensures
        solve_dist_one(ps, ws, i0, i1, rest, alpha)[i] == ps[i],
        solve_dist_one(ps, ws, i0, i1, rest, alpha).len() == ps.len(),
{
    let r = solve_dist_one(ps, ws, i0, i1, rest, alpha);
    if 0 <= i0 < ps.len() && 0 <= i1 < ps.len() {
        let w0 = ws[i0] as int;
        let w1 = ws[i1] as int;
        if !(w0 < 0 || w1 < 0 || w0 > MLIM || w1 > MLIM || w0 + w1 == 0) && in_b(
            ps[i0],
            PLIM as int,
        ) && in_b(ps[i1], PLIM as int) && 0 <= rest <= PLIM && alpha >= 0 {
            let d = v_sub(ps[i0], ps[i1]);
            let len = v_len(d);
            if len != 0 {
                if i == i0 || i == i1 {
                    let dir = v_div(d, len);
                    let c = len - rest;
                    let s = tdiv(-c * SCALE, w0 + w1 + alpha);
                    assert(fxmul(s, 0) == 0) by {
                        assert(s * 0 == 0) by (nonlinear_arith);
                    }
                    assert(fxmul(-s, 0) == 0) by {
                        assert((-s) * 0 == 0) by (nonlinear_arith);
                    }
                    assert(fxmul(dir.x, 0) == 0) by {
                        assert(dir.x * 0 == 0) by (nonlinear_arith);
                    }
                    assert(fxmul(dir.y, 0) == 0) by {
                        assert(dir.y * 0 == 0) by (nonlinear_arith);
                    }
                    assert(fxmul(dir.z, 0) == 0) by {
                        assert(dir.z * 0 == 0) by (nonlinear_arith);
                    }
                }
            }
        }
    }
}

/// Pinned particles survive a whole constraint pass unmoved: the
/// `inverse mass zero means never displaced` invariant for the projection
/// phase.
pub proof fn lemma_solve_dist_pinned(
    ps: Seq<V3>,
    ws: Seq<i64>,
    ids: Seq<usize>,
    rests: Seq<i64>,
    alpha: int,
    k: int,
    i: int,
)
    requires
        0 <= i < ps.len(),
        ws[i] == 0,
    ensures
        solve_dist_upto(ps, ws, ids, rests, alpha, k).len() == ps.len(),
        solve_dist_upto(ps, ws, ids, rests, alpha, k)[i] == ps[i],
    decreases k,
{
    if k > 0 {
        lemma_solve_dist_pinned(ps, ws, ids, rests, alpha, k - 1, i);
        let prev = solve_dist_upto(ps, ws, ids, rests, alpha, k - 1);
        lemma_solve_dist_one_pinned(
            prev,
            ws,
            ids[2 * (k - 1)] as int,
            ids[2 * (k - 1) + 1] as int,
            rests[k - 1] as int,
            alpha,
            i,
        );
    }
}

/// In exact arithmetic, one projection of a zero-compliance distance
/// constraint restores the rest length: if the new separation `nd` is the
/// old separation `d` rescaled by `rest / len` (stated cross-multiplied,
/// with `len` the exact length of `d`), then the new separation's length
/// is exactly `rest`. The fixed-point solver computes this projection with
/// rounding, so a solved pair converges to the rest length up to rounding.
pub proof fn lemma_distance_projection_exact(d: V3, nd: V3, rest: int, len: int)
    requires
        len > 0,
        rest >= 0,
        len * len == v_len2(d),
        nd.x * len == d.x * rest,
        nd.y * len == d.y * rest,
        nd.z * len == d.z * rest,
    ensures
        v_len2(nd) == rest * rest,
{
    assert((nd.x * nd.x) * (len * len) == (d.x * d.x) * (rest * rest)) by (nonlinear_arith)
        requires nd.x * len == d.x * rest;
    assert((nd.y * nd.y) * (len * len) == (d.y * d.y) * (rest * rest)) by (nonlinear_arith)
        requires nd.y * len == d.y * rest;
    assert((nd.z * nd.z) * (len * len) == (d.z * d.z) * (rest * rest)) by (nonlinear_arith)
        requires nd.z * len == d.z * rest;
    assert(v_len2(nd) * (len * len) == v_len2(d) * (rest * rest)) by (nonlinear_arith)
        requires
            (nd.x * nd.x) * (len * len) == (d.x * d.x) * (rest * rest),
            (nd.y * nd.y) * (len * len) == (d.y * d.y) * (rest * rest),
            (nd.z * nd.z) * (len * len) == (d.z * d.z) * (rest * rest),
            v_len2(nd) == nd.x * nd.x + nd.y * nd.y + nd.z * nd.z,
            v_len2(d) == d.x * d.x + d.y * d.y + d.z * d.z,
    ;
    assert(v_len2(nd) == rest * rest) by (nonlinear_arith)
        requires
            v_len2(nd) * (len * len) == v_len2(d) * (rest * rest),
            len * len == v_len2(d),
            len > 0,
    ;
}

/// The correction applied to one particle never exceeds the constraint
/// error: `|s * w0 / SCALE| <= |c|` for `s = -c * SCALE / b` with
/// `w0 <= b`.
pub proof fn lemma_correction_bound(c: int, w0: int, b: int)
    requires
        0 <= w0 <= b,
        1 <= b,
    ensures
        abs_i(fxmul(tdiv(-c * SCALE, b), w0)) <= abs_i(c),
{
    let m = abs_i(c) * (SCALE as int);
    let s = tdiv(-c * SCALE, b);
    assert(abs_i(-c * (SCALE as int)) == abs_i(c) * (SCALE as int)) by (nonlinear_arith)
        requires (SCALE as int) > 0;
    lemma_shrink_by(-c * SCALE, m, b);
    let q = m / b;
    assert(abs_i(s) <= q);
    vstd::arithmetic::div_mod::lemma_fundamental_div_mod(m, b);
    assert(q * b <= m) by (nonlinear_arith)
        requires m == q * b + m % b, m % b >= 0;
    assert(q >= 0) by {
        assert(m >= 0) by (nonlinear_arith)
            requires m == abs_i(c) * (SCALE as int);
        vstd::arithmetic::div_mod::lemma_div_pos_is_pos(m, b);
    }
    assert(abs_i(s * w0) <= m) by (nonlinear_arith)
        requires
            abs_i(s) <= q,
            0 <= w0 <= b,
            0 <= q,
            q * b <= m,
    ;
    lemma_shrink_by(s * w0, m, SCALE as int);
    lemma_mul_div_exact(abs_i(c), SCALE as int);
    assert(abs_i(c) * (SCALE as int) == (SCALE as int) * abs_i(c)) by (nonlinear_arith);
}

/// True when every raw component of `v` is within `b`.
pub fn in_lim(v: Vec3, b: i64) -> (r: bool)
    requires
        b >= 0,
    ensures
        r == in_b(v@, b as int),
{
    -b <= v.x && v.x <= b && -b <= v.y && v.y <= b && -b <= v.z && v.z <= b
}

/// Integrates every free particle: gravity into velocity, velocity into
/// position, snapshot of the previous position, and the ground clamp.
/// Pinned particles (inverse mass zero) never move.
pub fn pre_solve_step(
    pos: &mut Vec<Vec3>,
    prev: &mut Vec<Vec3>,
    vel: &mut Vec<Vec3>,
    inv_mass: &Vec<i64>,
    gravity: Vec3,
    dt: i64,
)
    requires
        old(pos)@.len() == old(prev)@.len() == old(vel)@.len() == inv_mass@.len(),
        1 <= dt <= SCALE,
    ensures
        final(pos)@.len() == old(pos)@.len(),
        final(prev)@.len() == old(prev)@.len(),
        final(vel)@.len() == old(vel)@.len(),
        forall|i: int|
            0 <= i < old(pos)@.len() ==> {
                let r = #[trigger] pre_step(
                    old(pos)@[i]@,
                    old(prev)@[i]@,
                    old(vel)@[i]@,
                    inv_mass@[i] as int,
                    gravity@,
                    dt as int,
                );
                final(pos)@[i]@ == r.0 && final(prev)@[i]@ == r.1 && final(vel)@[i]@ == r.2
            },
        forall|i: int|
            0 <= i < old(pos)@.len() && inv_mass@[i] == 0 ==> final(pos)@[i]@ == old(pos)@[i]@
                && final(vel)@[i]@ == old(vel)@[i]@,
    {
    let n = pos.len();
    let mut i: usize = 0;
    while i < n
        invariant
            pos@.len() == n,
            prev@.len() == n,
            vel@.len() == n,
            inv_mass@.len() == n,
            n == old(pos)@.len(),
            1 <= dt <= SCALE,
            i <= n,
            forall|k: int| i <= k < n ==> pos@[k] == old(pos)@[k],
            forall|k: int| i <= k < n ==> prev@[k] == old(prev)@[k],
            forall|k: int| i <= k < n ==> vel@[k] == old(vel)@[k],
            forall|k: int|
                0 <= k < i ==> {
                    let r = #[trigger] pre_step(
                        old(pos)@[k]@,
                        old(prev)@[k]@,
                        old(vel)@[k]@,
                        inv_mass@[k] as int,
                        gravity@,
                        dt as int,
                    );
                    pos@[k]@ == r.0 && prev@[k]@ == r.1 && vel@[k]@ == r.2
                },
        decreases n - i,
    {
        let w = inv_mass[i];
        let p = pos[i];
        let v = vel[i];
        if w != 0 && in_lim(p, PLIM) && in_lim(v, PLIM) && in_lim(gravity, PLIM) {
            proof {
                lemma_scale_bounds(gravity@, dt as int, PLIM as int, SCALE as int);
                assert(PLIM as int * SCALE as int / SCALE as int <= PLIM as int) by {
                    lemma_mul_div_exact(PLIM as int, SCALE as int);
                }
            }
            let v1 = v.add(gravity.scale(dt));
            proof {
                assert(in_b(v1@, 2 * PLIM as int));
                lemma_scale_bounds(v1@, dt as int, 2 * PLIM as int, SCALE as int);
                assert((2 * PLIM as int) * (SCALE as int) / (SCALE as int) <= 2 * PLIM as int)
                    by {
                    lemma_mul_div_exact(2 * PLIM as int, SCALE as int);
                }
            }
            let p1 = p.add(v1.scale(dt));
            prev.set(i, p);
            vel.set(i, v1);
            if p1.y < 0 {
                pos.set(i, Vec3 { x: p.x, y: 0, z: p.z });
            } else {
                pos.set(i, p1);
            }
        }
        i += 1;
    }
    proof {
        assert forall|j: int|
            0 <= j < old(pos)@.len() && inv_mass@[j] == 0 implies pos@[j]@ == old(pos)@[j]@
            && vel@[j]@ == old(vel)@[j]@ by {
            let r = pre_step(
                old(pos)@[j]@,
                old(prev)@[j]@,
                old(vel)@[j]@,
                inv_mass@[j] as int,
                gravity@,
                dt as int,
            );
            assert(pos@[j]@ == r.0 && vel@[j]@ == r.2);
        }
    }
}

/// Recovers every free particle's velocity from its sub-step position
/// delta. Pinned particles keep their velocity.
pub fn post_solve_step(
    pos: &Vec<Vec3>,
    prev: &Vec<Vec3>,
    vel: &mut Vec<Vec3>,
    inv_mass: &Vec<i64>,
    dt: i64,
)
    requires
        pos@.len() == prev@.len() == old(vel)@.len() == inv_mass@.len(),
        1 <= dt <= SCALE,
    ensures
        final(vel)@.len() == old(vel)@.len(),
        forall|i: int|
            0 <= i < pos@.len() ==> final(vel)@[i]@ == #[trigger] post_step(
                pos@[i]@,
                prev@[i]@,
                old(vel)@[i]@,
                inv_mass@[i] as int,
                dt as int,
            ),
{
    let n = pos.len();
    let mut i: usize = 0;
    while i < n
        invariant
            pos@.len() == n,
            prev@.len() == n,
            vel@.len() == n,
            inv_mass@.len() == n,
            1 <= dt <= SCALE,
            i <= n,
            forall|k: int| i <= k < n ==> vel@[k] == old(vel)@[k],
            forall|k: int|
                0 <= k < i ==> vel@[k]@ == #[trigger] post_step(
                    pos@[k]@,
                    prev@[k]@,
                    old(vel)@[k]@,
                    inv_mass@[k] as int,
                    dt as int,
                ),
        decreases n - i,
    {
        let w = inv_mass[i];
        let p = pos[i];
        let pr = prev[i];
        if w != 0 && in_lim(p, PLIM) && in_lim(pr, PLIM) {
            let d = p.sub(pr);
            vel.set(i, d.div(dt));
        }
        i += 1;
    }
}

/// Projects a flat list of distance constraints once, in order: entry `k`
/// constrains particles `ids[2k]` and `ids[2k + 1]` to rest length
/// `rests[k]`, with the shared compliance term `alpha`.
#[verifier::rlimit(60)]
pub fn solve_distance_constraints(
    pos: &mut Vec<Vec3>,
    inv_mass: &Vec<i64>,
    ids: &Vec<usize>,
    rests: &Vec<i64>,
    alpha: i128,
)
    requires
        old(pos)@.len() == inv_mass@.len(),
        ids@.len() == 2 * rests@.len(),
        forall|e: int| 0 <= e < ids@.len() ==> #[trigger] ids@[e] < old(pos)@.len(),
        0 <= alpha <= 1_000_000_000_000_000_000_000_000_000_000,
    ensures
        final(pos)@.len() == old(pos)@.len(),
        views(final(pos)@) == solve_dist_upto(
            views(old(pos)@),
            inv_mass@,
            ids@,
            rests@,
            alpha as int,
            rests@.len() as int,
        ),
{
    let ghost ps0 = views(pos@);
    let n = rests.len();
    let total = ids.len();
    let mut k: usize = 0;
    while k < n
        invariant
            pos@.len() == old(pos)@.len(),
            pos@.len() == inv_mass@.len(),
            ids@.len() == 2 * n,
            n == rests@.len(),
            forall|e: int| 0 <= e < ids@.len() ==> #[trigger] ids@[e] < pos@.len(),
            0 <= alpha <= 1_000_000_000_000_000_000_000_000_000_000,
            k <= n,
            total == ids@.len(),
            total == 2 * n,
            ps0 == views(old(pos)@),
            views(pos@) == solve_dist_upto(ps0, inv_mass@, ids@, rests@, alpha as int, k as int),
        decreases n - k,
    {
        let i0 = ids[2 * k];
        let i1 = ids[2 * k + 1];
        let w0 = inv_mass[i0];
        let w1 = inv_mass[i1];
        let rest = rests[k];
        let p0 = pos[i0];
        let p1 = pos[i1];
        let ghost ps_in = views(pos@);
        if w0 < 0 || w1 < 0 || w0 > MLIM || w1 > MLIM || w0 + w1 == 0 {
        } else if !(in_lim(p0, PLIM) && in_lim(p1, PLIM) && 0 <= rest && rest <= PLIM) {
        } else {
            proof {
                crate::vec3::lemma_sub_in_b(p0@, p1@, PLIM as int);
            }
            let d = p0.sub(p1);
            let len = d.length();
            if len == 0 {
            } else {
                proof {
                    lemma_mul_bound(2 * PLIM as int, 2 * PLIM as int, 2 * PLIM as int,
                        2 * PLIM as int);
                    assert(v_len2(d@) <= 3 * ((2 * PLIM as int) * (2 * PLIM as int))) by {
                        lemma_mul_bound(d@.x, d@.x, 2 * PLIM as int, 2 * PLIM as int);
                        lemma_mul_bound(d@.y, d@.y, 2 * PLIM as int, 2 * PLIM as int);
                        lemma_mul_bound(d@.z, d@.z, 2 * PLIM as int, 2 * PLIM as int);
                    }
                    assert(3 * ((2 * PLIM as int) * (2 * PLIM as int)) <= 1_100_000_000_000int
                        * 1_100_000_000_000int) by (nonlinear_arith)
                        requires PLIM == 300_000_000_000i64;
                    lemma_sqrt_le(v_len2(d@), len as int, 1_100_000_000_000int);
                }
                let dir = d.div(len);
                let c = len - rest;
                proof {
                    lemma_mul_bound(-(c as int), SCALE as int, 1_400_000_000_000int, SCALE as int);
                    lemma_tdiv_bound(-(c as int) * SCALE, (w0 + w1) as i128 as int + alpha as int);
                }
                let s128 = div_i128(
                    -(c as i128) * (SCALE as i128),
                    (w0 as i128) + (w1 as i128) + alpha,
                );
                let s = s128 as i64;
                proof {
                    lemma_correction_bound(c as int, w0 as int, w0 as int + w1 as int
                        + alpha as int);
                    lemma_correction_bound(c as int, w1 as int, w0 as int + w1 as int
                        + alpha as int);
                    assert(fxmul(-(s as int), w1 as int) == -fxmul(s as int, w1 as int)) by {
                        assert(-(s as int) * (w1 as int) == -((s as int) * (w1 as int)))
                            by (nonlinear_arith);
                    }
                    lemma_unit_bound(d@, len as int);
                    lemma_scale_unit(dir@, fxmul(s as int, w0 as int));
                    lemma_scale_unit(dir@, fxmul(-(s as int), w1 as int));
                }
                let c0 = crate::fixed::fx_mul(s, w0);
                let c1 = crate::fixed::fx_mul(-s, w1);
                let q0 = p0.add(dir.scale(c0));
                let q1 = p1.add(dir.scale(c1));
                pos.set(i0, q0);
                pos.set(i1, q1);
            }
        }
        k += 1;
        proof {
            assert(views(pos@) =~= solve_dist_one(
                ps_in,
                inv_mass@,
                ids@[2 * (k - 1)] as int,
                ids@[2 * (k - 1) + 1] as int,
                rests@[k - 1] as int,
                alpha as int,
            ));
        }
    }
}

} // verus!
