//! Beads on a circular wire and hard pendulum chains.
//!
//! A bead is a free particle snapped back onto its wire after every
//! integration step: the wire constraint pushes it radially to the wire's
//! radius. A pendulum is a chain of point masses joined by hard distance
//! constraints, the first link anchored at the origin; unlike the
//! compliance-based solver, the chain projection divides by the summed
//! inverse masses alone.

use vstd::prelude::*;

verus! {

use crate::fixed::{SCALE, tdiv, fxmul, fxdiv, abs_i, div_i128, lemma_tdiv_bound, lemma_mul_bound};
use crate::vec3::{
    Vec3, V3, v_add, v_sub, v_scale, v_div, v_len, v_len2, in_b, lemma_unit_bound,
    lemma_scale_unit, lemma_sub_in_b,
};
use crate::particles::{PLIM, MLIM, in_lim, views};
use crate::balls::{fly_step, to_vec3};
use vstd::pervasive::VecAdditionalExecFns;

/// A bead riding a circular wire.
#[derive(Clone, Copy, PartialEq, Eq, Structural, Debug)]
pub struct Bead {
    /// Centre position.
    pub pos: Vec3,
    /// Position at the start of the current sub-step.
    pub prev_pos: Vec3,
    /// Linear velocity.
    pub vel: Vec3,
    /// Bead radius, for bead-bead contacts.
    pub radius: i64,
    /// Mass, for bead-bead contacts.
    pub mass: i64,
}

/// The wire projection: the bead moved radially out or in until it sits
/// on the wire's radius again. A bead at the exact centre, or any
/// out-of-range value, stays put.
pub open spec fn wire_kept(p: V3, center: V3, wire_radius: int) -> V3 {
    if !in_b(p, PLIM as int) || !in_b(center, PLIM as int) || !(0 <= wire_radius <= PLIM) {
        p
    } else {
        let d = v_sub(p, center);
        let len = v_len(d);
        if len == 0 {
            p
        } else {
            let dir = v_div(d, len);
            let lambda = wire_radius - len;
            v_add(p, v_scale(dir, lambda))
        }
    }
}

impl Bead {
    /// One integration sub-step: gravity into velocity, velocity into
    /// position, with the previous position saved for the velocity
    /// recovery.
    pub fn start_step(&mut self, dt: i64, gravity: Vec3)
        ensures
            ({
                let f = fly_step(old(self).pos@, old(self).vel@, gravity@, dt as int,
                    SCALE as int);
                &&& final(self).pos == to_vec3(f.0)
                &&& final(self).vel == to_vec3(f.1)
                &&& final(self).prev_pos == old(self).pos
                &&& final(self).radius == old(self).radius
                &&& final(self).mass == old(self).mass
            }),
    {
        self.prev_pos = self.pos;
        let mut b = crate::balls::Ball {
            pos: self.pos,
            vel: self.vel,
            radius: 1,
            mass: 1,
            restitution: 0,
        };
        crate::balls::simulate_one_step(&mut b, gravity, dt);
        self.pos = b.pos;
        self.vel = b.vel;
    }

    /// Snaps the bead back onto its wire, exactly as [`wire_kept`]
    /// states.
    pub fn keep_on_wire(&mut self, wire_center: Vec3, wire_radius: i64)
        ensures
            final(self).pos@ == wire_kept(old(self).pos@, wire_center@, wire_radius as int),
            final(self).prev_pos == old(self).prev_pos,
            final(self).vel == old(self).vel,
            final(self).radius == old(self).radius,
            final(self).mass == old(self).mass,
    {
        if !(in_lim(self.pos, PLIM) && in_lim(wire_center, PLIM) && 0 <= wire_radius
            && wire_radius <= PLIM) {
            return ;
        }
        proof {
            lemma_sub_in_b(self.pos@, wire_center@, PLIM as int);
        }
        let d = self.pos.sub(wire_center);
        let len = d.length();
        if len == 0 {
            return ;
        }
        proof {
            lemma_mul_bound(2 * PLIM as int, 2 * PLIM as int, 2 * PLIM as int, 2 * PLIM as int);
            assert(v_len2(d@) <= 3 * ((2 * PLIM as int) * (2 * PLIM as int))) by {
                lemma_mul_bound(d@.x, d@.x, 2 * PLIM as int, 2 * PLIM as int);
                lemma_mul_bound(d@.y, d@.y, 2 * PLIM as int, 2 * PLIM as int);
                lemma_mul_bound(d@.z, d@.z, 2 * PLIM as int, 2 * PLIM as int);
            }
            assert(3 * ((2 * PLIM as int) * (2 * PLIM as int)) <= 1_100_000_000_000int
                * 1_100_000_000_000int) by (nonlinear_arith)
                requires PLIM == 300_000_000_000i64;
            crate::fixed::lemma_sqrt_le(v_len2(d@), len as int, 1_100_000_000_000);
            lemma_unit_bound(d@, len as int);
            lemma_scale_unit(v_div(d@, len as int), wire_radius as int - len as int);
        }
        let dir = d.div(len);
        let lambda = wire_radius - len;
        self.pos = self.pos.add(dir.scale(lambda));
    }

    /// Recovers the velocity from the sub-step's position delta. A
    /// degenerate time step is a guarded no-op: nothing is touched.
    pub fn end_step(&mut self, dt: i64)
        ensures
            ({
                let ok = in_b(old(self).pos@, PLIM as int) && in_b(old(self).prev_pos@,
                    PLIM as int);
                &&& ok && dt >= 1 ==> final(self).vel@ == v_div(
                    v_sub(old(self).pos@, old(self).prev_pos@),
                    dt as int,
                )
                &&& !(ok && dt >= 1) ==> final(self).vel == old(self).vel
            }),
            final(self).pos == old(self).pos,
            final(self).prev_pos == old(self).prev_pos,
            final(self).radius == old(self).radius,
            final(self).mass == old(self).mass,
    {
        if dt < 1 {
            return ;
        }
        if !(in_lim(self.pos, PLIM) && in_lim(self.prev_pos, PLIM)) {
            return ;
        }
        proof {
            lemma_sub_in_b(self.pos@, self.prev_pos@, PLIM as int);
        }
        let delta = self.pos.sub(self.prev_pos);
        self.vel = delta.div(dt);
    }
}

/// One hard distance projection of a pendulum link: the far end `t1` and
/// the near end `t0` move along their separation in proportion to their
/// inverse masses until the link holds its length. Degenerate links (zero
/// separation, both ends unmovable, out-of-range values) stay put.
pub open spec fn link_solved(t0: V3, t1: V3, w0: int, w1: int, length: int) -> (V3, V3) {
    if !in_b(t0, PLIM as int) || !in_b(t1, PLIM as int) || !(0 <= length <= PLIM) || !(0 <= w0
        <= MLIM) || !(0 <= w1 <= MLIM) {
        (t0, t1)
    } else {
        let dist = v_sub(t1, t0);
        let d = v_len(dist);
        if d == 0 || w0 + w1 == 0 {
            (t0, t1)
        } else {
            let corr = tdiv(tdiv((length - d) * SCALE, d) * SCALE, w0 + w1);
            if abs_i(corr) > 2_000_000_000_000 {
                (t0, t1)
            } else {
            let c0 = fxmul(w0, corr);
            let c1 = fxmul(w1, corr);
            if abs_i(c0) > SCALE as int || abs_i(c1) > SCALE as int {
                (t0, t1)
            } else {
                let m0 = v_scale(dist, c0);
                let m1 = v_scale(dist, c1);
                if !in_b(m0, PLIM as int) || !in_b(m1, PLIM as int) {
                    (t0, t1)
                } else {
                    (v_sub(t0, m0), v_add(t1, m1))
                }
            }
            }
        }
    }
}

/// The first `k` links of the chain projected in order: link `0` anchors
/// the first particle at the origin, and link `j` joins particle `j - 1`
/// to particle `j`.
pub open spec fn chain_solved(
    ps: Seq<V3>,
    ws: Seq<i64>,
    lengths: Seq<i64>,
    k: int,
) -> Seq<V3>
    decreases k,
{
    if k <= 0 {
        ps
    } else {
        let prev = chain_solved(ps, ws, lengths, k - 1);
        if !(0 <= k - 1 < prev.len() && k - 1 < lengths.len() && k - 1 < ws.len()) {
            prev
        } else if k == 1 {
            let r = link_solved(
                V3 { x: 0, y: 0, z: 0 },
                prev[0],
                0,
                ws[0] as int,
                lengths[0] as int,
            );
            prev.update(0, r.1)
        } else {
            let r = link_solved(
                prev[k - 2],
                prev[k - 1],
                ws[k - 2] as int,
                ws[k - 1] as int,
                lengths[k - 1] as int,
            );
            prev.update(k - 2, r.0).update(k - 1, r.1)
        }
    }
}

/// Projects every link of a pendulum chain once, in order, exactly as
/// [`chain_solved`] states: the first particle hangs from the origin, and
/// each later particle from its predecessor.
#[verifier::rlimit(60)]
pub fn solve_pendulum_chain(
    pos: &mut Vec<Vec3>,
    inv_mass: &Vec<i64>,
    lengths: &Vec<i64>,
)
    requires
        old(pos)@.len() == inv_mass@.len(),
        old(pos)@.len() == lengths@.len(),
    ensures
        final(pos)@.len() == old(pos)@.len(),
        views(final(pos)@) == chain_solved(
            views(old(pos)@),
            inv_mass@,
            lengths@,
            old(pos)@.len() as int,
        ),
{
    let ghost ps0 = views(pos@);
    let n = pos.len();
    let mut k: usize = 0;
    while k < n
        invariant
            pos@.len() == n,
            inv_mass@.len() == n,
            lengths@.len() == n,
            k <= n,
            ps0 == views(old(pos)@),
            views(pos@) == chain_solved(ps0, inv_mass@, lengths@, k as int),
        decreases n - k,
    {
        let ghost ps_in = views(pos@);
        if k == 0 {
            let anchor = Vec3 { x: 0, y: 0, z: 0 };
            let t1 = pos[0];
            let r = solve_link(anchor, t1, 0, inv_mass[0], lengths[0]);
            pos.set(0, r.1);
            proof {
                assert(views(pos@) =~= ps_in.update(
                    0,
                    link_solved(
                        V3 { x: 0, y: 0, z: 0 },
                        ps_in[0],
                        0,
                        inv_mass@[0] as int,
                        lengths@[0] as int,
                    ).1,
                ));
            }
        } else {
            let t0 = pos[k - 1];
            let t1 = pos[k];
            let r = solve_link(t0, t1, inv_mass[k - 1], inv_mass[k], lengths[k]);
            pos.set(k - 1, r.0);
            pos.set(k, r.1);
            proof {
                let s = link_solved(
                    ps_in[k as int - 1],
                    ps_in[k as int],
                    inv_mass@[k as int - 1] as int,
                    inv_mass@[k as int] as int,
                    lengths@[k as int] as int,
                );
                assert(views(pos@) =~= ps_in.update(k as int - 1, s.0).update(k as int, s.1));
            }
        }
        k += 1;
    }
}

/// One projected link, as computed.
#[verifier::rlimit(60)]
fn solve_link(t0: Vec3, t1: Vec3, w0: i64, w1: i64, length: i64) -> (r: (Vec3, Vec3))
    ensures
        (r.0@, r.1@) == link_solved(t0@, t1@, w0 as int, w1 as int, length as int),
{
    if !(in_lim(t0, PLIM) && in_lim(t1, PLIM) && 0 <= length && length <= PLIM && 0 <= w0 && w0
        <= MLIM && 0 <= w1 && w1 <= MLIM) {
        return (t0, t1);
    }
    proof {
        lemma_sub_in_b(t1@, t0@, PLIM as int);
    }
    let dist = t1.sub(t0);
    let d = dist.length();
    if d == 0 || w0 + w1 == 0 {
        return (t0, t1);
    }
    proof {
        lemma_mul_bound(2 * PLIM as int, 2 * PLIM as int, 2 * PLIM as int, 2 * PLIM as int);
        assert(v_len2(dist@) <= 3 * ((2 * PLIM as int) * (2 * PLIM as int))) by {
            lemma_mul_bound(dist@.x, dist@.x, 2 * PLIM as int, 2 * PLIM as int);
            lemma_mul_bound(dist@.y, dist@.y, 2 * PLIM as int, 2 * PLIM as int);
            lemma_mul_bound(dist@.z, dist@.z, 2 * PLIM as int, 2 * PLIM as int);
        }
        assert(3 * ((2 * PLIM as int) * (2 * PLIM as int)) <= 1_100_000_000_000int
            * 1_100_000_000_000int) by (nonlinear_arith)
            requires PLIM == 300_000_000_000i64;
        crate::fixed::lemma_sqrt_le(v_len2(dist@), d as int, 1_100_000_000_000);
        lemma_mul_bound(length as int - d as int, SCALE as int, 1_400_000_000_000,
            SCALE as int);
        lemma_tdiv_bound((length as int - d as int) * SCALE, d as int);
        lemma_tdiv_bound(
            tdiv((length as int - d as int) * SCALE, d as int) * SCALE,
            w0 as int + w1 as int,
        );
        lemma_mul_bound(
            tdiv((length as int - d as int) * SCALE, d as int),
            SCALE as int,
            1_400_000_000_000_000_000,
            SCALE as int,
        );
    }
    let c1_128 = div_i128((length as i128 - d as i128) * (SCALE as i128), d as i128);
    let corr128 = div_i128(c1_128 * (SCALE as i128), (w0 as i128) + (w1 as i128));
    proof {
        lemma_mul_bound(w0 as int, corr128 as int, MLIM as int,
            abs_i(corr128 as int));
    }
    if corr128 > 2_000_000_000_000i128 || corr128 < -2_000_000_000_000i128 {
        // A correction out of the solver's range is treated as a
        // degenerate link.
        return (t0, t1);
    }
    let c0 = fxmul_small(w0, corr128 as i64);
    let c1 = fxmul_small(w1, corr128 as i64);
    if c0 > SCALE || c0 < -SCALE || c1 > SCALE || c1 < -SCALE {
        return (t0, t1);
    }
    proof {
        crate::vec3::lemma_scale_bounds(dist@, c0 as int, 2 * PLIM as int, SCALE as int);
        crate::vec3::lemma_scale_bounds(dist@, c1 as int, 2 * PLIM as int, SCALE as int);
    }
    let m0 = dist.scale(c0);
    let m1 = dist.scale(c1);
    if !(in_lim(m0, PLIM) && in_lim(m1, PLIM)) {
        return (t0, t1);
    }
    (t0.sub(m0), t1.add(m1))
}

/// A fixed-point product with a range-checked correction.
fn fxmul_small(w: i64, corr: i64) -> (r: i64)
    requires
        0 <= w <= MLIM,
        abs_i(corr as int) <= 2_000_000_000_000,
    ensures
        r as int == fxmul(w as int, corr as int),
{
    proof {
        lemma_mul_bound(w as int, corr as int, MLIM as int, 2_000_000_000_000);
        assert((MLIM as int) * 2_000_000_000_000int == 2_000_000_000_000_000_000int
            * (SCALE as int)) by (nonlinear_arith)
            requires MLIM == 1_000_000_000_000i64, SCALE == 1_000_000i64;
        crate::vec3::lemma_shrink_by(w as int * corr as int,
            2_000_000_000_000_000_000int * (SCALE as int), SCALE as int);
        crate::vec3::lemma_mul_div_exact(2_000_000_000_000_000_000int, SCALE as int);
        assert(2_000_000_000_000_000_000int * (SCALE as int) == (SCALE as int)
            * 2_000_000_000_000_000_000int) by (nonlinear_arith);
    }
    crate::fixed::fx_mul(w, corr)
}

} // verus!
