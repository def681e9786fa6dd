//! Cloth sheets.
//!
//! A cloth is a particle set over a triangulated sheet: stretch
//! constraints come from the unique mesh edges, bending constraints from
//! the opposite corners of triangle pairs that share an edge (found by
//! sorting half-edges), and an explicit pin list forces anchored vertices
//! to inverse mass zero — permanently, unlike the ephemeral grab pin.

use vstd::prelude::*;

verus! {

use crate::fixed::{
    SCALE, tdiv, fxmul, fxdiv, abs_i, div_i128, lemma_tdiv_bound, lemma_mul_bound,
};
use crate::vec3::{
    Vec3, V3, v_add, v_sub, v_cross, v_len, v_len2, in_b, VLIM, lemma_shrink_by,
    lemma_mul_div_exact,
};
use crate::particles::{
    PLIM, MLIM, in_lim, views, pre_step, post_step, solve_dist_upto, pre_solve_step,
    post_solve_step, solve_distance_constraints,
};
use crate::softbody::{edge_rest, add_sat, lemma_tet_cross_bound, TLIM, alpha_edge, nearest_pair};
use vstd::pervasive::VecAdditionalExecFns;

/// The other endpoint of half-edge `e` within its triangle.
pub open spec fn hedge_other(e: int) -> int {
    3 * (e / 3) + ((e % 3) + 1) % 3
}

/// The unordered vertex pair of half-edge `e`, smaller index first.
pub open spec fn hedge_pair(ids: Seq<usize>, e: int) -> (int, int) {
    let a = ids[e] as int;
    let b = ids[hedge_other(e)] as int;
    if a <= b {
        (a, b)
    } else {
        (b, a)
    }
}

/// The vertex opposite half-edge `e` within its triangle.
pub open spec fn hedge_opposite(e: int) -> int {
    3 * (e / 3) + ((e % 3) + 2) % 3
}

/// What [`find_tri_neighbors`] promises of a neighbour table: an open
/// marker or a sound partner per half-edge, and mutual references for
/// every pair shared by exactly two half-edges.
pub open spec fn neighbors_ok(ids: Seq<usize>, nbrs: Seq<usize>) -> bool {
    &&& nbrs.len() == ids.len()
    &&& forall|e: int|
        0 <= e < nbrs.len() ==> #[trigger] nbrs[e] == ids.len() || (nbrs[e] < ids.len()
            && nbrs[e] != e && hedge_pair(ids, nbrs[e] as int) == hedge_pair(ids, e))
    &&& forall|e1: int, e2: int|
        #[trigger] shares_pair_only_with(ids, e1, e2) ==> nbrs[e1] == e2 && nbrs[e2] == e1
}

/// The stretch pairs derived from the first `e` half-edges: every open
/// edge, and every shared edge once, from its lower-endpoint side.
pub open spec fn built_stretch(ids: Seq<usize>, nbrs: Seq<usize>, e: int) -> Seq<usize>
    decreases e,
{
    if e <= 0 {
        Seq::empty()
    } else {
        let prev = built_stretch(ids, nbrs, e - 1);
        let k = e - 1;
        if nbrs[k] == ids.len() || ids[k] < ids[hedge_other(k)] {
            prev.push(ids[k]).push(ids[hedge_other(k)])
        } else {
            prev
        }
    }
}

/// The bending pairs derived from the first `e` half-edges: each shared
/// edge joins the two opposite corners, contributed from both sides.
pub open spec fn built_bend(ids: Seq<usize>, nbrs: Seq<usize>, e: int) -> Seq<usize>
    decreases e,
{
    if e <= 0 {
        Seq::empty()
    } else {
        let prev = built_bend(ids, nbrs, e - 1);
        let k = e - 1;
        if nbrs[k] < ids.len() {
            prev.push(ids[hedge_opposite(k)]).push(ids[hedge_opposite(nbrs[k] as int)])
        } else {
            prev
        }
    }
}

/// A triangle sheet is accepted exactly when the triangle list is whole
/// triples, every index references a vertex, and both compliances are
/// within the solver's range.
pub open spec fn sheet_valid(
    n: int,
    ids: Seq<usize>,
    bending_compliance: i64,
    stretching_compliance: i64,
) -> bool {
    &&& ids.len() % 3 == 0
    &&& 0 <= bending_compliance <= PLIM
    &&& 0 <= stretching_compliance <= PLIM
    &&& forall|t: int| 0 <= t < ids.len() ==> #[trigger] ids[t] < n
}

/// Inverse masses after the first `k` pins have been forced to zero;
/// out-of-range pin entries are ignored.
pub open spec fn pins_applied(ws: Seq<i64>, pins: Seq<usize>, k: int) -> Seq<i64>
    decreases k,
{
    if k <= 0 {
        ws
    } else {
        let prev = pins_applied(ws, pins, k - 1);
        if pins[k - 1] < prev.len() {
            prev.update(pins[k - 1] as int, 0i64)
        } else {
            prev
        }
    }
}

/// A cloth sheet: the particle buffers, the triangle list, the derived
/// stretch and bending constraints with their compliances, and the grab
/// state.
pub struct Cloth {
    /// Current particle positions.
    pub positions: Vec<Vec3>,
    /// Positions at the start of the current sub-step.
    pub prev_positions: Vec<Vec3>,
    /// Particle velocities.
    pub velocities: Vec<Vec3>,
    /// Per-particle inverse masses; zero pins a vertex.
    pub inv_mass: Vec<i64>,
    /// Triangle index triples of the sheet.
    pub indices: Vec<usize>,
    /// Stretch constraint index pairs: the unique mesh edges.
    pub stretching_ids: Vec<usize>,
    /// Rest lengths of the stretch constraints.
    pub stretching_lengths: Vec<i64>,
    /// Bending constraint index pairs: opposite corners of shared-edge
    /// triangle pairs.
    pub bending_ids: Vec<usize>,
    /// Rest lengths of the bending constraints.
    pub bending_lengths: Vec<i64>,
    /// Compliance of the stretch constraints.
    pub stretching_compliance: i64,
    /// Compliance of the bending constraints.
    pub bending_compliance: i64,
    /// The grabbed particle, while one is held.
    pub grab_id: Option<usize>,
    /// The grabbed particle's inverse mass, saved for release.
    pub grab_inv_mass: i64,
    /// Centre of the enclosing sphere used for picking.
    pub center: Vec3,
    /// Radius of the enclosing sphere used for picking.
    pub radius: i64,
}

impl Cloth {
    /// The structural invariant.
    pub open spec fn wf(self) -> bool {
        &&& self.wf_core()
        &&& self.stretching_ids@.len() == 2 * self.stretching_lengths@.len()
        &&& self.bending_ids@.len() == 2 * self.bending_lengths@.len()
    }

    /// The invariant's buffer part, which holds already before the rest
    /// values are computed.
    pub open spec fn wf_core(self) -> bool {
        &&& self.positions@.len() == self.prev_positions@.len()
        &&& self.positions@.len() == self.velocities@.len()
        &&& self.positions@.len() == self.inv_mass@.len()
        &&& self.indices@.len() % 3 == 0
        &&& self.stretching_ids@.len() % 2 == 0
        &&& self.bending_ids@.len() % 2 == 0
        &&& forall|t: int|
            0 <= t < self.indices@.len() ==> #[trigger] self.indices@[t] < self.positions@.len()
        &&& forall|e: int|
            0 <= e < self.stretching_ids@.len() ==> #[trigger] self.stretching_ids@[e]
                < self.positions@.len()
        &&& forall|e: int|
            0 <= e < self.bending_ids@.len() ==> #[trigger] self.bending_ids@[e]
                < self.positions@.len()
        &&& forall|j: int|
            0 <= j < self.inv_mass@.len() ==> 0 <= #[trigger] self.inv_mass@[j] <= MLIM
        &&& 0 <= self.stretching_compliance <= PLIM
        &&& 0 <= self.bending_compliance <= PLIM
        &&& match self.grab_id {
            Option::Some(i) => i < self.positions@.len(),
            Option::None => true,
        }
    }

    /// The number of triangles of the sheet.
    pub fn tri_count(&self) -> (r: usize)
        ensures
            r == self.indices@.len() / 3,
    {
        self.indices.len() / 3
    }

    /// The number of particles of the sheet.
    pub fn vert_count(&self) -> (r: usize)
        ensures
            r == self.positions@.len(),
    {
        self.positions.len()
    }

    /// Pins the listed vertices: their inverse masses become zero, so
    /// they are never displaced by integration or constraint projection.
    /// Out-of-range entries are ignored.
    pub fn pin_indices(&mut self, pins: &Vec<usize>)
        requires
            old(self).wf(),
        ensures
            final(self).wf(),
            final(self).positions == old(self).positions,
            final(self).prev_positions == old(self).prev_positions,
            final(self).velocities == old(self).velocities,
            final(self).indices == old(self).indices,
            final(self).stretching_ids == old(self).stretching_ids,
            final(self).stretching_lengths == old(self).stretching_lengths,
            final(self).bending_ids == old(self).bending_ids,
            final(self).bending_lengths == old(self).bending_lengths,
            final(self).grab_id == old(self).grab_id,
            final(self).grab_inv_mass == old(self).grab_inv_mass,
            final(self).stretching_compliance == old(self).stretching_compliance,
            final(self).bending_compliance == old(self).bending_compliance,
            final(self).inv_mass@.len() == old(self).inv_mass@.len(),
            final(self).inv_mass@ == pins_applied(old(self).inv_mass@, pins@, pins@.len() as int),
            forall|k: int|
                0 <= k < pins@.len() && pins@[k] < old(self).inv_mass@.len()
                    ==> final(self).inv_mass@[#[trigger] pins@[k] as int] == 0i64,
            forall|j: int|
                0 <= j < old(self).inv_mass@.len() && (forall|k: int|
                    0 <= k < pins@.len() ==> #[trigger] pins@[k] != j)
                    ==> final(self).inv_mass@[j] == old(self).inv_mass@[j],
    {
        let mut k: usize = 0;
        while k < pins.len()
            invariant
                self.wf(),
                self.positions == old(self).positions,
                self.prev_positions == old(self).prev_positions,
                self.velocities == old(self).velocities,
                self.indices == old(self).indices,
                self.stretching_ids == old(self).stretching_ids,
                self.stretching_lengths == old(self).stretching_lengths,
                self.bending_ids == old(self).bending_ids,
                self.bending_lengths == old(self).bending_lengths,
                self.grab_id == old(self).grab_id,
                self.grab_inv_mass == old(self).grab_inv_mass,
                self.stretching_compliance == old(self).stretching_compliance,
                self.bending_compliance == old(self).bending_compliance,
                self.inv_mass@.len() == old(self).inv_mass@.len(),
                k <= pins@.len(),
                self.inv_mass@ == pins_applied(old(self).inv_mass@, pins@, k as int),
                forall|j: int|
                    0 <= j < k && pins@[j] < self.inv_mass@.len()
                        ==> self.inv_mass@[#[trigger] pins@[j] as int] == 0i64,
                forall|j: int|
                    0 <= j < old(self).inv_mass@.len() && (forall|m: int|
                        0 <= m < pins@.len() ==> #[trigger] pins@[m] != j) ==> self.inv_mass@[j]
                        == old(self).inv_mass@[j],
            decreases pins@.len() - k,
        {
            let p = pins[k];
            if p < self.inv_mass.len() {
                self.inv_mass.set(p, 0);
            }
            k += 1;
        }
    }

    /// Recomputes the triangle-area-weighted inverse masses (added onto
    /// the current ones, saturating at the cap) and the rest lengths of
    /// both constraint groups from the current positions.
    #[verifier::rlimit(60)]
    pub fn init_physics(&mut self)
        requires
            old(self).wf_core(),
        ensures
            final(self).wf(),
            final(self).positions == old(self).positions,
            final(self).prev_positions == old(self).prev_positions,
            final(self).velocities == old(self).velocities,
            final(self).indices == old(self).indices,
            final(self).stretching_ids == old(self).stretching_ids,
            final(self).bending_ids == old(self).bending_ids,
            final(self).grab_id == old(self).grab_id,
            final(self).grab_inv_mass == old(self).grab_inv_mass,
            final(self).stretching_compliance == old(self).stretching_compliance,
            final(self).bending_compliance == old(self).bending_compliance,
            final(self).inv_mass@ == tri_masses_upto(
                views(old(self).positions@),
                old(self).indices@,
                old(self).inv_mass@,
                old(self).indices@.len() as int / 3,
            ),
            final(self).stretching_lengths@.len() == old(self).stretching_ids@.len() / 2,
            forall|e: int|
                0 <= e < final(self).stretching_lengths@.len()
                    ==> #[trigger] final(self).stretching_lengths@[e] as int == edge_rest(
                    views(old(self).positions@),
                    old(self).stretching_ids@[2 * e] as int,
                    old(self).stretching_ids@[2 * e + 1] as int,
                ),
            final(self).bending_lengths@.len() == old(self).bending_ids@.len() / 2,
            forall|e: int|
                0 <= e < final(self).bending_lengths@.len()
                    ==> #[trigger] final(self).bending_lengths@[e] as int == edge_rest(
                    views(old(self).positions@),
                    old(self).bending_ids@[2 * e] as int,
                    old(self).bending_ids@[2 * e + 1] as int,
                ),
    {
        let ghost ps = views(self.positions@);
        let ghost tris = self.indices@;
        let ghost ws0 = self.inv_mass@;
        let tot_t = self.indices.len();
        let nt = tot_t / 3;
        proof {
            vstd::arithmetic::div_mod::lemma_fundamental_div_mod(self.indices@.len() as int, 3);
        }
        let mut k: usize = 0;
        while k < nt
            invariant
                self.wf_core(),
                self.positions == old(self).positions,
                self.prev_positions == old(self).prev_positions,
                self.velocities == old(self).velocities,
                self.indices == old(self).indices,
                self.stretching_ids == old(self).stretching_ids,
                self.stretching_lengths == old(self).stretching_lengths,
                self.bending_ids == old(self).bending_ids,
                self.bending_lengths == old(self).bending_lengths,
                self.grab_id == old(self).grab_id,
                self.grab_inv_mass == old(self).grab_inv_mass,
                self.stretching_compliance == old(self).stretching_compliance,
                self.bending_compliance == old(self).bending_compliance,
                ps == views(self.positions@),
                tris == self.indices@,
                ws0.len() == self.inv_mass@.len(),
                nt == self.indices@.len() / 3,
                3 * nt <= self.indices@.len(),
                self.indices@.len() <= usize::MAX,
                k <= nt,
                self.inv_mass@ == tri_masses_upto(ps, tris, ws0, k as int),
                forall|j: int| 0 <= j < ws0.len() ==> 0 <= #[trigger] ws0[j] <= MLIM,
            decreases nt - k,
        {
            proof {
                assert(3 * (k as int) + 2 < self.indices@.len());
                lemma_tri_masses_monotone(ps, tris, ws0, k as int);
            }
            let i0 = self.indices[3 * k];
            let i1 = self.indices[3 * k + 1];
            let i2 = self.indices[3 * k + 2];
            proof {
                assert(ps[i0 as int] == self.positions@[i0 as int]@);
                assert(ps[i1 as int] == self.positions@[i1 as int]@);
                assert(ps[i2 as int] == self.positions@[i2 as int]@);
            }
            let a = tri_area_exec(self.positions[i0], self.positions[i1], self.positions[i2]);
            let p: i64 = if a > 0 {
                proof {
                    lemma_area_inv_range(a as int);
                }
                crate::fixed::fx_div(SCALE, 3 * a)
            } else {
                0
            };
            proof {
                assert(p as int == area_inv(tri_area(ps, i0 as int, i1 as int, i2 as int)));
                lemma_area_inv_range2(tri_area(ps, i0 as int, i1 as int, i2 as int));
            }
            let w0 = self.inv_mass[i0];
            let nw0 = if w0 + p > MLIM {
                MLIM
            } else {
                w0 + p
            };
            self.inv_mass.set(i0, nw0);
            let w1 = self.inv_mass[i1];
            let nw1 = if w1 + p > MLIM {
                MLIM
            } else {
                w1 + p
            };
            self.inv_mass.set(i1, nw1);
            let w2 = self.inv_mass[i2];
            let nw2 = if w2 + p > MLIM {
                MLIM
            } else {
                w2 + p
            };
            self.inv_mass.set(i2, nw2);
            k += 1;
            proof {
                assert(self.inv_mass@ =~= tri_masses_upto(ps, tris, ws0, k as int));
            }
        }
        self.stretching_lengths = rest_lengths_of(&self.positions, &self.stretching_ids);
        self.bending_lengths = rest_lengths_of(&self.positions, &self.bending_ids);
    }

    /// Integrates every free particle of the sheet for one sub-step. A
    /// degenerate time step short-circuits the whole step as a no-op.
    pub fn pre_solve(&mut self, dt: i64, gravity: Vec3)
        requires
            old(self).wf(),
        ensures
            final(self).wf(),
            final(self).inv_mass == old(self).inv_mass,
            final(self).indices == old(self).indices,
            final(self).stretching_ids == old(self).stretching_ids,
            final(self).stretching_lengths == old(self).stretching_lengths,
            final(self).bending_ids == old(self).bending_ids,
            final(self).bending_lengths == old(self).bending_lengths,
            final(self).grab_id == old(self).grab_id,
            dt <= 0 || dt > SCALE ==> final(self).positions == old(self).positions
                && final(self).prev_positions == old(self).prev_positions
                && final(self).velocities == old(self).velocities,
            1 <= dt <= SCALE ==> forall|i: int|
                0 <= i < old(self).positions@.len() ==> {
                    let r = #[trigger] pre_step(
                        old(self).positions@[i]@,
                        old(self).prev_positions@[i]@,
                        old(self).velocities@[i]@,
                        old(self).inv_mass@[i] as int,
                        gravity@,
                        dt as int,
                    );
                    final(self).positions@[i]@ == r.0 && final(self).prev_positions@[i]@ == r.1
                        && final(self).velocities@[i]@ == r.2
                },
    {
        if dt <= 0 || dt > SCALE {
            return ;
        }
        pre_solve_step(
            &mut self.positions,
            &mut self.prev_positions,
            &mut self.velocities,
            &self.inv_mass,
            gravity,
            dt,
        );
    }

    /// Projects the stretch constraints, then the bending constraints,
    /// once. A degenerate time step is a no-op.
    pub fn solve(&mut self, dt: i64)
        requires
            old(self).wf(),
        ensures
            final(self).wf(),
            final(self).prev_positions == old(self).prev_positions,
            final(self).velocities == old(self).velocities,
            final(self).inv_mass == old(self).inv_mass,
            final(self).indices == old(self).indices,
            final(self).stretching_ids == old(self).stretching_ids,
            final(self).stretching_lengths == old(self).stretching_lengths,
            final(self).bending_ids == old(self).bending_ids,
            final(self).bending_lengths == old(self).bending_lengths,
            final(self).grab_id == old(self).grab_id,
            dt <= 0 || dt > SCALE ==> final(self).positions == old(self).positions,
            1 <= dt <= SCALE ==> views(final(self).positions@) == solve_dist_upto(
                solve_dist_upto(
                    views(old(self).positions@),
                    old(self).inv_mass@,
                    old(self).stretching_ids@,
                    old(self).stretching_lengths@,
                    alpha_edge(old(self).stretching_compliance as int, dt as int),
                    old(self).stretching_lengths@.len() as int,
                ),
                old(self).inv_mass@,
                old(self).bending_ids@,
                old(self).bending_lengths@,
                alpha_edge(old(self).bending_compliance as int, dt as int),
                old(self).bending_lengths@.len() as int,
            ),
    {
        if dt <= 0 || dt > SCALE {
            return ;
        }
        proof {
            crate::softbody::lemma_alpha_bounds_pub(self.stretching_compliance as int,
                dt as int);
            crate::softbody::lemma_alpha_bounds_pub(self.bending_compliance as int, dt as int);
        }
        let astr: i128 = div_i128(
            (self.stretching_compliance as i128) * (SCALE as i128) * (SCALE as i128),
            (dt as i128) * (dt as i128),
        );
        let abnd: i128 = div_i128(
            (self.bending_compliance as i128) * (SCALE as i128) * (SCALE as i128),
            (dt as i128) * (dt as i128),
        );
        solve_distance_constraints(
            &mut self.positions,
            &self.inv_mass,
            &self.stretching_ids,
            &self.stretching_lengths,
            astr,
        );
        solve_distance_constraints(
            &mut self.positions,
            &self.inv_mass,
            &self.bending_ids,
            &self.bending_lengths,
            abnd,
        );
    }

    /// Recovers every free particle's velocity from its sub-step delta.
    /// A degenerate time step is a no-op.
    pub fn post_solve(&mut self, dt: i64)
        requires
            old(self).wf(),
        ensures
            final(self).wf(),
            final(self).positions == old(self).positions,
            final(self).prev_positions == old(self).prev_positions,
            final(self).inv_mass == old(self).inv_mass,
            final(self).indices == old(self).indices,
            final(self).stretching_ids == old(self).stretching_ids,
            final(self).stretching_lengths == old(self).stretching_lengths,
            final(self).bending_ids == old(self).bending_ids,
            final(self).bending_lengths == old(self).bending_lengths,
            final(self).grab_id == old(self).grab_id,
            dt <= 0 || dt > SCALE ==> final(self).velocities == old(self).velocities,
            1 <= dt <= SCALE ==> forall|i: int|
                0 <= i < old(self).positions@.len() ==> final(self).velocities@[i]@
                    == #[trigger] post_step(
                    old(self).positions@[i]@,
                    old(self).prev_positions@[i]@,
                    old(self).velocities@[i]@,
                    old(self).inv_mass@[i] as int,
                    dt as int,
                ),
    {
        if dt <= 0 || dt > SCALE {
            return ;
        }
        post_solve_step(
            &self.positions,
            &self.prev_positions,
            &mut self.velocities,
            &self.inv_mass,
            dt,
        );
    }

    /// Starts a grab at the picked point `p`: the nearest vertex is
    /// pinned to the pointer, its inverse mass saved, and its position
    /// snapped to the pick point.
    pub fn start_grab(&mut self, p: Vec3)
        requires
            old(self).wf(),
        ensures
            final(self).wf(),
            final(self).prev_positions == old(self).prev_positions,
            final(self).velocities == old(self).velocities,
            final(self).indices == old(self).indices,
            final(self).stretching_ids == old(self).stretching_ids,
            final(self).stretching_lengths == old(self).stretching_lengths,
            final(self).bending_ids == old(self).bending_ids,
            final(self).bending_lengths == old(self).bending_lengths,
            old(self).positions@.len() == 0 ==> final(self).grab_id is None
                && final(self).positions == old(self).positions
                && final(self).inv_mass == old(self).inv_mass,
            old(self).positions@.len() > 0 ==> {
                let i = nearest_pair(views(old(self).positions@), p@,
                    old(self).positions@.len() as int).0;
                &&& final(self).grab_id == Option::Some(i as usize)
                &&& final(self).grab_inv_mass == old(self).inv_mass@[i]
                &&& final(self).inv_mass@ == old(self).inv_mass@.update(i, 0i64)
                &&& final(self).positions@ == old(self).positions@.update(i, p)
            },
    {
        let n = self.positions.len();
        self.grab_id = Option::None;
        if n == 0 {
            return ;
        }
        let ghost ps = views(self.positions@);
        let mut best: usize = 0;
        let mut best_d: i128 = crate::softbody::cand_pick(self.positions[0], p);
        proof {
            assert(ps[0] == self.positions@[0]@);
        }
        let mut k: usize = 1;
        while k < n
            invariant
                n == self.positions@.len(),
                ps == views(self.positions@),
                1 <= k <= n,
                best < k,
                (best as int, best_d as int) == nearest_pair(ps, p@, k as int),
            decreases n - k,
        {
            proof {
                assert(ps[k as int] == self.positions@[k as int]@);
            }
            let d = crate::softbody::cand_pick(self.positions[k], p);
            if d < best_d {
                best = k;
                best_d = d;
            }
            k += 1;
        }
        self.grab_inv_mass = self.inv_mass[best];
        self.inv_mass.set(best, 0);
        self.positions.set(best, p);
        self.grab_id = Option::Some(best);
    }

    /// Moves the grabbed vertex to the new pick point.
    pub fn move_grabbed(&mut self, p: Vec3, _vel: Vec3)
        requires
            old(self).wf(),
        ensures
            final(self).wf(),
            final(self).inv_mass == old(self).inv_mass,
            final(self).velocities == old(self).velocities,
            final(self).grab_id == old(self).grab_id,
            match old(self).grab_id {
                Option::Some(i) => final(self).positions@ == old(self).positions@.update(
                    i as int,
                    p,
                ),
                Option::None => final(self).positions == old(self).positions,
            },
    {
        match self.grab_id {
            Option::Some(i) => {
                self.positions.set(i, p);
            },
            Option::None => {},
        }
    }

    /// Releases the grab: the saved inverse mass is restored exactly and
    /// the final drag velocity handed to the vertex.
    pub fn end_grab(&mut self, _p: Vec3, vel: Vec3)
        requires
            old(self).wf(),
        ensures
            final(self).wf(),
            final(self).positions == old(self).positions,
            final(self).grab_id is None,
            match old(self).grab_id {
                Option::Some(i) => {
                    &&& final(self).inv_mass@ == old(self).inv_mass@.update(
                        i as int,
                        crate::softbody::clamp_mass(old(self).grab_inv_mass),
                    )
                    &&& final(self).velocities@ == old(self).velocities@.update(i as int, vel)
                },
                Option::None => final(self).inv_mass == old(self).inv_mass
                    && final(self).velocities == old(self).velocities,
            },
    {
        match self.grab_id {
            Option::Some(i) => {
                let restored = if self.grab_inv_mass < 0 {
                    0
                } else if self.grab_inv_mass > MLIM {
                    MLIM
                } else {
                    self.grab_inv_mass
                };
                self.inv_mass.set(i, restored);
                self.velocities.set(i, vel);
            },
            Option::None => {},
        }
        self.grab_id = Option::None;
    }

    /// Recomputes the enclosing sphere used for picking: the centre is
    /// the mean position and the radius the largest distance from it.
    pub fn recompute_bounds(&mut self)
        requires
            old(self).wf(),
        ensures
            final(self).wf(),
            final(self).positions == old(self).positions,
            final(self).prev_positions == old(self).prev_positions,
            final(self).velocities == old(self).velocities,
            final(self).inv_mass == old(self).inv_mass,
            final(self).indices == old(self).indices,
            final(self).stretching_ids == old(self).stretching_ids,
            final(self).stretching_lengths == old(self).stretching_lengths,
            final(self).bending_ids == old(self).bending_ids,
            final(self).bending_lengths == old(self).bending_lengths,
            final(self).grab_id == old(self).grab_id,
            old(self).positions@.len() > 0 ==> (final(self).center, final(self).radius)
                == crate::softbody::bounds_of(views(old(self).positions@)),
    {
        if self.positions.len() == 0 {
            return ;
        }
        let (c, r) = crate::softbody::bounding_sphere(&self.positions);
        self.center = c;
        self.radius = r;
    }

    /// The pick distance along a ray: the enclosing sphere is tested
    /// first, then every triangle of the sheet, and the nearest hit wins.
    pub fn intersect(&self, ray: crate::intersect::Ray) -> (res: Option<i64>)
        requires
            self.wf(),
        ensures
            ({
                let spec = if crate::intersect::ray_sphere(ray.origin@, ray.direction@,
                    self.center@, self.radius as int) is Some {
                    crate::intersect::nearest_hit(
                        views(self.positions@),
                        self.indices@,
                        ray.origin@,
                        ray.direction@,
                        (self.indices@.len() / 3) as int,
                    )
                } else {
                    Option::<int>::None
                };
                match res {
                    Option::Some(t) => spec == Option::Some(t as int),
                    Option::None => spec is None,
                }
            }),
    {
        match crate::intersect::ray_sphere_intersect(ray, self.center, self.radius) {
            Option::Some(_) => crate::intersect::ray_mesh_intersect(
                ray,
                &self.positions,
                &self.indices,
            ),
            Option::None => Option::None,
        }
    }
}

/// A half-edge record carried through the adjacency sort: the unordered
/// endpoint pair, smaller first, and the half-edge's own index.
#[derive(Clone, Copy, PartialEq, Eq, Structural, Debug)]
pub struct HalfEdge {
    /// Smaller endpoint.
    pub lo: usize,
    /// Larger endpoint.
    pub hi: usize,
    /// Index of the half-edge: three times its triangle plus its corner.
    pub edge_nr: usize,
}

/// The record is a faithful half-edge of the triangle list.
pub open spec fn hedge_valid(ids: Seq<usize>, h: HalfEdge) -> bool {
    &&& h.edge_nr < ids.len()
    &&& (h.lo as int, h.hi as int) == hedge_pair(ids, h.edge_nr as int)
}

/// Lexicographic order on the endpoint pairs.
pub open spec fn hedge_le(a: HalfEdge, b: HalfEdge) -> bool {
    a.lo < b.lo || (a.lo == b.lo && a.hi <= b.hi)
}

/// Records at positions `k1` and `k2` carry the same endpoint pair.
pub open spec fn keyeq(es: Seq<HalfEdge>, k1: int, k2: int) -> bool {
    es[k1].lo == es[k2].lo && es[k1].hi == es[k2].hi
}

/// No third position shares the endpoint pair of positions `k1`, `k2`.
pub open spec fn only_two(es: Seq<HalfEdge>, k1: int, k2: int) -> bool {
    forall|k3: int| 0 <= k3 < es.len() && k3 != k1 && k3 != k2 ==> !#[trigger] keyeq(es, k1, k3)
}

/// Every record index is distinct.
pub open spec fn distinct_nrs(es: Seq<HalfEdge>) -> bool {
    forall|k1: int, k2: int|
        #![trigger es[k1], es[k2]]
        0 <= k1 < k2 < es.len() ==> es[k1].edge_nr != es[k2].edge_nr
}

/// Half-edge `e` is carried by some record.
pub open spec fn appears(es: Seq<HalfEdge>, e: int) -> bool {
    exists|k: int| #![trigger es[k]] 0 <= k < es.len() && es[k].edge_nr == e
}

/// Half-edges `e1` and `e2` share their unordered vertex pair with each
/// other and with no third half-edge.
pub open spec fn shares_pair_only_with(ids: Seq<usize>, e1: int, e2: int) -> bool {
    &&& 0 <= e1 < ids.len()
    &&& 0 <= e2 < ids.len()
    &&& e1 != e2
    &&& hedge_pair(ids, e1) == hedge_pair(ids, e2)
    &&& forall|e3: int|
        0 <= e3 < ids.len() && e3 != e1 && e3 != e2 ==> #[trigger] hedge_pair(ids, e3)
            != hedge_pair(ids, e1)
}

/// True when the records at `t - 1` and `t` are out of order.
fn out_of_order(edges: &Vec<HalfEdge>, t: usize) -> (r: bool)
    requires
        1 <= t < edges@.len(),
    ensures
        r == !hedge_le(edges@[t as int - 1], edges@[t as int]),
{
    let prev = edges[t - 1];
    let cur = edges[t];
    !(prev.lo < cur.lo || (prev.lo == cur.lo && prev.hi <= cur.hi))
}

/// The neighbour of each half-edge, found by sorting the half-edges by
/// their unordered endpoint pair and pairing adjacent equal entries. An
/// entry equal to the list length marks an open edge without a neighbour.
/// Every reported pairing is sound (the two half-edges carry the same
/// unordered vertex pair and differ), and the pairing is complete: when
/// exactly two half-edges share an unordered vertex pair, each names the
/// other.
pub fn find_tri_neighbors(indices: &Vec<usize>) -> (r: Vec<usize>)
    requires
        indices@.len() % 3 == 0,
    ensures
        r@.len() == indices@.len(),
        forall|e: int|
            0 <= e < r@.len() ==> #[trigger] r@[e] == indices@.len() || (r@[e] < indices@.len()
                && r@[e] != e && hedge_pair(indices@, r@[e] as int) == hedge_pair(indices@, e)),
        forall|e1: int, e2: int|
            #[trigger] shares_pair_only_with(indices@, e1, e2) ==> r@[e1] == e2 && r@[e2] == e1,
{
    let n = indices.len();
    let nt = n / 3;
    proof {
        vstd::arithmetic::div_mod::lemma_fundamental_div_mod(indices@.len() as int, 3);
    }
    // Collect every half-edge with its sorted endpoint pair.
    let mut edges: Vec<HalfEdge> = Vec::new();
    let mut i: usize = 0;
    while i < nt
        invariant
            n == indices@.len(),
            nt == indices@.len() / 3,
            3 * nt <= indices@.len(),
            indices@.len() <= usize::MAX,
            i <= nt,
            edges@.len() == 3 * i,
            forall|k: int| 0 <= k < edges@.len() ==> hedge_valid(indices@, #[trigger] edges@[k]),
            forall|k: int| 0 <= k < edges@.len() ==> (#[trigger] edges@[k]).edge_nr == k,
        decreases nt - i,
    {
        proof {
            assert(3 * (i as int) + 2 < indices@.len());
        }
        let mut j: usize = 0;
        while j < 3
            invariant
                n == indices@.len(),
                3 * (i as int) + 2 < indices@.len(),
                i < nt,
                j <= 3,
                edges@.len() == 3 * i + j,
                forall|k: int|
                    0 <= k < edges@.len() ==> hedge_valid(indices@, #[trigger] edges@[k]),
                forall|k: int| 0 <= k < edges@.len() ==> (#[trigger] edges@[k]).edge_nr == k,
            decreases 3 - j,
        {
            let e = 3 * i + j;
            let a = indices[e];
            let b = indices[3 * i + (j + 1) % 3];
            proof {
                assert(hedge_other(e as int) == 3 * (i as int) + ((j as int) + 1) % 3) by {
                    assert(e as int / 3 == i as int && e as int % 3 == j as int) by {
                        vstd::arithmetic::div_mod::lemma_fundamental_div_mod_converse(
                            e as int,
                            3,
                            i as int,
                            j as int,
                        );
                    }
                }
                assert(((j as int) + 1) % 3 == ((j + 1) % 3) as int);
            }
            let he = if a <= b {
                HalfEdge { lo: a, hi: b, edge_nr: e }
            } else {
                HalfEdge { lo: b, hi: a, edge_nr: e }
            };
            edges.push(he);
            j += 1;
        }
        i += 1;
    }
    // Insertion sort by the endpoint pair, so equal pairs sit adjacent.
    let m = edges.len();
    proof {
        assert forall|e: int| 0 <= e < m implies #[trigger] appears(edges@, e) by {
            assert(edges@[e].edge_nr == e);
        }
    }
    let mut s: usize = 1;
    while s < m
        invariant
            m == edges@.len(),
            1 <= s || m == 0,
            s <= m || m == 0,
            forall|k: int| 0 <= k < edges@.len() ==> hedge_valid(indices@, #[trigger] edges@[k]),
            distinct_nrs(edges@),
            forall|e: int| 0 <= e < m ==> #[trigger] appears(edges@, e),
            forall|k1: int, k2: int|
                0 <= k1 < k2 < s && k2 < edges@.len() ==> hedge_le(
                    #[trigger] edges@[k1],
                    #[trigger] edges@[k2],
                ),
        decreases m - s,
    {
        let mut t: usize = s;
        while t > 0 && out_of_order(&edges, t)
            invariant
                m == edges@.len(),
                s < m,
                t <= s,
                forall|k: int|
                    0 <= k < edges@.len() ==> hedge_valid(indices@, #[trigger] edges@[k]),
                distinct_nrs(edges@),
                forall|e: int| 0 <= e < m ==> #[trigger] appears(edges@, e),
                forall|k1: int, k2: int|
                    0 <= k1 < k2 <= s && k2 < edges@.len() && k1 != t && k2 != t ==> hedge_le(
                        #[trigger] edges@[k1],
                        #[trigger] edges@[k2],
                    ),
                forall|k2: int|
                    t < k2 <= s ==> hedge_le(#[trigger] edges@[t as int], edges@[k2]),
            decreases t,
        {
            let prev = edges[t - 1];
            let cur = edges[t];
            let ghost es0 = edges@;
            edges.set(t, prev);
            edges.set(t - 1, cur);
            proof {
                let es1 = edges@;
                assert forall|k1: int, k2: int|
                    #![trigger es1[k1], es1[k2]]
                    0 <= k1 < k2 < es1.len() implies es1[k1].edge_nr != es1[k2].edge_nr by {
                    let o1: int = if k1 == t as int {
                        t as int - 1
                    } else if k1 == t as int - 1 {
                        t as int
                    } else {
                        k1
                    };
                    let o2: int = if k2 == t as int {
                        t as int - 1
                    } else if k2 == t as int - 1 {
                        t as int
                    } else {
                        k2
                    };
                    assert(es1[k1] == es0[o1] && es1[k2] == es0[o2]);
                }
                assert forall|e: int| 0 <= e < m implies #[trigger] appears(es1, e) by {
                    assert(appears(es0, e));
                    let k = choose|k: int| 0 <= k < es0.len() && es0[k].edge_nr == e;
                    if k == t as int {
                        assert(es1[t as int - 1].edge_nr == e);
                    } else if k == t as int - 1 {
                        assert(es1[t as int].edge_nr == e);
                    } else {
                        assert(es1[k].edge_nr == e);
                    }
                }
            }
            t -= 1;
        }
        proof {
            assert forall|k1: int, k2: int|
                0 <= k1 < k2 <= s && k2 < edges@.len() implies hedge_le(
                #[trigger] edges@[k1],
                #[trigger] edges@[k2],
            ) by {
                if k2 == t as int {
                    assert(t > 0);
                    assert(hedge_le(edges@[t as int - 1], edges@[t as int]));
                    if k1 < t as int - 1 {
                        assert(hedge_le(edges@[k1], edges@[t as int - 1]));
                    }
                } else if k1 == t as int {
                    assert(hedge_le(edges@[t as int], edges@[k2]));
                }
            }
        }
        s += 1;
    }
    // Pair adjacent records with equal endpoint pairs.
    let mut neighbors: Vec<usize> = Vec::new();
    let mut k: usize = 0;
    while k < n
        invariant
            n == indices@.len(),
            k <= n,
            neighbors@.len() == k,
            forall|e: int| 0 <= e < k ==> #[trigger] neighbors@[e] == n,
        decreases n - k,
    {
        neighbors.push(n);
        k += 1;
    }
    let ghost es = edges@;
    let mut nr: usize = 0;
    while nr < m
        invariant
            m == edges@.len(),
            es == edges@,
            n == indices@.len(),
            neighbors@.len() == n,
            nr <= m,
            forall|k: int| 0 <= k < es.len() ==> hedge_valid(indices@, #[trigger] es[k]),
            distinct_nrs(es),
            forall|k1: int, k2: int|
                0 <= k1 < k2 < m ==> hedge_le(#[trigger] es[k1], #[trigger] es[k2]),
            forall|e: int|
                0 <= e < n ==> #[trigger] neighbors@[e] == n || (neighbors@[e] < n
                    && neighbors@[e] != e && hedge_pair(indices@, neighbors@[e] as int)
                    == hedge_pair(indices@, e)),
            forall|k: int|
                0 <= k && k + 1 < nr && #[trigger] keyeq(es, k, k + 1) && only_two(es, k, k + 1)
                    ==> neighbors@[es[k].edge_nr as int] == es[k + 1].edge_nr
                    && neighbors@[es[k + 1].edge_nr as int] == es[k].edge_nr,
            nr == 0 || nr >= m || !(keyeq(es, nr - 1, nr as int) && only_two(
                es,
                nr - 1,
                nr as int,
            )),
        decreases m - nr,
    {
        let e0 = edges[nr];
        let ghost k = nr as int;
        nr += 1;
        let mut matched = false;
        if nr < m {
            let e1 = edges[nr];
            if e0.lo == e1.lo && e0.hi == e1.hi && e0.edge_nr != e1.edge_nr {
                let ghost nb0 = neighbors@;
                neighbors.set(e0.edge_nr, e1.edge_nr);
                neighbors.set(e1.edge_nr, e0.edge_nr);
                nr += 1;
                matched = true;
                proof {
                    // The new pair is recorded; earlier recorded pairs sit
                    // strictly below and carry other record indices, so
                    // the two writes touch neither.
                    assert forall|kk: int|
                        0 <= kk && kk + 1 < nr && #[trigger] keyeq(es, kk, kk + 1) && only_two(
                        es,
                        kk,
                        kk + 1,
                    ) implies neighbors@[es[kk].edge_nr as int] == es[kk + 1].edge_nr
                        && neighbors@[es[kk + 1].edge_nr as int] == es[kk].edge_nr by {
                        if kk == k {
                        } else if kk + 1 == k {
                            // A pair ending at `k` would make `k + 1` a
                            // third sharer of its key.
                            assert(keyeq(es, kk, k + 1));
                            assert(!only_two(es, kk, kk + 1));
                        } else {
                            assert(kk + 1 < k);
                            assert(es[kk].edge_nr != es[k].edge_nr);
                            assert(es[kk].edge_nr != es[k + 1].edge_nr);
                            assert(es[kk + 1].edge_nr != es[k].edge_nr);
                            assert(es[kk + 1].edge_nr != es[k + 1].edge_nr);
                            assert(neighbors@[es[kk].edge_nr as int] == nb0[es[kk].edge_nr as int]);
                            assert(neighbors@[es[kk + 1].edge_nr as int] == nb0[es[kk
                                + 1].edge_nr as int]);
                        }
                    }
                    // The walk never stops just past an unrecorded unique
                    // pair: the slot before the new cursor was the second
                    // half of the match, so a further equal key would be a
                    // third sharer.
                    if nr < m && keyeq(es, nr - 1, nr as int) {
                        assert(keyeq(es, k, nr as int));
                        assert(!only_two(es, nr - 1, nr as int)) by {
                            assert(keyeq(es, nr - 1, k));
                        }
                    }
                }
            }
        }
        proof {
            if !matched {
                // Without a match the keys at the old cursor and its
                // successor differ (record indices always differ), so no
                // unique pair is skipped.
                if k + 1 < m {
                    assert(es[k].edge_nr != es[k + 1].edge_nr);
                    assert(!keyeq(es, k, k + 1));
                }
                assert forall|kk: int|
                    0 <= kk && kk + 1 < nr && #[trigger] keyeq(es, kk, kk + 1) && only_two(
                    es,
                    kk,
                    kk + 1,
                ) implies neighbors@[es[kk].edge_nr as int] == es[kk + 1].edge_nr
                    && neighbors@[es[kk + 1].edge_nr as int] == es[kk].edge_nr by {
                    if kk + 1 == k {
                        assert(k == 0 || !(keyeq(es, k - 1, k) && only_two(es, k - 1, k)));
                    }
                }
            }
        }
    }
    // Bridge the positional pairing back to the half-edges themselves.
    proof {
        assert forall|e1: int, e2: int|
            #[trigger] shares_pair_only_with(indices@, e1, e2) implies neighbors@[e1] == e2
            && neighbors@[e2] == e1 by {
            assert(appears(es, e1));
            assert(appears(es, e2));
            let k1 = choose|k: int| 0 <= k < es.len() && es[k].edge_nr == e1;
            let k2 = choose|k: int| 0 <= k < es.len() && es[k].edge_nr == e2;
            assert(k1 != k2);
            let ka: int = if k1 < k2 {
                k1
            } else {
                k2
            };
            let kb: int = if k1 < k2 {
                k2
            } else {
                k1
            };
            assert(hedge_valid(indices@, es[ka]) && hedge_valid(indices@, es[kb]));
            assert(keyeq(es, ka, kb));
            // The two sharers sit adjacent: anything between them carries
            // the same key and would be a third half-edge with that pair.
            if kb > ka + 1 {
                let mid = ka + 1;
                assert(hedge_le(es[ka], es[mid]));
                assert(hedge_le(es[mid], es[kb]));
                assert(keyeq(es, ka, mid));
                assert(hedge_valid(indices@, es[mid]));
                let e3 = es[mid].edge_nr as int;
                assert(es[mid].edge_nr != es[ka].edge_nr && es[mid].edge_nr != es[kb].edge_nr);
                assert(hedge_pair(indices@, e3) == hedge_pair(indices@, e1));
                assert(false);
            }
            // And nothing else shares their key.
            assert(only_two(es, ka, ka + 1)) by {
                assert forall|k3: int|
                    0 <= k3 < es.len() && k3 != ka && k3 != ka + 1 implies !#[trigger] keyeq(
                    es,
                    ka,
                    k3,
                ) by {
                    if keyeq(es, ka, k3) {
                        let e3 = es[k3].edge_nr as int;
                        assert(hedge_valid(indices@, es[k3]));
                        assert(hedge_pair(indices@, e3) == hedge_pair(indices@, e1));
                        assert(es[k3].edge_nr != es[ka].edge_nr);
                        assert(es[k3].edge_nr != es[kb].edge_nr);
                    }
                }
            }
            assert(neighbors@[es[ka].edge_nr as int] == es[ka + 1].edge_nr);
            assert(neighbors@[es[ka + 1].edge_nr as int] == es[ka].edge_nr);
            assert(es[ka].edge_nr == e1 || es[ka].edge_nr == e2);
            if es[ka].edge_nr == e1 {
                assert(es[ka + 1].edge_nr == e2);
            } else {
                assert(es[ka + 1].edge_nr == e1);
            }
        }
    }
    neighbors
}

impl Cloth {
    /// Builds a cloth from a triangulated sheet and a pin list: stretch
    /// constraints on the unique mesh edges, bending constraints between
    /// the opposite corners of each shared-edge triangle pair, rest values
    /// from the rest geometry, and the pins forced to inverse mass zero.
    /// Answers nothing when the triangle list is not whole triples, an
    /// index is out of range, or a compliance is out of range.
    pub fn new(
        vertices: Vec<Vec3>,
        indices: Vec<usize>,
        bending_compliance: i64,
        stretching_compliance: i64,
        pins: &Vec<usize>,
    ) -> (res: Option<Cloth>)
        ensures
            res is Some <==> sheet_valid(
                vertices@.len() as int,
                indices@,
                bending_compliance,
                stretching_compliance,
            ),
            match res {
                Option::Some(cl) => {
                    &&& cl.wf()
                    &&& exists|nbrs: Seq<usize>|
                        #![trigger neighbors_ok(indices@, nbrs)]
                        neighbors_ok(indices@, nbrs) && cl.stretching_ids@ == built_stretch(
                            indices@,
                            nbrs,
                            indices@.len() as int,
                        ) && cl.bending_ids@ == built_bend(indices@, nbrs, indices@.len() as int)
                    &&& cl.inv_mass@ == pins_applied(
                        tri_masses_upto(
                            views(vertices@),
                            indices@,
                            Seq::new(vertices@.len(), |j: int| 0i64),
                            indices@.len() as int / 3,
                        ),
                        pins@,
                        pins@.len() as int,
                    )
                    &&& cl.positions@ == vertices@
                    &&& cl.prev_positions@ == vertices@
                    &&& cl.indices@ == indices@
                    &&& cl.bending_compliance == bending_compliance
                    &&& cl.stretching_compliance == stretching_compliance
                    &&& cl.grab_id is None
                    &&& forall|k: int|
                        0 <= k < pins@.len() && pins@[k] < cl.inv_mass@.len()
                            ==> cl.inv_mass@[#[trigger] pins@[k] as int] == 0i64
                    &&& forall|e: int|
                        0 <= e < cl.stretching_lengths@.len()
                            ==> #[trigger] cl.stretching_lengths@[e] as int == edge_rest(
                            views(vertices@),
                            cl.stretching_ids@[2 * e] as int,
                            cl.stretching_ids@[2 * e + 1] as int,
                        )
                    &&& forall|e: int|
                        0 <= e < cl.bending_lengths@.len()
                            ==> #[trigger] cl.bending_lengths@[e] as int == edge_rest(
                            views(vertices@),
                            cl.bending_ids@[2 * e] as int,
                            cl.bending_ids@[2 * e + 1] as int,
                        )
                },
                Option::None => true,
            },
    {
        let n = vertices.len();
        if indices.len() % 3 != 0 {
            return Option::None;
        }
        if !(0 <= bending_compliance && bending_compliance <= PLIM && 0 <= stretching_compliance
            && stretching_compliance <= PLIM) {
            return Option::None;
        }
        let mut t: usize = 0;
        while t < indices.len()
            invariant
                t <= indices@.len(),
                n == vertices@.len(),
                forall|j: int| 0 <= j < t ==> #[trigger] indices@[j] < n,
            decreases indices@.len() - t,
        {
            if indices[t] >= n {
                proof {
                    assert(!sheet_valid(n as int, indices@, bending_compliance,
                        stretching_compliance)) by {
                        assert(indices@[t as int] >= n);
                    }
                }
                return Option::None;
            }
            t += 1;
        }
        let neighbors = find_tri_neighbors(&indices);
        let total = indices.len();
        let nt = total / 3;
        proof {
            vstd::arithmetic::div_mod::lemma_fundamental_div_mod(indices@.len() as int, 3);
        }
        // Each unique edge becomes a stretch constraint; each shared edge
        // pairs the two opposite corners into a bending constraint.
        let mut stretching_ids: Vec<usize> = Vec::new();
        let mut bending_ids: Vec<usize> = Vec::new();
        let mut i: usize = 0;
        while i < nt
            invariant
                n == vertices@.len(),
                total == indices@.len(),
                nt == indices@.len() / 3,
                3 * nt <= indices@.len(),
                indices@.len() % 3 == 0,
                indices@.len() <= usize::MAX,
                neighbors@.len() == indices@.len(),
                forall|j: int| 0 <= j < indices@.len() ==> #[trigger] indices@[j] < n,
                forall|e: int|
                    0 <= e < neighbors@.len() ==> #[trigger] neighbors@[e] == indices@.len() || (
                    neighbors@[e] < indices@.len() && neighbors@[e] != e),
                i <= nt,
                stretching_ids@.len() % 2 == 0,
                bending_ids@.len() % 2 == 0,
                stretching_ids@ == built_stretch(indices@, neighbors@, 3 * (i as int)),
                bending_ids@ == built_bend(indices@, neighbors@, 3 * (i as int)),
                forall|e: int|
                    0 <= e < stretching_ids@.len() ==> #[trigger] stretching_ids@[e] < n,
                forall|e: int| 0 <= e < bending_ids@.len() ==> #[trigger] bending_ids@[e] < n,
            decreases nt - i,
        {
            proof {
                assert(3 * (i as int) + 2 < indices@.len());
            }
            let mut j: usize = 0;
            while j < 3
                invariant
                    n == vertices@.len(),
                    total == indices@.len(),
                    3 * (i as int) + 2 < indices@.len(),
                    i < nt,
                    3 * nt <= indices@.len(),
                    indices@.len() % 3 == 0,
                    neighbors@.len() == indices@.len(),
                    forall|jj: int| 0 <= jj < indices@.len() ==> #[trigger] indices@[jj] < n,
                    forall|e: int|
                        0 <= e < neighbors@.len() ==> #[trigger] neighbors@[e] == indices@.len()
                            || (neighbors@[e] < indices@.len() && neighbors@[e] != e),
                    j <= 3,
                    stretching_ids@.len() % 2 == 0,
                    bending_ids@.len() % 2 == 0,
                    stretching_ids@ == built_stretch(indices@, neighbors@, 3 * (i as int)
                        + j as int),
                    bending_ids@ == built_bend(indices@, neighbors@, 3 * (i as int) + j as int),
                    forall|e: int|
                        0 <= e < stretching_ids@.len() ==> #[trigger] stretching_ids@[e] < n,
                    forall|e: int| 0 <= e < bending_ids@.len() ==> #[trigger] bending_ids@[e] < n,
                decreases 3 - j,
            {
                let e = 3 * i + j;
                proof {
                    assert(e as int / 3 == i as int && e as int % 3 == j as int) by {
                        vstd::arithmetic::div_mod::lemma_fundamental_div_mod_converse(
                            e as int,
                            3,
                            i as int,
                            j as int,
                        );
                    }
                    assert(hedge_other(e as int) == 3 * (i as int) + ((j as int) + 1) % 3);
                    assert(hedge_opposite(e as int) == 3 * (i as int) + ((j as int) + 2) % 3);
                    assert(((j as int) + 1) % 3 == ((j + 1) % 3) as int);
                    assert(((j as int) + 2) % 3 == ((j + 2) % 3) as int);
                }
                let id0 = indices[e];
                let id1 = indices[3 * i + (j + 1) % 3];
                let nb = neighbors[e];
                let ghost st0 = stretching_ids@;
                let ghost bd0 = bending_ids@;
                // Each edge only once: open edges always, shared edges
                // from the lower-indexed endpoint's side.
                if nb == total || id0 < id1 {
                    stretching_ids.push(id0);
                    stretching_ids.push(id1);
                }
                // A shared edge bends between the two opposite corners.
                if nb < total {
                    let ni = nb / 3;
                    let nj = nb % 3;
                    proof {
                        vstd::arithmetic::div_mod::lemma_fundamental_div_mod(nb as int, 3);
                        assert(3 * (ni as int) + (nj as int) < indices@.len());
                        assert(nj < 3) by {
                            vstd::arithmetic::div_mod::lemma_mod_division_less_than_divisor(
                                nb as int,
                                3,
                            );
                        }
                    }
                    proof {
                        let ilen = indices@.len() as int;
                        vstd::arithmetic::div_mod::lemma_fundamental_div_mod(ilen, 3);
                        assert(3 * (ni as int) + 3 <= ilen) by (nonlinear_arith)
                            requires
                                3 * (ni as int) + (nj as int) == nb as int,
                                0 <= (nj as int),
                                (nj as int) < 3,
                                (nb as int) < ilen,
                                ilen == 3 * (ilen / 3),
                        ;
                    }
                    proof {
                        assert(hedge_opposite(nb as int) == 3 * (ni as int) + ((nj as int) + 2)
                            % 3) by {
                            vstd::arithmetic::div_mod::lemma_fundamental_div_mod_converse(
                                nb as int,
                                3,
                                ni as int,
                                nj as int,
                            );
                        }
                        assert(((nj as int) + 2) % 3 == ((nj + 2) % 3) as int);
                    }
                    let id2 = indices[3 * i + (j + 2) % 3];
                    let id3 = indices[3 * ni + (nj + 2) % 3];
                    bending_ids.push(id2);
                    bending_ids.push(id3);
                }
                j += 1;
                proof {
                    assert(stretching_ids@ =~= built_stretch(indices@, neighbors@,
                        3 * (i as int) + j as int));
                    assert(bending_ids@ =~= built_bend(indices@, neighbors@,
                        3 * (i as int) + j as int));
                }
            }
            i += 1;
        }
        let prev_positions = crate::softbody::clone_buffer(&vertices);
        let mut velocities: Vec<Vec3> = Vec::new();
        let mut inv_mass: Vec<i64> = Vec::new();
        let mut jj: usize = 0;
        while jj < n
            invariant
                jj <= n,
                velocities@.len() == jj,
                inv_mass@.len() == jj,
                forall|k: int| 0 <= k < jj ==> #[trigger] inv_mass@[k] == 0i64,
            decreases n - jj,
        {
            velocities.push(Vec3 { x: 0, y: 0, z: 0 });
            inv_mass.push(0);
            jj += 1;
        }
        proof {
            assert(inv_mass@ =~= Seq::new(vertices@.len(), |j: int| 0i64));
        }
        let mut cl = Cloth {
            positions: vertices,
            prev_positions,
            velocities,
            inv_mass,
            indices,
            stretching_ids,
            stretching_lengths: Vec::new(),
            bending_ids,
            bending_lengths: Vec::new(),
            stretching_compliance,
            bending_compliance,
            grab_id: Option::None,
            grab_inv_mass: 0,
            center: Vec3 { x: 0, y: 0, z: 0 },
            radius: 0,
        };
        cl.init_physics();
        cl.pin_indices(pins);
        proof {
            vstd::arithmetic::div_mod::lemma_fundamental_div_mod(cl.indices@.len() as int, 3);
            assert(neighbors_ok(cl.indices@, neighbors@));
        }
        Option::Some(cl)
    }
}


/// A grid sheet is accepted exactly when its dimensions, spacing, jitter
/// table and compliances are within the solver's range.
pub open spec fn grid_valid(
    x: int,
    y: int,
    spacing: i64,
    jitter: Seq<i64>,
    bending_compliance: i64,
    stretching_compliance: i64,
) -> bool {
    &&& 1 <= x <= 2048
    &&& 1 <= y <= 2048
    &&& 1 <= spacing <= 100 * SCALE
    &&& jitter.len() == 3 * (x * y)
    &&& forall|k: int| 0 <= k < jitter.len() ==> -SCALE <= #[trigger] jitter[k] <= SCALE
    &&& 0 <= bending_compliance <= PLIM
    &&& 0 <= stretching_compliance <= PLIM
}

/// The rest position of grid vertex `id`: its column spaced along the
/// first axis and centred, its row spaced up the second, plus its jitter.
pub open spec fn grid_pos(x: int, y: int, spacing: i64, jitter: Seq<i64>, id: int) -> V3 {
    let i = id / y;
    let j = id % y;
    V3 {
        x: i * spacing - tdiv(x * spacing, 2) + jitter[3 * id],
        y: j * spacing + jitter[3 * id + 1],
        z: jitter[3 * id + 2] as int,
    }
}

/// The triangle list of the first `id` grid vertices: every interior cell
/// contributes its two triangles, split along the rising diagonal.
pub open spec fn grid_tris_upto(x: int, y: int, id: int) -> Seq<usize>
    decreases id,
{
    if id <= 0 {
        Seq::empty()
    } else {
        let prev = grid_tris_upto(x, y, id - 1);
        let c = id - 1;
        let i = c / y;
        let j = c % y;
        if i < x - 1 && j < y - 1 {
            prev.push(((c + 1) as usize)).push((c as usize)).push(((c + 1 + y) as usize)).push(
                ((c + 1 + y) as usize),
            ).push((c as usize)).push(((c + y) as usize))
        } else {
            prev
        }
    }
}

impl Cloth {
    /// Builds a rectangular grid sheet of `x` columns by `y` rows with the
    /// given spacing, a per-component jitter added to every rest position,
    /// and a pin list; constraints and rest values then derive from the
    /// grid's triangles as for any sheet. Construction succeeds exactly
    /// when the grid parameters are within the solver's range.
    #[verifier::rlimit(60)]
    pub fn new_grid(
        x: usize,
        y: usize,
        spacing: i64,
        bending_compliance: i64,
        stretching_compliance: i64,
        jitter: &Vec<i64>,
        pins: &Vec<usize>,
    ) -> (res: Option<Cloth>)
        ensures
            res is Some <==> grid_valid(
                x as int,
                y as int,
                spacing,
                jitter@,
                bending_compliance,
                stretching_compliance,
            ),
            match res {
                Option::Some(cl) => {
                    &&& cl.wf()
                    &&& cl.positions@.len() == x * y
                    &&& forall|id: int|
                        0 <= id < cl.positions@.len() ==> #[trigger] cl.positions@[id]@
                            == grid_pos(x as int, y as int, spacing, jitter@, id)
                    &&& cl.indices@ == grid_tris_upto(x as int, y as int, (x * y) as int)
                    &&& cl.bending_compliance == bending_compliance
                    &&& cl.stretching_compliance == stretching_compliance
                    &&& cl.grab_id is None
                    &&& forall|k: int|
                        0 <= k < pins@.len() && pins@[k] < cl.inv_mass@.len()
                            ==> cl.inv_mass@[#[trigger] pins@[k] as int] == 0i64
                },
                Option::None => true,
            },
    {
        if !(1 <= x && x <= 2048 && 1 <= y && y <= 2048 && 1 <= spacing && spacing <= 100 * SCALE
            && 0 <= bending_compliance && bending_compliance <= PLIM && 0 <= stretching_compliance
            && stretching_compliance <= PLIM) {
            return Option::None;
        }
        proof {
            assert((x as int) * (y as int) <= 2048 * 2048) by (nonlinear_arith)
                requires 1 <= (x as int) <= 2048, 1 <= (y as int) <= 2048;
            assert((x as int) * (y as int) >= 1) by (nonlinear_arith)
                requires 1 <= (x as int), 1 <= (y as int);
        }
        let n = x * y;
        if jitter.len() != 3 * n {
            return Option::None;
        }
        let mut jk: usize = 0;
        while jk < jitter.len()
            invariant
                jk <= jitter@.len(),
                forall|k: int| 0 <= k < jk ==> -SCALE <= #[trigger] jitter@[k] <= SCALE,
            decreases jitter@.len() - jk,
        {
            if jitter[jk] < -SCALE || jitter[jk] > SCALE {
                proof {
                    assert(!grid_valid(x as int, y as int, spacing, jitter@, bending_compliance,
                        stretching_compliance)) by {
                        assert(!(-SCALE <= jitter@[jk as int] <= SCALE));
                    }
                }
                return Option::None;
            }
            jk += 1;
        }
        // Rest positions.
        proof {
            assert((x as int) * (spacing as int) <= 2048 * (100 * SCALE as int))
                by (nonlinear_arith)
                requires 1 <= (x as int) <= 2048, 1 <= (spacing as int) <= 100 * SCALE as int;
            assert((x as int) * (spacing as int) >= 0) by (nonlinear_arith)
                requires 1 <= (x as int), 1 <= (spacing as int);
            crate::fixed::lemma_tdiv_bound((x as int) * (spacing as int), 2);
        }
        let half = crate::fixed::div_i128((x as i128) * (spacing as i128), 2) as i64;
        let mut positions: Vec<Vec3> = Vec::new();
        let mut id: usize = 0;
        while id < n
            invariant
                n == x * y,
                1 <= x <= 2048,
                1 <= y <= 2048,
                1 <= spacing <= 100 * SCALE,
                n <= 2048 * 2048,
                jitter@.len() == 3 * n,
                forall|k: int| 0 <= k < jitter@.len() ==> -SCALE <= #[trigger] jitter@[k] <= SCALE,
                half as int == tdiv((x as int) * (spacing as int), 2),
                -410_000_000_000 <= half <= 410_000_000_000,
                id <= n,
                positions@.len() == id,
                forall|k: int|
                    0 <= k < id ==> #[trigger] positions@[k]@ == grid_pos(x as int, y as int,
                        spacing, jitter@, k),
            decreases n - id,
        {
            let i = id / y;
            let j = id % y;
            proof {
                vstd::arithmetic::div_mod::lemma_fundamental_div_mod(id as int, y as int);
                vstd::arithmetic::div_mod::lemma_mod_division_less_than_divisor(
                    id as int,
                    y as int,
                );
                assert(i as int <= 2048) by (nonlinear_arith)
                    requires
                        (id as int) == (y as int) * (i as int) + (j as int),
                        0 <= (j as int),
                        (id as int) < (x as int) * (y as int),
                        1 <= (y as int),
                        (x as int) <= 2048,
                ;
                assert((i as int) * (spacing as int) <= 2048 * (100 * SCALE as int))
                    by (nonlinear_arith)
                    requires 0 <= (i as int) <= 2048, 1 <= (spacing as int) <= 100 * SCALE as int;
                assert((i as int) * (spacing as int) >= 0) by (nonlinear_arith)
                    requires 0 <= (i as int), 1 <= (spacing as int);
                assert((j as int) * (spacing as int) <= 2048 * (100 * SCALE as int))
                    by (nonlinear_arith)
                    requires 0 <= (j as int) < (y as int), (y as int) <= 2048, 1 <= (
                    spacing as int) <= 100 * SCALE as int;
                assert((j as int) * (spacing as int) >= 0) by (nonlinear_arith)
                    requires 0 <= (j as int), 1 <= (spacing as int);
                assert((x as int) * (spacing as int) <= 2048 * (100 * SCALE as int))
                    by (nonlinear_arith)
                    requires 1 <= (x as int) <= 2048, 1 <= (spacing as int) <= 100 * SCALE as int;
                assert((x as int) * (spacing as int) >= 0) by (nonlinear_arith)
                    requires 1 <= (x as int), 1 <= (spacing as int);
                crate::fixed::lemma_tdiv_bound((x as int) * (spacing as int), 2);
                assert(3 * (id as int) + 2 < jitter@.len());
            }
            let px = ((i as i128) * (spacing as i128) - (half as i128)
                + (jitter[3 * id] as i128)) as i64;
            let py = ((j as i128) * (spacing as i128) + (jitter[3 * id + 1] as i128)) as i64;
            let pz = jitter[3 * id + 2];
            positions.push(Vec3 { x: px, y: py, z: pz });
            id += 1;
        }
        // Triangles: two per interior cell.
        let mut indices: Vec<usize> = Vec::new();
        let mut id: usize = 0;
        while id < n
            invariant
                n == x * y,
                n <= 2048 * 2048,
                1 <= x <= 2048,
                1 <= y <= 2048,
                id <= n,
                indices@ == grid_tris_upto(x as int, y as int, id as int),
                indices@.len() % 3 == 0,
                forall|k: int| 0 <= k < indices@.len() ==> #[trigger] indices@[k] < n,
            decreases n - id,
        {
            let i = id / y;
            let j = id % y;
            proof {
                vstd::arithmetic::div_mod::lemma_fundamental_div_mod(id as int, y as int);
                vstd::arithmetic::div_mod::lemma_mod_division_less_than_divisor(
                    id as int,
                    y as int,
                );
            }
            if i < x - 1 && j < y - 1 {
                proof {
                    assert((id as int) + 1 + (y as int) < (x as int) * (y as int))
                        by (nonlinear_arith)
                        requires
                            (id as int) == (y as int) * (i as int) + (j as int),
                            (i as int) < (x as int) - 1,
                            (j as int) < (y as int) - 1,
                            1 <= (y as int),
                    ;
                }
                indices.push(id + 1);
                indices.push(id);
                indices.push(id + 1 + y);
                indices.push(id + 1 + y);
                indices.push(id);
                indices.push(id + y);
            }
            id += 1;
            proof {
                assert(indices@ =~= grid_tris_upto(x as int, y as int, id as int));
            }
        }
        let cl = Cloth::new(positions, indices, bending_compliance, stretching_compliance, pins);
        proof {
            assert(cl is Some);
        }
        cl
    }
}

/// The doubled raw area of a triangle: the length of the cross product
/// of two of its edges, over two.
pub open spec fn tri_area(ps: Seq<V3>, i0: int, i1: int, i2: int) -> int {
    if !(0 <= i0 < ps.len() && 0 <= i1 < ps.len() && 0 <= i2 < ps.len()) {
        0
    } else if !in_b(ps[i0], TLIM as int) || !in_b(ps[i1], TLIM as int) || !in_b(
        ps[i2],
        TLIM as int,
    ) {
        0
    } else {
        let c = v_cross(v_sub(ps[i1], ps[i0]), v_sub(ps[i2], ps[i0]));
        tdiv(v_len(c), 2)
    }
}

/// The per-vertex inverse-mass contribution of one triangle: the inverse
/// of three times its area.
pub open spec fn area_inv(a: int) -> int {
    if a > 0 {
        fxdiv(SCALE as int, 3 * a)
    } else {
        0
    }
}

/// Inverse masses after the first `k` triangles have each added their
/// area-weighted contribution to their three vertices.
pub open spec fn tri_masses_upto(ps: Seq<V3>, tris: Seq<usize>, ws0: Seq<i64>, k: int) -> Seq<
    i64,
>
    decreases k,
{
    if k <= 0 {
        ws0
    } else {
        let prev = tri_masses_upto(ps, tris, ws0, k - 1);
        let i0 = tris[3 * (k - 1)] as int;
        let i1 = tris[3 * (k - 1) + 1] as int;
        let i2 = tris[3 * (k - 1) + 2] as int;
        let p = area_inv(tri_area(ps, i0, i1, i2));
        let m0 = prev.update(i0, add_sat(prev[i0] as int, p) as i64);
        let m1 = m0.update(i1, add_sat(m0[i1] as int, p) as i64);
        m1.update(i2, add_sat(m1[i2] as int, p) as i64)
    }
}

/// Triangle accumulation keeps every inverse mass within `[0, MLIM]`.
pub proof fn lemma_tri_masses_monotone(ps: Seq<V3>, tris: Seq<usize>, ws0: Seq<i64>, k: int)
    requires
        forall|t: int| 0 <= t < tris.len() ==> #[trigger] tris[t] < ws0.len(),
        forall|j: int| 0 <= j < ws0.len() ==> 0 <= #[trigger] ws0[j] <= MLIM,
        0 <= 3 * k <= tris.len(),
    ensures
        tri_masses_upto(ps, tris, ws0, k).len() == ws0.len(),
        forall|j: int|
            0 <= j < ws0.len() ==> ws0[j] <= #[trigger] tri_masses_upto(ps, tris, ws0, k)[j]
                <= MLIM,
    decreases k,
{
    if k > 0 {
        lemma_tri_masses_monotone(ps, tris, ws0, k - 1);
        let i0 = tris[3 * (k - 1)] as int;
        let i1 = tris[3 * (k - 1) + 1] as int;
        let i2 = tris[3 * (k - 1) + 2] as int;
        lemma_area_inv_range2(tri_area(ps, i0, i1, i2));
    }
}

/// One more triangle never lowers any inverse mass.
proof fn lemma_tri_masses_step(ps: Seq<V3>, tris: Seq<usize>, ws0: Seq<i64>, k: int, v: int)
    requires
        forall|t: int| 0 <= t < tris.len() ==> #[trigger] tris[t] < ws0.len(),
        forall|j: int| 0 <= j < ws0.len() ==> 0 <= #[trigger] ws0[j] <= MLIM,
        0 <= k,
        3 * (k + 1) <= tris.len(),
        0 <= v < ws0.len(),
    ensures
        tri_masses_upto(ps, tris, ws0, k)[v] <= tri_masses_upto(ps, tris, ws0, k + 1)[v],
{
    lemma_tri_masses_monotone(ps, tris, ws0, k);
    let i0 = tris[3 * k] as int;
    let i1 = tris[3 * k + 1] as int;
    let i2 = tris[3 * k + 2] as int;
    lemma_area_inv_range2(tri_area(ps, i0, i1, i2));
}

/// Later triangles never lower an inverse mass.
proof fn lemma_tri_masses_nondecreasing(
    ps: Seq<V3>,
    tris: Seq<usize>,
    ws0: Seq<i64>,
    k1: int,
    k2: int,
    v: int,
)
    requires
        forall|t: int| 0 <= t < tris.len() ==> #[trigger] tris[t] < ws0.len(),
        forall|j: int| 0 <= j < ws0.len() ==> 0 <= #[trigger] ws0[j] <= MLIM,
        0 <= k1 <= k2,
        3 * k2 <= tris.len(),
        0 <= v < ws0.len(),
    ensures
        tri_masses_upto(ps, tris, ws0, k1)[v] <= tri_masses_upto(ps, tris, ws0, k2)[v],
    decreases k2 - k1,
{
    if k1 < k2 {
        lemma_tri_masses_nondecreasing(ps, tris, ws0, k1, k2 - 1, v);
        lemma_tri_masses_step(ps, tris, ws0, k2 - 1, v);
    }
}

/// Mass conservation at construction for sheets: a triangle whose rest
/// area is positive (and small enough that a third of its inverse does
/// not round away) leaves each of its three vertices with a strictly
/// positive, finite inverse mass; every accumulated inverse mass stays
/// within `[0, MLIM]`.
pub proof fn lemma_tri_mass_conservation(
    ps: Seq<V3>,
    tris: Seq<usize>,
    ws0: Seq<i64>,
    n: int,
    k: int,
    v: int,
)
    requires
        forall|t: int| 0 <= t < tris.len() ==> #[trigger] tris[t] < ws0.len(),
        forall|j: int| 0 <= j < ws0.len() ==> 0 <= #[trigger] ws0[j] <= MLIM,
        3 * n <= tris.len(),
        0 <= k < n,
        1 <= tri_area(ps, tris[3 * k] as int, tris[3 * k + 1] as int, tris[3 * k + 2] as int)
            <= 300_000_000_000,
        v == tris[3 * k] as int || v == tris[3 * k + 1] as int || v == tris[3 * k + 2] as int,
    ensures
        0 < tri_masses_upto(ps, tris, ws0, n)[v] <= MLIM,
{
    let a = tri_area(ps, tris[3 * k] as int, tris[3 * k + 1] as int, tris[3 * k + 2] as int);
    let p = area_inv(a);
    assert(p >= 1) by {
        assert(area_inv(a) == tdiv(SCALE as int * SCALE, 3 * a));
        assert((SCALE as int) * (SCALE as int) == 1_000_000_000_000) by (nonlinear_arith)
            requires SCALE == 1_000_000i64;
        vstd::arithmetic::div_mod::lemma_fundamental_div_mod(1_000_000_000_000, 3 * a);
        assert(1_000_000_000_000int / (3 * a) >= 1) by (nonlinear_arith)
            requires
                1_000_000_000_000int == (1_000_000_000_000int / (3 * a)) * (3 * a)
                    + 1_000_000_000_000int % (3 * a),
                0 <= 1_000_000_000_000int % (3 * a),
                1_000_000_000_000int % (3 * a) < 3 * a,
                1 <= a <= 300_000_000_000,
        ;
    }
    lemma_tri_masses_monotone(ps, tris, ws0, k);
    lemma_area_inv_range2(a);
    assert(tri_masses_upto(ps, tris, ws0, k + 1)[v] >= 1);
    lemma_tri_masses_nondecreasing(ps, tris, ws0, k + 1, n, v);
    lemma_tri_masses_monotone(ps, tris, ws0, n);
}

/// An area-inverse contribution is between zero and the cap.
pub proof fn lemma_area_inv_range2(a: int)
    ensures
        0 <= area_inv(a) <= MLIM,
{
    if a > 0 {
        lemma_mul_bound(SCALE as int, SCALE as int, SCALE as int, SCALE as int);
        assert((SCALE as int) * (SCALE as int) == MLIM as int) by (nonlinear_arith)
            requires SCALE == 1_000_000i64, MLIM == 1_000_000_000_000i64;
        lemma_tdiv_bound(SCALE as int * SCALE, 3 * a);
        vstd::arithmetic::div_mod::lemma_div_pos_is_pos((SCALE as int) * (SCALE as int), 3 * a);
    }
}

/// Range facts needed before dividing by three areas.
proof fn lemma_area_inv_range(a: int)
    requires
        1 <= a <= 2_000_000_000_000,
    ensures
        i64::MIN <= fxdiv(SCALE as int, 3 * a) <= i64::MAX,
        3 * a <= i64::MAX,
{
    lemma_mul_bound(SCALE as int, SCALE as int, SCALE as int, SCALE as int);
    lemma_tdiv_bound(SCALE as int * SCALE, 3 * a);
    assert((SCALE as int) * (SCALE as int) <= i64::MAX) by (nonlinear_arith)
        requires SCALE == 1_000_000i64;
}

/// The doubled triangle area, as computed.
fn tri_area_exec(a: Vec3, b: Vec3, c: Vec3) -> (r: i64)
    ensures
        r as int == tri_area_of(a@, b@, c@),
        0 <= r <= 2_000_000_000_000,
{
    if !(in_lim(a, TLIM) && in_lim(b, TLIM) && in_lim(c, TLIM)) {
        return 0;
    }
    proof {
        crate::vec3::lemma_sub_in_b(b@, a@, TLIM as int);
        crate::vec3::lemma_sub_in_b(c@, a@, TLIM as int);
        lemma_tet_cross_bound(v_sub(b@, a@), v_sub(c@, a@));
    }
    let e0 = b.sub(a);
    let e1 = c.sub(a);
    let cr = e0.cross(e1);
    let len = cr.length();
    proof {
        assert(v_len2(v_cross(v_sub(b@, a@), v_sub(c@, a@))) <= 3_000_000_000_000int
            * 3_000_000_000_000int) by {
            let cr2 = v_cross(v_sub(b@, a@), v_sub(c@, a@));
            lemma_mul_bound(cr2.x, cr2.x, 1_280_000_000_000, 1_280_000_000_000);
            lemma_mul_bound(cr2.y, cr2.y, 1_280_000_000_000, 1_280_000_000_000);
            lemma_mul_bound(cr2.z, cr2.z, 1_280_000_000_000, 1_280_000_000_000);
            assert(3 * (1_280_000_000_000int * 1_280_000_000_000int) <= 3_000_000_000_000int
                * 3_000_000_000_000int) by (nonlinear_arith);
        }
        crate::fixed::lemma_sqrt_le(
            v_len2(v_cross(v_sub(b@, a@), v_sub(c@, a@))),
            len as int,
            3_000_000_000_000,
        );
        lemma_tdiv_bound(v_len(v_cross(v_sub(b@, a@), v_sub(c@, a@))), 2);
        vstd::arithmetic::div_mod::lemma_div_pos_is_pos(len as int, 2);
        vstd::arithmetic::div_mod::lemma_div_is_ordered(len as int, 3_000_000_000_000, 2);
    }
    div_i128(len as i128, 2) as i64
}

/// The doubled area from corner values, mirroring [`tri_area`].
pub open spec fn tri_area_of(a: V3, b: V3, c: V3) -> int {
    if !in_b(a, TLIM as int) || !in_b(b, TLIM as int) || !in_b(c, TLIM as int) {
        0
    } else {
        tdiv(v_len(v_cross(v_sub(b, a), v_sub(c, a))), 2)
    }
}

/// Rest lengths for a flat pair list from the current positions.
fn rest_lengths_of(positions: &Vec<Vec3>, ids: &Vec<usize>) -> (r: Vec<i64>)
    requires
        forall|e: int| 0 <= e < ids@.len() ==> #[trigger] ids@[e] < positions@.len(),
    ensures
        r@.len() == ids@.len() / 2,
        forall|e: int|
            0 <= e < r@.len() ==> #[trigger] r@[e] as int == edge_rest(
                views(positions@),
                ids@[2 * e] as int,
                ids@[2 * e + 1] as int,
            ),
{
    let ghost ps = views(positions@);
    let tot = ids.len();
    let ne = tot / 2;
    proof {
        vstd::arithmetic::div_mod::lemma_fundamental_div_mod(ids@.len() as int, 2);
    }
    let mut r: Vec<i64> = Vec::new();
    let mut e: usize = 0;
    while e < ne
        invariant
            ps == views(positions@),
            ne == ids@.len() / 2,
            2 * ne <= ids@.len(),
            ids@.len() <= usize::MAX,
            forall|t: int| 0 <= t < ids@.len() ==> #[trigger] ids@[t] < positions@.len(),
            e <= ne,
            r@.len() == e,
            forall|j: int|
                0 <= j < e ==> #[trigger] r@[j] as int == edge_rest(
                    ps,
                    ids@[2 * j] as int,
                    ids@[2 * j + 1] as int,
                ),
        decreases ne - e,
    {
        proof {
            assert(2 * (e as int) + 1 < ids@.len());
        }
        let i0 = ids[2 * e];
        let i1 = ids[2 * e + 1];
        let p0 = positions[i0];
        let p1 = positions[i1];
        proof {
            assert(ps[i0 as int] == positions@[i0 as int]@);
            assert(ps[i1 as int] == positions@[i1 as int]@);
        }
        let len: i64 = if in_lim(p0, PLIM) && in_lim(p1, PLIM) {
            p0.dist(p1)
        } else {
            0
        };
        r.push(len);
        e += 1;
    }
    r
}

} // verus!
