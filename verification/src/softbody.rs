//! Soft tetrahedral bodies.
//!
//! A soft body is a particle set plus tetrahedron topology: each
//! tetrahedron contributes a volume constraint and the precomputed unique
//! edge list contributes distance constraints. Construction computes rest
//! volumes, volume-weighted inverse masses and rest edge lengths from the
//! rest geometry; each sub-step then runs pre-solve, the edge and volume
//! projections, and post-solve.

use vstd::prelude::*;

verus! {

use crate::fixed::{
    SCALE, tdiv, fxmul, fxdiv, abs_i, div_i128, lemma_tdiv_bound, lemma_mul_bound, lemma_sqrt_le,
};
use crate::vec3::{
    Vec3, V3, v_add, v_sub, v_scale, v_div, v_dot, v_cross, v_len, v_len2, in_b, VLIM,
    lemma_shrink_by, lemma_mul_div_exact,
};
use crate::particles::{
    PLIM, MLIM, in_lim, views, pre_step, post_step, solve_dist_upto, pre_solve_step,
    post_solve_step, solve_distance_constraints,
};
use vstd::pervasive::VecAdditionalExecFns;

/// Magnitude cap on tetrahedron vertex coordinates inside the volume
/// machinery: four hundred units.
pub const TLIM: i64 = 400_000_000;

/// Largest rest volume accepted by the volume projection.
pub const RVLIM: i64 = 1_000_000_000_000_000;

/// The signed volume of the tetrahedron on vertices `i0 .. i3` of `ps`:
/// the triple product of its edge vectors over six. Out-of-range or
/// invalid vertices give volume zero.
pub open spec fn tet_volume(ps: Seq<V3>, i0: int, i1: int, i2: int, i3: int) -> int {
    if !(0 <= i0 < ps.len() && 0 <= i1 < ps.len() && 0 <= i2 < ps.len() && 0 <= i3 < ps.len()) {
        0
    } else if !in_b(ps[i0], TLIM as int) || !in_b(ps[i1], TLIM as int) || !in_b(
        ps[i2],
        TLIM as int,
    ) || !in_b(ps[i3], TLIM as int) {
        0
    } else {
        let c = v_cross(v_sub(ps[i1], ps[i0]), v_sub(ps[i2], ps[i0]));
        tdiv(v_dot(c, v_sub(ps[i3], ps[i0])), 6)
    }
}

/// The cross product of tetrahedron edges stays within the general vector
/// cap.
pub proof fn lemma_tet_cross_bound(a: V3, b: V3)
    requires
        in_b(a, 2 * TLIM as int),
        in_b(b, 2 * TLIM as int),
    ensures
        in_b(v_cross(a, b), 1_280_000_000_000),
{
    lemma_mul_bound(a.y, b.z, 2 * TLIM as int, 2 * TLIM as int);
    lemma_mul_bound(a.z, b.y, 2 * TLIM as int, 2 * TLIM as int);
    lemma_mul_bound(a.z, b.x, 2 * TLIM as int, 2 * TLIM as int);
    lemma_mul_bound(a.x, b.z, 2 * TLIM as int, 2 * TLIM as int);
    lemma_mul_bound(a.x, b.y, 2 * TLIM as int, 2 * TLIM as int);
    lemma_mul_bound(a.y, b.x, 2 * TLIM as int, 2 * TLIM as int);
    assert(2 * ((2 * TLIM as int) * (2 * TLIM as int)) <= 1_280_000_000_000int * (SCALE as int))
        by (nonlinear_arith)
        requires TLIM == 400_000_000i64, SCALE == 1_000_000i64;
    assert(2 * ((2 * TLIM as int) * (2 * TLIM as int)) >= 0) by (nonlinear_arith)
        requires TLIM == 400_000_000i64;
    lemma_shrink_by(a.y * b.z - a.z * b.y, 1_280_000_000_000int * (SCALE as int), SCALE as int);
    lemma_shrink_by(a.z * b.x - a.x * b.z, 1_280_000_000_000int * (SCALE as int), SCALE as int);
    lemma_shrink_by(a.x * b.y - a.y * b.x, 1_280_000_000_000int * (SCALE as int), SCALE as int);
    lemma_mul_div_exact(1_280_000_000_000int, SCALE as int);
    assert(1_280_000_000_000int * (SCALE as int) == (SCALE as int) * 1_280_000_000_000int)
        by (nonlinear_arith);
}

/// The per-vertex inverse-mass contribution of a tetrahedron: the inverse
/// of a quarter of its volume, or nothing for degenerate volumes.
pub open spec fn quarter_inv(vol: int) -> int {
    if vol > 0 && tdiv(vol, 4) > 0 {
        fxdiv(SCALE as int, tdiv(vol, 4))
    } else {
        0
    }
}

/// Inverse-mass accumulation saturates at the solver's cap instead of
/// overflowing.
pub open spec fn add_sat(w: int, p: int) -> int {
    if w + p > MLIM {
        MLIM as int
    } else {
        w + p
    }
}

/// Inverse masses after the first `k` tetrahedra have each added their
/// volume-weighted contribution to their four vertices.
pub open spec fn masses_upto(ps: Seq<V3>, tets: Seq<usize>, ws0: Seq<i64>, k: int) -> Seq<i64>
    decreases k,
{
    if k <= 0 {
        ws0
    } else {
        let prev = masses_upto(ps, tets, ws0, k - 1);
        let i0 = tets[4 * (k - 1)] as int;
        let i1 = tets[4 * (k - 1) + 1] as int;
        let i2 = tets[4 * (k - 1) + 2] as int;
        let i3 = tets[4 * (k - 1) + 3] as int;
        let p = quarter_inv(tet_volume(ps, i0, i1, i2, i3));
        let m0 = prev.update(i0, add_sat(prev[i0] as int, p) as i64);
        let m1 = m0.update(i1, add_sat(m0[i1] as int, p) as i64);
        let m2 = m1.update(i2, add_sat(m1[i2] as int, p) as i64);
        m2.update(i3, add_sat(m2[i3] as int, p) as i64)
    }
}

/// The rest length of one edge: the distance between its endpoints, or
/// zero when an endpoint is out of the solver's range.
pub open spec fn edge_rest(ps: Seq<V3>, i0: int, i1: int) -> int {
    if 0 <= i0 < ps.len() && 0 <= i1 < ps.len() && in_b(ps[i0], PLIM as int) && in_b(
        ps[i1],
        PLIM as int,
    ) {
        v_len(v_sub(ps[i0], ps[i1]))
    } else {
        0
    }
}

/// A tetrahedral mesh is accepted exactly when the quadruple and pair
/// lists are whole, every index references a vertex, and both compliances
/// are within the solver's range.
pub open spec fn tet_mesh_valid(
    n: int,
    tets: Seq<usize>,
    edges: Seq<usize>,
    n_vis: int,
    skin_ids: Seq<usize>,
    edge_compliance: i64,
    volume_compliance: i64,
) -> bool {
    &&& tets.len() % 4 == 0
    &&& edges.len() % 2 == 0
    &&& skin_ids.len() % 3 == 0
    &&& 0 <= edge_compliance <= PLIM
    &&& 0 <= volume_compliance <= PLIM
    &&& forall|t: int| 0 <= t < tets.len() ==> #[trigger] tets[t] < n
    &&& forall|e: int| 0 <= e < edges.len() ==> #[trigger] edges[e] < n
    &&& forall|t: int| 0 <= t < skin_ids.len() ==> #[trigger] skin_ids[t] < n_vis
}

/// A quarter-inverse contribution is between zero and the cap.
pub proof fn lemma_quarter_inv_range(vol: int)
    ensures
        0 <= quarter_inv(vol) <= MLIM,
{
    if vol > 0 && tdiv(vol, 4) > 0 {
        let q = tdiv(vol, 4);
        lemma_mul_bound(SCALE as int, SCALE as int, SCALE as int, SCALE as int);
        assert((SCALE as int) * (SCALE as int) == MLIM as int) by (nonlinear_arith)
            requires SCALE == 1_000_000i64, MLIM == 1_000_000_000_000i64;
        lemma_tdiv_bound(SCALE as int * SCALE, q);
        vstd::arithmetic::div_mod::lemma_div_pos_is_pos((SCALE as int) * (SCALE as int), q);
    }
}

/// Accumulation keeps every inverse mass within `[0, MLIM]` and never
/// lowers one.
pub proof fn lemma_masses_monotone(ps: Seq<V3>, tets: Seq<usize>, ws0: Seq<i64>, k: int)
    requires
        forall|t: int| 0 <= t < tets.len() ==> #[trigger] tets[t] < ws0.len(),
        forall|j: int| 0 <= j < ws0.len() ==> 0 <= #[trigger] ws0[j] <= MLIM,
        0 <= 4 * k <= tets.len(),
    ensures
        masses_upto(ps, tets, ws0, k).len() == ws0.len(),
        forall|j: int|
            0 <= j < ws0.len() ==> ws0[j] <= #[trigger] masses_upto(ps, tets, ws0, k)[j] <= MLIM,
    decreases k,
{
    if k > 0 {
        lemma_masses_monotone(ps, tets, ws0, k - 1);
        let prev = masses_upto(ps, tets, ws0, k - 1);
        let i0 = tets[4 * (k - 1)] as int;
        let i1 = tets[4 * (k - 1) + 1] as int;
        let i2 = tets[4 * (k - 1) + 2] as int;
        let i3 = tets[4 * (k - 1) + 3] as int;
        lemma_quarter_inv_range(tet_volume(ps, i0, i1, i2, i3));
    }
}

/// One more tetrahedron never lowers any inverse mass.
proof fn lemma_masses_step(ps: Seq<V3>, tets: Seq<usize>, ws0: Seq<i64>, k: int, v: int)
    requires
        forall|t: int| 0 <= t < tets.len() ==> #[trigger] tets[t] < ws0.len(),
        forall|j: int| 0 <= j < ws0.len() ==> 0 <= #[trigger] ws0[j] <= MLIM,
        0 <= k,
        4 * (k + 1) <= tets.len(),
        0 <= v < ws0.len(),
    ensures
        masses_upto(ps, tets, ws0, k)[v] <= masses_upto(ps, tets, ws0, k + 1)[v],
{
    lemma_masses_monotone(ps, tets, ws0, k);
    let i0 = tets[4 * k] as int;
    let i1 = tets[4 * k + 1] as int;
    let i2 = tets[4 * k + 2] as int;
    let i3 = tets[4 * k + 3] as int;
    lemma_quarter_inv_range(tet_volume(ps, i0, i1, i2, i3));
}

/// Later tetrahedra never lower an inverse mass.
proof fn lemma_masses_nondecreasing(
    ps: Seq<V3>,
    tets: Seq<usize>,
    ws0: Seq<i64>,
    k1: int,
    k2: int,
    v: int,
)
    requires
        forall|t: int| 0 <= t < tets.len() ==> #[trigger] tets[t] < ws0.len(),
        forall|j: int| 0 <= j < ws0.len() ==> 0 <= #[trigger] ws0[j] <= MLIM,
        0 <= k1 <= k2,
        4 * k2 <= tets.len(),
        0 <= v < ws0.len(),
    ensures
        masses_upto(ps, tets, ws0, k1)[v] <= masses_upto(ps, tets, ws0, k2)[v],
    decreases k2 - k1,
{
    if k1 < k2 {
        lemma_masses_nondecreasing(ps, tets, ws0, k1, k2 - 1, v);
        lemma_masses_step(ps, tets, ws0, k2 - 1, v);
    }
}

/// Mass conservation at construction: a tetrahedron whose rest volume is
/// positive (and small enough that its quarter does not round the inverse
/// away) leaves each of its vertices with a strictly positive, finite
/// inverse mass; every accumulated inverse mass stays within `[0, MLIM]`.
pub proof fn lemma_mass_conservation(
    ps: Seq<V3>,
    tets: Seq<usize>,
    ws0: Seq<i64>,
    n: int,
    k: int,
    v: int,
)
    requires
        forall|t: int| 0 <= t < tets.len() ==> #[trigger] tets[t] < ws0.len(),
        forall|j: int| 0 <= j < ws0.len() ==> 0 <= #[trigger] ws0[j] <= MLIM,
        4 * n <= tets.len(),
        0 <= k < n,
        4 <= tet_volume(
            ps,
            tets[4 * k] as int,
            tets[4 * k + 1] as int,
            tets[4 * k + 2] as int,
            tets[4 * k + 3] as int,
        ) <= 4_000_000_000_000,
        v == tets[4 * k] as int || v == tets[4 * k + 1] as int || v == tets[4 * k + 2] as int || v
            == tets[4 * k + 3] as int,
    ensures
        0 < masses_upto(ps, tets, ws0, n)[v] <= MLIM,
{
    let vol = tet_volume(
        ps,
        tets[4 * k] as int,
        tets[4 * k + 1] as int,
        tets[4 * k + 2] as int,
        tets[4 * k + 3] as int,
    );
    let q = tdiv(vol, 4);
    assert(q >= 1) by {
        vstd::arithmetic::div_mod::lemma_div_pos_is_pos(vol, 4);
        vstd::arithmetic::div_mod::lemma_fundamental_div_mod(vol, 4);
    }
    assert(q <= 1_000_000_000_000) by {
        vstd::arithmetic::div_mod::lemma_div_is_ordered(vol, 4_000_000_000_000, 4);
        assert(4_000_000_000_000int / 4 == 1_000_000_000_000);
    }
    let p = quarter_inv(vol);
    assert(p >= 1) by {
        assert(fxdiv(SCALE as int, q) == tdiv(SCALE as int * SCALE, q));
        assert((SCALE as int) * (SCALE as int) == 1_000_000_000_000) by (nonlinear_arith)
            requires SCALE == 1_000_000i64;
        vstd::arithmetic::div_mod::lemma_fundamental_div_mod(1_000_000_000_000, q);
        assert(1_000_000_000_000int / q >= 1) by (nonlinear_arith)
            requires
                1_000_000_000_000int == (1_000_000_000_000int / q) * q + 1_000_000_000_000int % q,
                0 <= 1_000_000_000_000int % q < q,
                1 <= q <= 1_000_000_000_000,
        ;
    }
    // After tetrahedron `k` itself, the vertex holds at least `p`.
    lemma_masses_monotone(ps, tets, ws0, k);
    lemma_quarter_inv_range(vol);
    assert(masses_upto(ps, tets, ws0, k + 1)[v] >= 1);
    lemma_masses_nondecreasing(ps, tets, ws0, k + 1, n, v);
    lemma_masses_monotone(ps, tets, ws0, n);
}

/// The face gradient of a volume constraint: the cross product of two
/// face edges over six.
pub open spec fn grad_of(a: V3, b: V3, c: V3) -> V3 {
    v_div(v_cross(v_sub(b, a), v_sub(c, a)), 6 * SCALE as int)
}

/// The signed volume of a tetrahedron given by its corner values.
pub open spec fn vol_of(a: V3, b: V3, c: V3, d: V3) -> int {
    if !in_b(a, TLIM as int) || !in_b(b, TLIM as int) || !in_b(c, TLIM as int) || !in_b(
        d,
        TLIM as int,
    ) {
        0
    } else {
        tdiv(v_dot(v_cross(v_sub(b, a), v_sub(c, a)), v_sub(d, a)), 6)
    }
}

/// The four corrections of one volume constraint, or nothing when the
/// tetrahedron is degenerate, out of range, or its correction would leave
/// the solver's range.
#[verifier::opaque]
pub open spec fn vol_deltas(
    ps: Seq<V3>,
    ws: Seq<i64>,
    i0: int,
    i1: int,
    i2: int,
    i3: int,
    rest: int,
    alphav: int,
) -> Option<(V3, V3, V3, V3)> {
    if !(0 <= i0 < ps.len() && 0 <= i1 < ps.len() && 0 <= i2 < ps.len() && 0 <= i3 < ps.len()) {
        Option::None
    } else if !(0 <= ws[i0] <= MLIM && 0 <= ws[i1] <= MLIM && 0 <= ws[i2] <= MLIM && 0 <= ws[i3]
        <= MLIM) {
        Option::None
    } else if !in_b(ps[i0], TLIM as int) || !in_b(ps[i1], TLIM as int) || !in_b(
        ps[i2],
        TLIM as int,
    ) || !in_b(ps[i3], TLIM as int) {
        Option::None
    } else if !(0 <= rest <= RVLIM) || alphav < 0 {
        Option::None
    } else {
        let g0 = grad_of(ps[i1], ps[i3], ps[i2]);
        let g1 = grad_of(ps[i0], ps[i2], ps[i3]);
        let g2 = grad_of(ps[i0], ps[i3], ps[i1]);
        let g3 = grad_of(ps[i0], ps[i1], ps[i2]);
        let w = ws[i0] * v_len2(g0) + ws[i1] * v_len2(g1) + ws[i2] * v_len2(g2) + ws[i3] * v_len2(
            g3,
        );
        if w == 0 {
            Option::None
        } else {
            let vol = vol_of(ps[i0], ps[i1], ps[i2], ps[i3]);
            let c = vol - rest;
            let s = tdiv(-c * SCALE * SCALE * SCALE, w + alphav);
            if abs_i(s) > PLIM as int {
                Option::None
            } else {
                let c0 = fxmul(s, ws[i0] as int);
                let c1 = fxmul(s, ws[i1] as int);
                let c2 = fxmul(s, ws[i2] as int);
                let c3 = fxmul(s, ws[i3] as int);
                if abs_i(c0) > PLIM as int || abs_i(c1) > PLIM as int || abs_i(c2) > PLIM as int
                    || abs_i(c3) > PLIM as int {
                    Option::None
                } else {
                    let d0 = v_scale(g0, c0);
                    let d1 = v_scale(g1, c1);
                    let d2 = v_scale(g2, c2);
                    let d3 = v_scale(g3, c3);
                    if !in_b(d0, PLIM as int) || !in_b(d1, PLIM as int) || !in_b(d2, PLIM as int)
                        || !in_b(d3, PLIM as int) {
                        Option::None
                    } else {
                        Option::Some((d0, d1, d2, d3))
                    }
                }
            }
        }
    }
}

/// One volume-constraint projection on the tetrahedron `i0 .. i3`: each
/// vertex moves along its own face gradient by the compliance-weighted
/// volume error, scaled by its inverse mass. Degenerate or out-of-range
/// tetrahedra, and any correction that leaves the solver's range, are
/// skipped whole.
pub open spec fn solve_vol_one(
    ps: Seq<V3>,
    ws: Seq<i64>,
    i0: int,
    i1: int,
    i2: int,
    i3: int,
    rest: int,
    alphav: int,
) -> Seq<V3> {
    match vol_deltas(ps, ws, i0, i1, i2, i3, rest, alphav) {
        Option::None => ps,
        Option::Some((d0, d1, d2, d3)) => {
            let q0 = ps.update(i0, v_add(ps[i0], d0));
            let q1 = if in_b(q0[i1], PLIM as int) {
                q0.update(i1, v_add(q0[i1], d1))
            } else {
                q0
            };
            let q2 = if in_b(q1[i2], PLIM as int) {
                q1.update(i2, v_add(q1[i2], d2))
            } else {
                q1
            };
            if in_b(q2[i3], PLIM as int) {
                q2.update(i3, v_add(q2[i3], d3))
            } else {
                q2
            }
        },
    }
}

/// The first `k` volume constraints, projected in order.
pub open spec fn solve_vols_upto(
    ps: Seq<V3>,
    ws: Seq<i64>,
    tets: Seq<usize>,
    rests: Seq<i64>,
    alphav: int,
    k: int,
) -> Seq<V3>
    decreases k,
{
    if k <= 0 {
        ps
    } else {
        let prev = solve_vols_upto(ps, ws, tets, rests, alphav, k - 1);
        solve_vol_one(
            prev,
            ws,
            tets[4 * (k - 1)] as int,
            tets[4 * (k - 1) + 1] as int,
            tets[4 * (k - 1) + 2] as int,
            tets[4 * (k - 1) + 3] as int,
            rests[k - 1] as int,
            alphav,
        )
    }
}

/// The face gradient, as computed.
fn grad_exec(a: Vec3, b: Vec3, c: Vec3) -> (r: Vec3)
    requires
        in_b(a@, TLIM as int),
        in_b(b@, TLIM as int),
        in_b(c@, TLIM as int),
    ensures
        r@ == grad_of(a@, b@, c@),
        in_b(r@, 220_000_000_000),
{
    proof {
        crate::vec3::lemma_sub_in_b(b@, a@, TLIM as int);
        crate::vec3::lemma_sub_in_b(c@, a@, TLIM as int);
        lemma_tet_cross_bound(v_sub(b@, a@), v_sub(c@, a@));
        let cr = v_cross(v_sub(b@, a@), v_sub(c@, a@));
        lemma_mul_bound(cr.x, SCALE as int, 1_280_000_000_000, SCALE as int);
        lemma_mul_bound(cr.y, SCALE as int, 1_280_000_000_000, SCALE as int);
        lemma_mul_bound(cr.z, SCALE as int, 1_280_000_000_000, SCALE as int);
        assert(1_280_000_000_000int * (SCALE as int) <= 220_000_000_000int * (6 * SCALE as int))
            by (nonlinear_arith)
            requires SCALE == 1_000_000i64;
        assert(1_280_000_000_000int * (SCALE as int) >= 0) by (nonlinear_arith);
        lemma_shrink_by(cr.x * SCALE, 220_000_000_000int * (6 * SCALE as int), 6 * SCALE as int);
        lemma_shrink_by(cr.y * SCALE, 220_000_000_000int * (6 * SCALE as int), 6 * SCALE as int);
        lemma_shrink_by(cr.z * SCALE, 220_000_000_000int * (6 * SCALE as int), 6 * SCALE as int);
        lemma_mul_div_exact(220_000_000_000int, 6 * SCALE as int);
        assert(220_000_000_000int * (6 * SCALE as int) == (6 * SCALE as int)
            * 220_000_000_000int) by (nonlinear_arith);
    }
    let e1 = b.sub(a);
    let e2 = c.sub(a);
    let cr = e1.cross(e2);
    cr.div(6 * SCALE)
}

/// The signed tetrahedron volume, as computed.
pub fn tet_volume_exec(a: Vec3, b: Vec3, c: Vec3, d: Vec3) -> (r: i64)
    ensures
        r as int == vol_of(a@, b@, c@, d@),
        abs_i(r as int) <= 600_000_000_000_000,
{
    if !(in_lim(a, TLIM) && in_lim(b, TLIM) && in_lim(c, TLIM) && in_lim(d, TLIM)) {
        return 0;
    }
    proof {
        crate::vec3::lemma_sub_in_b(b@, a@, TLIM as int);
        crate::vec3::lemma_sub_in_b(c@, a@, TLIM as int);
        crate::vec3::lemma_sub_in_b(d@, a@, TLIM as int);
        lemma_tet_cross_bound(v_sub(b@, a@), v_sub(c@, a@));
        let cr = v_cross(v_sub(b@, a@), v_sub(c@, a@));
        lemma_mul_bound(cr.x, v_sub(d@, a@).x, 1_280_000_000_000, 2 * TLIM as int);
        lemma_mul_bound(cr.y, v_sub(d@, a@).y, 1_280_000_000_000, 2 * TLIM as int);
        lemma_mul_bound(cr.z, v_sub(d@, a@).z, 1_280_000_000_000, 2 * TLIM as int);
        assert(3 * (1_280_000_000_000int * (2 * TLIM as int)) <= 3_100_000_000_000_000int
            * (SCALE as int)) by (nonlinear_arith)
            requires TLIM == 400_000_000i64, SCALE == 1_000_000i64;
        assert(3 * (1_280_000_000_000int * (2 * TLIM as int)) >= 0) by (nonlinear_arith)
            requires TLIM == 400_000_000i64;
        lemma_shrink_by(
            cr.x * v_sub(d@, a@).x + cr.y * v_sub(d@, a@).y + cr.z * v_sub(d@, a@).z,
            3_100_000_000_000_000int * (SCALE as int),
            SCALE as int,
        );
        lemma_mul_div_exact(3_100_000_000_000_000int, SCALE as int);
        assert(3_100_000_000_000_000int * (SCALE as int) == (SCALE as int)
            * 3_100_000_000_000_000int) by (nonlinear_arith);
        lemma_shrink_by(v_dot(cr, v_sub(d@, a@)), 3_100_000_000_000_000int, 6);
        vstd::arithmetic::div_mod::lemma_div_nonincreasing(3_100_000_000_000_000int, 6);
    }
    let e1 = b.sub(a);
    let e2 = c.sub(a);
    let e3 = d.sub(a);
    let cr = e1.cross(e2);
    let dt = cr.dot(e3);
    proof {
        lemma_tdiv_bound(v_dot(v_cross(v_sub(b@, a@), v_sub(c@, a@)), v_sub(d@, a@)), 6);
    }
    div_i128(dt as i128, 6) as i64
}

/// The squared raw length of a solver-range vector, in a wide word.
fn len2_exec(v: Vec3) -> (r: i128)
    requires
        in_b(v@, PLIM as int),
    ensures
        r as int == v_len2(v@),
        0 <= r,
{
    proof {
        lemma_mul_bound(v@.x, v@.x, PLIM as int, PLIM as int);
        lemma_mul_bound(v@.y, v@.y, PLIM as int, PLIM as int);
        lemma_mul_bound(v@.z, v@.z, PLIM as int, PLIM as int);
        assert(v@.x * v@.x >= 0) by (nonlinear_arith);
        assert(v@.y * v@.y >= 0) by (nonlinear_arith);
        assert(v@.z * v@.z >= 0) by (nonlinear_arith);
    }
    (v.x as i128) * (v.x as i128) + (v.y as i128) * (v.y as i128) + (v.z as i128) * (v.z as i128)
}

/// Projects the volume constraints of a tetrahedron list once, in order,
/// exactly as [`solve_vols_upto`] states.
pub fn solve_volume_constraints(
    pos: &mut Vec<Vec3>,
    inv_mass: &Vec<i64>,
    tet_ids: &Vec<usize>,
    rest_volumes: &Vec<i64>,
    alphav: i128,
)
    requires
        old(pos)@.len() == inv_mass@.len(),
        tet_ids@.len() == 4 * rest_volumes@.len(),
        forall|t: int| 0 <= t < tet_ids@.len() ==> #[trigger] tet_ids@[t] < old(pos)@.len(),
        0 <= alphav <= 1_000_000_000_000_000_000_000_000_000_000_000_000,
    ensures
        final(pos)@.len() == old(pos)@.len(),
        views(final(pos)@) == solve_vols_upto(
            views(old(pos)@),
            inv_mass@,
            tet_ids@,
            rest_volumes@,
            alphav as int,
            rest_volumes@.len() as int,
        ),
{
    let ghost ps0 = views(pos@);
    let nt = rest_volumes.len();
    let total = tet_ids.len();
    let mut k: usize = 0;
    while k < nt
        invariant
            pos@.len() == old(pos)@.len(),
            pos@.len() == inv_mass@.len(),
            total == tet_ids@.len(),
            total == 4 * nt,
            nt == rest_volumes@.len(),
            forall|t: int| 0 <= t < tet_ids@.len() ==> #[trigger] tet_ids@[t] < pos@.len(),
            0 <= alphav <= 1_000_000_000_000_000_000_000_000_000_000_000_000,
            k <= nt,
            ps0 == views(old(pos)@),
            views(pos@) == solve_vols_upto(ps0, inv_mass@, tet_ids@, rest_volumes@, alphav as int,
                k as int),
        decreases nt - k,
    {
        let i0 = tet_ids[4 * k];
        let i1 = tet_ids[4 * k + 1];
        let i2 = tet_ids[4 * k + 2];
        let i3 = tet_ids[4 * k + 3];
        let rest = rest_volumes[k];
        solve_vol_tet(pos, inv_mass, i0, i1, i2, i3, rest, alphav);
        k += 1;
    }
}

/// Computes the four corrections of one volume constraint, exactly as
/// [`vol_deltas`] states.
#[verifier::rlimit(100)]
fn vol_deltas_exec(
    pos: &Vec<Vec3>,
    inv_mass: &Vec<i64>,
    i0: usize,
    i1: usize,
    i2: usize,
    i3: usize,
    rest: i64,
    alphav: i128,
) -> (res: Option<(Vec3, Vec3, Vec3, Vec3)>)
    requires
        pos@.len() == inv_mass@.len(),
        i0 < pos@.len(),
        i1 < pos@.len(),
        i2 < pos@.len(),
        i3 < pos@.len(),
        0 <= alphav <= 1_000_000_000_000_000_000_000_000_000_000_000_000,
    ensures
        ({
            let spec = vol_deltas(views(pos@), inv_mass@, i0 as int, i1 as int, i2 as int,
                i3 as int, rest as int, alphav as int);
            match res {
                Option::None => spec is None,
                Option::Some((d0, d1, d2, d3)) => spec == Option::Some((d0@, d1@, d2@, d3@))
                    && in_b(d0@, PLIM as int) && in_b(d1@, PLIM as int) && in_b(d2@, PLIM as int)
                    && in_b(d3@, PLIM as int) && in_b(views(pos@)[i0 as int], TLIM as int)
                    && in_b(views(pos@)[i1 as int], TLIM as int) && in_b(
                    views(pos@)[i2 as int],
                    TLIM as int,
                ) && in_b(views(pos@)[i3 as int], TLIM as int),
            }
        }),
{
    proof {
        reveal(vol_deltas);
        assert(views(pos@)[i0 as int] == pos@[i0 as int]@);
        assert(views(pos@)[i1 as int] == pos@[i1 as int]@);
        assert(views(pos@)[i2 as int] == pos@[i2 as int]@);
        assert(views(pos@)[i3 as int] == pos@[i3 as int]@);
    }
    let w0 = inv_mass[i0];
    let w1 = inv_mass[i1];
    let w2 = inv_mass[i2];
    let w3 = inv_mass[i3];
    let p0 = pos[i0];
    let p1 = pos[i1];
    let p2 = pos[i2];
    let p3 = pos[i3];
    if !(0 <= w0 && w0 <= MLIM && 0 <= w1 && w1 <= MLIM && 0 <= w2 && w2 <= MLIM && 0 <= w3
        && w3 <= MLIM) {
        return Option::None;
    }
    if !(in_lim(p0, TLIM) && in_lim(p1, TLIM) && in_lim(p2, TLIM) && in_lim(p3, TLIM)) {
        return Option::None;
    }
    if !(0 <= rest && rest <= RVLIM) {
        return Option::None;
    }
    let g0 = grad_exec(p1, p3, p2);
    let g1 = grad_exec(p0, p2, p3);
    let g2 = grad_exec(p0, p3, p1);
    let g3 = grad_exec(p0, p1, p2);
    proof {
        lemma_vol_w_bounds(g0@, g1@, g2@, g3@, w0 as int, w1 as int, w2 as int, w3 as int);
    }
    let l0 = len2_exec(g0);
    let l1 = len2_exec(g1);
    let l2 = len2_exec(g2);
    let l3 = len2_exec(g3);
    let w: i128 = (w0 as i128) * l0 + (w1 as i128) * l1 + (w2 as i128) * l2 + (w3 as i128) * l3;
    if w == 0 {
        return Option::None;
    }
    let vol = tet_volume_exec(p0, p1, p2, p3);
    let c = vol - rest;
    proof {
        lemma_mul_bound(-(c as int), (SCALE as int) * (SCALE as int) * (SCALE as int),
            2_000_000_000_000_000int, 1_000_000_000_000_000_000int);
        assert((SCALE as int) * (SCALE as int) * (SCALE as int) == 1_000_000_000_000_000_000)
            by (nonlinear_arith)
            requires SCALE == 1_000_000i64;
        lemma_tdiv_bound(
            -(c as int) * ((SCALE as int) * (SCALE as int) * (SCALE as int)),
            w as int + alphav as int,
        );
    }
    let s128 = div_i128(-(c as i128) * (1_000_000_000_000_000_000i128), w + alphav);
    proof {
        assert(-(c as int) * 1_000_000_000_000_000_000 == -c as int * SCALE * SCALE * SCALE)
            by (nonlinear_arith)
            requires SCALE == 1_000_000i64;
    }
    if s128 > PLIM as i128 || s128 < -(PLIM as i128) {
        return Option::None;
    }
    let s = s128 as i64;
    proof {
        lemma_corr_range(s as int, w0 as int);
        lemma_corr_range(s as int, w1 as int);
        lemma_corr_range(s as int, w2 as int);
        lemma_corr_range(s as int, w3 as int);
    }
    let c0 = crate::fixed::fx_mul(s, w0);
    let c1 = crate::fixed::fx_mul(s, w1);
    let c2 = crate::fixed::fx_mul(s, w2);
    let c3 = crate::fixed::fx_mul(s, w3);
    if c0 > PLIM || c0 < -PLIM || c1 > PLIM || c1 < -PLIM || c2 > PLIM || c2 < -PLIM || c3 > PLIM
        || c3 < -PLIM {
        return Option::None;
    }
    let d0 = g0.scale(c0);
    let d1 = g1.scale(c1);
    let d2 = g2.scale(c2);
    let d3 = g3.scale(c3);
    if !(in_lim(d0, PLIM) && in_lim(d1, PLIM) && in_lim(d2, PLIM) && in_lim(d3, PLIM)) {
        return Option::None;
    }
    Option::Some((d0, d1, d2, d3))
}

/// Projects a single volume constraint, exactly as [`solve_vol_one`]
/// states.
#[verifier::rlimit(100)]
fn solve_vol_tet(
    pos: &mut Vec<Vec3>,
    inv_mass: &Vec<i64>,
    i0: usize,
    i1: usize,
    i2: usize,
    i3: usize,
    rest: i64,
    alphav: i128,
)
    requires
        old(pos)@.len() == inv_mass@.len(),
        i0 < old(pos)@.len(),
        i1 < old(pos)@.len(),
        i2 < old(pos)@.len(),
        i3 < old(pos)@.len(),
        0 <= alphav <= 1_000_000_000_000_000_000_000_000_000_000_000_000,
    ensures
        final(pos)@.len() == old(pos)@.len(),
        views(final(pos)@) == solve_vol_one(
            views(old(pos)@),
            inv_mass@,
            i0 as int,
            i1 as int,
            i2 as int,
            i3 as int,
            rest as int,
            alphav as int,
        ),
{
    let ghost ps_in = views(pos@);
    let deltas = vol_deltas_exec(pos, inv_mass, i0, i1, i2, i3, rest, alphav);
    match deltas {
        Option::None => {},
        Option::Some((d0, d1, d2, d3)) => {
            let q0 = pos[i0];
            proof {
                assert(ps_in[i0 as int] == pos@[i0 as int]@);
            }
            pos.set(i0, q0.add(d0));
            let q1 = pos[i1];
            if in_lim(q1, PLIM) {
                pos.set(i1, q1.add(d1));
            }
            let q2 = pos[i2];
            if in_lim(q2, PLIM) {
                pos.set(i2, q2.add(d2));
            }
            let q3 = pos[i3];
            if in_lim(q3, PLIM) {
                pos.set(i3, q3.add(d3));
            }
            proof {
                assert(views(pos@) =~= solve_vol_one(
                    ps_in,
                    inv_mass@,
                    i0 as int,
                    i1 as int,
                    i2 as int,
                    i3 as int,
                    rest as int,
                    alphav as int,
                ));
            }
        },
    }
}

/// Bounds for the volume weight sum.
proof fn lemma_vol_w_bounds(g0: V3, g1: V3, g2: V3, g3: V3, w0: int, w1: int, w2: int, w3: int)
    requires
        in_b(g0, 220_000_000_000),
        in_b(g1, 220_000_000_000),
        in_b(g2, 220_000_000_000),
        in_b(g3, 220_000_000_000),
        0 <= w0 <= MLIM,
        0 <= w1 <= MLIM,
        0 <= w2 <= MLIM,
        0 <= w3 <= MLIM,
    ensures
        0 <= w0 * v_len2(g0) <= 150_000_000_000_000_000_000_000_000_000_000_000,
        0 <= w1 * v_len2(g1) <= 150_000_000_000_000_000_000_000_000_000_000_000,
        0 <= w2 * v_len2(g2) <= 150_000_000_000_000_000_000_000_000_000_000_000,
        0 <= w3 * v_len2(g3) <= 150_000_000_000_000_000_000_000_000_000_000_000,
        0 <= w0 * v_len2(g0) + w1 * v_len2(g1) + w2 * v_len2(g2) + w3 * v_len2(g3)
            <= 600_000_000_000_000_000_000_000_000_000_000_000,
{
    lemma_len2_cap(g0);
    lemma_len2_cap(g1);
    lemma_len2_cap(g2);
    lemma_len2_cap(g3);
    assert(w0 * v_len2(g0) <= 150_000_000_000_000_000_000_000_000_000_000_000
        && w0 * v_len2(g0) >= 0) by (nonlinear_arith)
        requires
            0 <= w0 <= MLIM,
            0 <= v_len2(g0) <= 150_000_000_000_000_000_000_000int,
            MLIM == 1_000_000_000_000i64,
    ;
    assert(w1 * v_len2(g1) <= 150_000_000_000_000_000_000_000_000_000_000_000
        && w1 * v_len2(g1) >= 0) by (nonlinear_arith)
        requires
            0 <= w1 <= MLIM,
            0 <= v_len2(g1) <= 150_000_000_000_000_000_000_000int,
            MLIM == 1_000_000_000_000i64,
    ;
    assert(w2 * v_len2(g2) <= 150_000_000_000_000_000_000_000_000_000_000_000
        && w2 * v_len2(g2) >= 0) by (nonlinear_arith)
        requires
            0 <= w2 <= MLIM,
            0 <= v_len2(g2) <= 150_000_000_000_000_000_000_000int,
            MLIM == 1_000_000_000_000i64,
    ;
    assert(w3 * v_len2(g3) <= 150_000_000_000_000_000_000_000_000_000_000_000
        && w3 * v_len2(g3) >= 0) by (nonlinear_arith)
        requires
            0 <= w3 <= MLIM,
            0 <= v_len2(g3) <= 150_000_000_000_000_000_000_000int,
            MLIM == 1_000_000_000_000i64,
    ;
}

/// The squared length of a gradient is below its component cap squared,
/// tripled.
proof fn lemma_len2_cap(g: V3)
    requires
        in_b(g, 220_000_000_000),
    ensures
        0 <= v_len2(g) <= 150_000_000_000_000_000_000_000,
{
    lemma_mul_bound(g.x, g.x, 220_000_000_000, 220_000_000_000);
    lemma_mul_bound(g.y, g.y, 220_000_000_000, 220_000_000_000);
    lemma_mul_bound(g.z, g.z, 220_000_000_000, 220_000_000_000);
    assert(g.x * g.x >= 0) by (nonlinear_arith);
    assert(g.y * g.y >= 0) by (nonlinear_arith);
    assert(g.z * g.z >= 0) by (nonlinear_arith);
    assert(3 * (220_000_000_000int * 220_000_000_000int) <= 150_000_000_000_000_000_000_000int)
        by (nonlinear_arith);
}

/// The correction coefficient `s * w / SCALE` stays within the machine
/// word.
proof fn lemma_corr_range(s: int, w: int)
    requires
        abs_i(s) <= PLIM as int,
        0 <= w <= MLIM,
    ensures
        i64::MIN <= fxmul(s, w) <= i64::MAX,
{
    lemma_mul_bound(s, w, PLIM as int, MLIM as int);
    assert((PLIM as int) * (MLIM as int) <= 300_000_000_000_000_000int * (SCALE as int))
        by (nonlinear_arith)
        requires PLIM == 300_000_000_000i64, MLIM == 1_000_000_000_000i64, SCALE == 1_000_000i64;
    assert((PLIM as int) * (MLIM as int) >= 0) by (nonlinear_arith)
        requires PLIM == 300_000_000_000i64, MLIM == 1_000_000_000_000i64;
    lemma_shrink_by(s * w, 300_000_000_000_000_000int * (SCALE as int), SCALE as int);
    lemma_mul_div_exact(300_000_000_000_000_000int, SCALE as int);
    assert(300_000_000_000_000_000int * (SCALE as int) == (SCALE as int)
        * 300_000_000_000_000_000int) by (nonlinear_arith);
}

/// A soft tetrahedral body: the particle buffers, the tetrahedron and
/// unique-edge topology with their rest values, the two compliances, and
/// the grab state.
pub struct SoftBody {
    /// Current particle positions.
    pub positions: Vec<Vec3>,
    /// Positions at the start of the current sub-step.
    pub prev_positions: Vec<Vec3>,
    /// Particle velocities.
    pub velocities: Vec<Vec3>,
    /// Per-particle inverse masses; zero pins a particle.
    pub inv_mass: Vec<i64>,
    /// Tetrahedron index quadruples.
    pub tet_ids: Vec<usize>,
    /// Unique edge index pairs.
    pub edge_ids: Vec<usize>,
    /// Rest volume of each tetrahedron.
    pub rest_volumes: Vec<i64>,
    /// Rest length of each edge.
    pub edge_lengths: Vec<i64>,
    /// Compliance of the edge constraints.
    pub edge_compliance: i64,
    /// Compliance of the volume constraints.
    pub volume_compliance: i64,
    /// Vertices of the render skin that follows the body.
    pub visual_vertices: Vec<Vec3>,
    /// Triangle index triples of the render skin.
    pub visual_indices: Vec<usize>,
    /// The skin table binding each visual vertex to a tetrahedron.
    pub skin: Vec<crate::skinning::SkinWeight>,
    /// The grabbed particle, while one is held.
    pub grab_id: Option<usize>,
    /// The grabbed particle's inverse mass, saved for release.
    pub grab_inv_mass: i64,
    /// Centre of the enclosing sphere used for picking.
    pub center: Vec3,
    /// Radius of the enclosing sphere used for picking.
    pub radius: i64,
}

impl SoftBody {
    /// The structural invariant: buffers of one common particle count,
    /// topology indices inside it, in-range inverse masses and
    /// compliances, and a valid grab index while one is held.
    pub open spec fn wf(self) -> bool {
        &&& self.wf_core()
        &&& self.tet_ids@.len() == 4 * self.rest_volumes@.len()
        &&& self.edge_ids@.len() == 2 * self.edge_lengths@.len()
    }

    /// The invariant's buffer part, which holds already before the rest
    /// values are computed.
    pub open spec fn wf_core(self) -> bool {
        &&& self.positions@.len() == self.prev_positions@.len()
        &&& self.positions@.len() == self.velocities@.len()
        &&& self.positions@.len() == self.inv_mass@.len()
        &&& self.tet_ids@.len() % 4 == 0
        &&& self.edge_ids@.len() % 2 == 0
        &&& self.visual_indices@.len() % 3 == 0
        &&& self.skin@.len() == self.visual_vertices@.len()
        &&& forall|t: int|
            0 <= t < self.visual_indices@.len() ==> #[trigger] self.visual_indices@[t]
                < self.visual_vertices@.len()
        &&& forall|t: int|
            0 <= t < self.tet_ids@.len() ==> #[trigger] self.tet_ids@[t] < self.positions@.len()
        &&& forall|e: int|
            0 <= e < self.edge_ids@.len() ==> #[trigger] self.edge_ids@[e] < self.positions@.len()
        &&& forall|j: int|
            0 <= j < self.inv_mass@.len() ==> 0 <= #[trigger] self.inv_mass@[j] <= MLIM
        &&& 0 <= self.edge_compliance <= PLIM
        &&& 0 <= self.volume_compliance <= PLIM
        &&& match self.grab_id {
            Option::Some(i) => i < self.positions@.len(),
            Option::None => true,
        }
    }

    /// Builds a soft body from a tetrahedral mesh: simulation particle
    /// positions, tetrahedron quadruples, the precomputed unique edge
    /// pairs, the render skin (vertices and triangle triples) that follows
    /// the body, and the two compliances. Rest volumes, inverse masses,
    /// rest lengths and the skin's barycentric table are computed from the
    /// rest geometry. Construction succeeds exactly when the index lists
    /// are whole, every index is in range and both compliances are within
    /// the solver's range.
    pub fn new(
        tet_vertices: Vec<Vec3>,
        tet_indices: Vec<usize>,
        tet_edge_ids: Vec<usize>,
        vertices: Vec<Vec3>,
        indices: Vec<usize>,
        edge_compliance: i64,
        volume_compliance: i64,
    ) -> (res: Option<SoftBody>)
        ensures
            res is Some <==> tet_mesh_valid(
                tet_vertices@.len() as int,
                tet_indices@,
                tet_edge_ids@,
                vertices@.len() as int,
                indices@,
                edge_compliance,
                volume_compliance,
            ),
            match res {
                Option::Some(sb) => {
                    &&& sb.wf()
                    &&& sb.positions@ == tet_vertices@
                    &&& sb.prev_positions@ == tet_vertices@
                    &&& sb.tet_ids@ == tet_indices@
                    &&& sb.edge_ids@ == tet_edge_ids@
                    &&& sb.visual_vertices@ == vertices@
                    &&& sb.visual_indices@ == indices@
                    &&& sb.skin@.len() == vertices@.len()
                    &&& forall|i: int|
                        0 <= i < sb.skin@.len() && #[trigger] sb.skin@[i].tet != usize::MAX ==> 4
                            * (sb.skin@[i].tet as int) + 3 < tet_indices@.len() && (sb.skin@[i].b0,
                        sb.skin@[i].b1, sb.skin@[i].b2) == crate::skinning::cand_weights(
                            views(tet_vertices@),
                            tet_indices@,
                            sb.skin@[i].tet as int,
                            views(vertices@)[i],
                        )
                    &&& sb.edge_compliance == edge_compliance
                    &&& sb.volume_compliance == volume_compliance
                    &&& sb.grab_id is None
                    &&& sb.velocities@.len() == tet_vertices@.len()
                    &&& forall|j: int|
                        0 <= j < sb.velocities@.len() ==> #[trigger] sb.velocities@[j]@ == (V3 {
                            x: 0,
                            y: 0,
                            z: 0,
                        })
                    &&& sb.inv_mass@ == masses_upto(
                        views(tet_vertices@),
                        tet_indices@,
                        Seq::new(tet_vertices@.len(), |j: int| 0i64),
                        tet_indices@.len() as int / 4,
                    )
                    &&& forall|k: int|
                        0 <= k < sb.rest_volumes@.len() ==> #[trigger] sb.rest_volumes@[k] as int
                            == tet_volume(
                            views(tet_vertices@),
                            tet_indices@[4 * k] as int,
                            tet_indices@[4 * k + 1] as int,
                            tet_indices@[4 * k + 2] as int,
                            tet_indices@[4 * k + 3] as int,
                        )
                    &&& forall|e: int|
                        0 <= e < sb.edge_lengths@.len() ==> #[trigger] sb.edge_lengths@[e] as int
                            == edge_rest(
                            views(tet_vertices@),
                            tet_edge_ids@[2 * e] as int,
                            tet_edge_ids@[2 * e + 1] as int,
                        )
                },
                Option::None => true,
            },
    {
        let n = tet_vertices.len();
        let n_vis = vertices.len();
        if tet_indices.len() % 4 != 0 || tet_edge_ids.len() % 2 != 0 || indices.len() % 3 != 0 {
            return Option::None;
        }
        if !(0 <= edge_compliance && edge_compliance <= PLIM && 0 <= volume_compliance
            && volume_compliance <= PLIM) {
            return Option::None;
        }
        let mut vi: usize = 0;
        while vi < indices.len()
            invariant
                vi <= indices@.len(),
                n_vis == vertices@.len(),
                forall|j: int| 0 <= j < vi ==> #[trigger] indices@[j] < n_vis,
            decreases indices@.len() - vi,
        {
            if indices[vi] >= n_vis {
                proof {
                    assert(!tet_mesh_valid(n as int, tet_indices@, tet_edge_ids@, n_vis as int,
                        indices@, edge_compliance, volume_compliance)) by {
                        assert(indices@[vi as int] >= n_vis);
                    }
                }
                return Option::None;
            }
            vi += 1;
        }
        let mut t: usize = 0;
        while t < tet_indices.len()
            invariant
                t <= tet_indices@.len(),
                n == tet_vertices@.len(),
                forall|j: int| 0 <= j < t ==> #[trigger] tet_indices@[j] < n,
            decreases tet_indices@.len() - t,
        {
            if tet_indices[t] >= n {
                proof {
                    assert(!tet_mesh_valid(n as int, tet_indices@, tet_edge_ids@, n_vis as int,
                        indices@, edge_compliance, volume_compliance)) by {
                        assert(tet_indices@[t as int] >= n);
                    }
                }
                return Option::None;
            }
            t += 1;
        }
        let mut e: usize = 0;
        while e < tet_edge_ids.len()
            invariant
                e <= tet_edge_ids@.len(),
                n == tet_vertices@.len(),
                forall|j: int| 0 <= j < e ==> #[trigger] tet_edge_ids@[j] < n,
            decreases tet_edge_ids@.len() - e,
        {
            if tet_edge_ids[e] >= n {
                proof {
                    assert(!tet_mesh_valid(n as int, tet_indices@, tet_edge_ids@, n_vis as int,
                        indices@, edge_compliance, volume_compliance)) by {
                        assert(tet_edge_ids@[e as int] >= n);
                    }
                }
                return Option::None;
            }
            e += 1;
        }
        let mut velocities: Vec<Vec3> = Vec::new();
        let mut inv_mass: Vec<i64> = Vec::new();
        let mut j: usize = 0;
        while j < n
            invariant
                j <= n,
                velocities@.len() == j,
                inv_mass@.len() == j,
                forall|k: int|
                    0 <= k < j ==> #[trigger] velocities@[k]@ == (V3 { x: 0, y: 0, z: 0 }),
                forall|k: int| 0 <= k < j ==> #[trigger] inv_mass@[k] == 0i64,
            decreases n - j,
        {
            velocities.push(Vec3 { x: 0, y: 0, z: 0 });
            inv_mass.push(0);
            j += 1;
        }
        proof {
            assert(inv_mass@ =~= Seq::new(tet_vertices@.len(), |j: int| 0i64));
        }
        let prev_positions = clone_buffer(&tet_vertices);
        let skin = crate::skinning::compute_skinning_info(&vertices, &tet_vertices, &tet_indices);
        let mut sb = SoftBody {
            positions: tet_vertices,
            prev_positions,
            velocities,
            inv_mass,
            tet_ids: tet_indices,
            edge_ids: tet_edge_ids,
            rest_volumes: Vec::new(),
            edge_lengths: Vec::new(),
            edge_compliance,
            volume_compliance,
            visual_vertices: vertices,
            visual_indices: indices,
            skin,
            grab_id: Option::None,
            grab_inv_mass: 0,
            center: Vec3 { x: 0, y: 0, z: 0 },
            radius: 0,
        };
        sb.init_physics();
        Option::Some(sb)
    }

    /// The current signed volume of tetrahedron `nr`.
    pub fn get_tet_volume(&self, nr: usize) -> (r: i64)
        requires
            self.wf(),
            nr < self.rest_volumes@.len(),
        ensures
            r as int == tet_volume(
                views(self.positions@),
                self.tet_ids@[4 * nr] as int,
                self.tet_ids@[4 * nr + 1] as int,
                self.tet_ids@[4 * nr + 2] as int,
                self.tet_ids@[4 * nr + 3] as int,
            ),
    {
        let tot = self.tet_ids.len();
        proof {
            assert(4 * (nr as int) + 3 < self.tet_ids@.len());
        }
        let i0 = self.tet_ids[4 * nr];
        let i1 = self.tet_ids[4 * nr + 1];
        let i2 = self.tet_ids[4 * nr + 2];
        let i3 = self.tet_ids[4 * nr + 3];
        proof {
            assert(views(self.positions@)[i0 as int] == self.positions@[i0 as int]@);
            assert(views(self.positions@)[i1 as int] == self.positions@[i1 as int]@);
            assert(views(self.positions@)[i2 as int] == self.positions@[i2 as int]@);
            assert(views(self.positions@)[i3 as int] == self.positions@[i3 as int]@);
        }
        tet_volume_exec(self.positions[i0], self.positions[i1], self.positions[i2],
            self.positions[i3])
    }

    /// Recomputes rest volumes, volume-weighted inverse masses (added onto
    /// the current ones, saturating at the cap) and rest edge lengths from
    /// the current positions.
    #[verifier::rlimit(60)]
    pub fn init_physics(&mut self)
        requires
            old(self).wf_core(),
        ensures
            final(self).wf(),
            final(self).positions == old(self).positions,
            final(self).prev_positions == old(self).prev_positions,
            final(self).velocities == old(self).velocities,
            final(self).tet_ids == old(self).tet_ids,
            final(self).edge_ids == old(self).edge_ids,
            final(self).edge_compliance == old(self).edge_compliance,
            final(self).volume_compliance == old(self).volume_compliance,
            final(self).visual_vertices == old(self).visual_vertices,
            final(self).visual_indices == old(self).visual_indices,
            final(self).skin == old(self).skin,
            final(self).grab_id == old(self).grab_id,
            final(self).grab_inv_mass == old(self).grab_inv_mass,
            final(self).inv_mass@ == masses_upto(
                views(old(self).positions@),
                old(self).tet_ids@,
                old(self).inv_mass@,
                old(self).tet_ids@.len() as int / 4,
            ),
            final(self).rest_volumes@.len() == old(self).tet_ids@.len() / 4,
            forall|k: int|
                0 <= k < final(self).rest_volumes@.len() ==> #[trigger] final(self).rest_volumes@[k] as int == tet_volume(
                    views(old(self).positions@),
                    old(self).tet_ids@[4 * k] as int,
                    old(self).tet_ids@[4 * k + 1] as int,
                    old(self).tet_ids@[4 * k + 2] as int,
                    old(self).tet_ids@[4 * k + 3] as int,
                ),
            final(self).edge_lengths@.len() == old(self).edge_ids@.len() / 2,
            forall|e: int|
                0 <= e < final(self).edge_lengths@.len() ==> #[trigger] final(self).edge_lengths@[e] as int == edge_rest(
                    views(old(self).positions@),
                    old(self).edge_ids@[2 * e] as int,
                    old(self).edge_ids@[2 * e + 1] as int,
                ),
    {
        let ghost ps = views(self.positions@);
        let ghost tets = self.tet_ids@;
        let ghost ws0 = self.inv_mass@;
        let tot_t = self.tet_ids.len();
        let nt = tot_t / 4;
        proof {
            vstd::arithmetic::div_mod::lemma_fundamental_div_mod(self.tet_ids@.len() as int, 4);
        }
        let mut rest_volumes: Vec<i64> = Vec::new();
        let mut k: usize = 0;
        while k < nt
            invariant
                self.wf_core(),
                self.positions == old(self).positions,
                self.prev_positions == old(self).prev_positions,
                self.velocities == old(self).velocities,
                self.tet_ids == old(self).tet_ids,
                self.edge_ids == old(self).edge_ids,
                self.rest_volumes == old(self).rest_volumes,
                self.edge_lengths == old(self).edge_lengths,
                self.edge_compliance == old(self).edge_compliance,
                self.volume_compliance == old(self).volume_compliance,
                self.visual_vertices == old(self).visual_vertices,
                self.visual_indices == old(self).visual_indices,
                self.skin == old(self).skin,
                self.grab_id == old(self).grab_id,
                self.grab_inv_mass == old(self).grab_inv_mass,
                ps == views(self.positions@),
                tets == self.tet_ids@,
                ws0.len() == self.inv_mass@.len(),
                nt == self.tet_ids@.len() / 4,
                4 * nt <= self.tet_ids@.len(),
                self.tet_ids@.len() <= usize::MAX,
                k <= nt,
                rest_volumes@.len() == k,
                forall|j: int|
                    0 <= j < k ==> #[trigger] rest_volumes@[j] as int == tet_volume(
                        ps,
                        tets[4 * j] as int,
                        tets[4 * j + 1] as int,
                        tets[4 * j + 2] as int,
                        tets[4 * j + 3] as int,
                    ),
                self.inv_mass@ == masses_upto(ps, tets, ws0, k as int),
                forall|j: int| 0 <= j < ws0.len() ==> 0 <= #[trigger] ws0[j] <= MLIM,
            decreases nt - k,
        {
            proof {
                assert(4 * (k as int) + 3 < self.tet_ids@.len());
                lemma_masses_monotone(ps, tets, ws0, k as int);
            }
            let i0 = self.tet_ids[4 * k];
            let i1 = self.tet_ids[4 * k + 1];
            let i2 = self.tet_ids[4 * k + 2];
            let i3 = self.tet_ids[4 * k + 3];
            proof {
                assert(ps[i0 as int] == self.positions@[i0 as int]@);
                assert(ps[i1 as int] == self.positions@[i1 as int]@);
                assert(ps[i2 as int] == self.positions@[i2 as int]@);
                assert(ps[i3 as int] == self.positions@[i3 as int]@);
            }
            let vol = tet_volume_exec(
                self.positions[i0],
                self.positions[i1],
                self.positions[i2],
                self.positions[i3],
            );
            rest_volumes.push(vol);
            let p: i64 = if vol > 0 {
                let quarter = div_i128(vol as i128, 4) as i64;
                if quarter > 0 {
                    proof {
                        lemma_quarter_inv_range(vol as int);
                        crate::fixed::lemma_tdiv_bound((SCALE as int) * SCALE, quarter as int);
                        lemma_mul_bound(SCALE as int, SCALE as int, SCALE as int, SCALE as int);
                    }
                    crate::fixed::fx_div(SCALE, quarter)
                } else {
                    0
                }
            } else {
                0
            };
            proof {
                assert(p as int == quarter_inv(tet_volume(ps, i0 as int, i1 as int, i2 as int,
                    i3 as int)));
                lemma_quarter_inv_range(tet_volume(ps, i0 as int, i1 as int, i2 as int,
                    i3 as int));
            }
            let w0 = self.inv_mass[i0];
            let nw0 = if w0 + p > MLIM {
                MLIM
            } else {
                w0 + p
            };
            self.inv_mass.set(i0, nw0);
            let w1 = self.inv_mass[i1];
            let nw1 = if w1 + p > MLIM {
                MLIM
            } else {
                w1 + p
            };
            self.inv_mass.set(i1, nw1);
            let w2 = self.inv_mass[i2];
            let nw2 = if w2 + p > MLIM {
                MLIM
            } else {
                w2 + p
            };
            self.inv_mass.set(i2, nw2);
            let w3 = self.inv_mass[i3];
            let nw3 = if w3 + p > MLIM {
                MLIM
            } else {
                w3 + p
            };
            self.inv_mass.set(i3, nw3);
            k += 1;
            proof {
                assert(self.inv_mass@ =~= masses_upto(ps, tets, ws0, k as int));
                lemma_masses_monotone(ps, tets, ws0, k as int);
            }
        }
        self.rest_volumes = rest_volumes;

        let tot_e = self.edge_ids.len();
        let ne = tot_e / 2;
        proof {
            vstd::arithmetic::div_mod::lemma_fundamental_div_mod(self.edge_ids@.len() as int, 2);
        }
        let mut edge_lengths: Vec<i64> = Vec::new();
        let mut e: usize = 0;
        while e < ne
            invariant
                self.positions@.len() == self.inv_mass@.len(),
                self.edge_ids == old(self).edge_ids,
                ps == views(self.positions@),
                ne == self.edge_ids@.len() / 2,
                2 * ne <= self.edge_ids@.len(),
                self.edge_ids@.len() <= usize::MAX,
                forall|t: int|
                    0 <= t < self.edge_ids@.len() ==> #[trigger] self.edge_ids@[t]
                        < self.positions@.len(),
                e <= ne,
                edge_lengths@.len() == e,
                forall|j: int|
                    0 <= j < e ==> #[trigger] edge_lengths@[j] as int == edge_rest(
                        ps,
                        self.edge_ids@[2 * j] as int,
                        self.edge_ids@[2 * j + 1] as int,
                    ),
            decreases ne - e,
        {
            proof {
                assert(2 * (e as int) + 1 < self.edge_ids@.len());
            }
            let i0 = self.edge_ids[2 * e];
            let i1 = self.edge_ids[2 * e + 1];
            let p0 = self.positions[i0];
            let p1 = self.positions[i1];
            proof {
                assert(ps[i0 as int] == self.positions@[i0 as int]@);
                assert(ps[i1 as int] == self.positions@[i1 as int]@);
            }
            let len: i64 = if in_lim(p0, PLIM) && in_lim(p1, PLIM) {
                p0.dist(p1)
            } else {
                0
            };
            edge_lengths.push(len);
            e += 1;
        }
        self.edge_lengths = edge_lengths;
    }

    /// Integrates every free particle of the body for one sub-step. A
    /// degenerate time step short-circuits the whole step as a no-op.
    pub fn pre_solve(&mut self, dt: i64, gravity: Vec3)
        requires
            old(self).wf(),
        ensures
            final(self).wf(),
            same_topology(*old(self), *final(self)),
            final(self).positions@.len() == old(self).positions@.len(),
            dt <= 0 || dt > SCALE ==> final(self).positions == old(self).positions
                && final(self).prev_positions == old(self).prev_positions
                && final(self).velocities == old(self).velocities,
            1 <= dt <= SCALE ==> forall|i: int|
                0 <= i < old(self).positions@.len() ==> {
                    let r = #[trigger] pre_step(
                        old(self).positions@[i]@,
                        old(self).prev_positions@[i]@,
                        old(self).velocities@[i]@,
                        old(self).inv_mass@[i] as int,
                        gravity@,
                        dt as int,
                    );
                    final(self).positions@[i]@ == r.0 && final(self).prev_positions@[i]@ == r.1
                        && final(self).velocities@[i]@ == r.2
                },
    {
        if dt <= 0 || dt > SCALE {
            return ;
        }
        pre_solve_step(
            &mut self.positions,
            &mut self.prev_positions,
            &mut self.velocities,
            &self.inv_mass,
            gravity,
            dt,
        );
    }

    /// Projects the edge constraints, then the volume constraints, once.
    /// A degenerate time step is a no-op.
    pub fn solve(&mut self, dt: i64)
        requires
            old(self).wf(),
        ensures
            final(self).wf(),
            same_topology(*old(self), *final(self)),
            final(self).prev_positions == old(self).prev_positions,
            final(self).velocities == old(self).velocities,
            dt <= 0 || dt > SCALE ==> final(self).positions == old(self).positions,
            1 <= dt <= SCALE ==> views(final(self).positions@) == solve_vols_upto(
                solve_dist_upto(
                    views(old(self).positions@),
                    old(self).inv_mass@,
                    old(self).edge_ids@,
                    old(self).edge_lengths@,
                    alpha_edge(old(self).edge_compliance as int, dt as int),
                    old(self).edge_lengths@.len() as int,
                ),
                old(self).inv_mass@,
                old(self).tet_ids@,
                old(self).rest_volumes@,
                alpha_vol(old(self).volume_compliance as int, dt as int),
                old(self).rest_volumes@.len() as int,
            ),
    {
        if dt <= 0 || dt > SCALE {
            return ;
        }
        proof {
            lemma_alpha_bounds(self.edge_compliance as int, self.volume_compliance as int,
                dt as int);
        }
        let ae: i128 = div_i128(
            (self.edge_compliance as i128) * (SCALE as i128) * (SCALE as i128),
            (dt as i128) * (dt as i128),
        );
        let av: i128 = div_i128(
            (self.volume_compliance as i128) * (1_000_000_000_000_000_000_000_000i128),
            (dt as i128) * (dt as i128),
        );
        solve_distance_constraints(
            &mut self.positions,
            &self.inv_mass,
            &self.edge_ids,
            &self.edge_lengths,
            ae,
        );
        solve_volume_constraints(
            &mut self.positions,
            &self.inv_mass,
            &self.tet_ids,
            &self.rest_volumes,
            av,
        );
    }

    /// Recovers every free particle's velocity from its sub-step delta.
    /// A degenerate time step is a no-op.
    pub fn post_solve(&mut self, dt: i64)
        requires
            old(self).wf(),
        ensures
            final(self).wf(),
            same_topology(*old(self), *final(self)),
            final(self).positions == old(self).positions,
            final(self).prev_positions == old(self).prev_positions,
            dt <= 0 || dt > SCALE ==> final(self).velocities == old(self).velocities,
            1 <= dt <= SCALE ==> forall|i: int|
                0 <= i < old(self).positions@.len() ==> final(self).velocities@[i]@
                    == #[trigger] post_step(
                    old(self).positions@[i]@,
                    old(self).prev_positions@[i]@,
                    old(self).velocities@[i]@,
                    old(self).inv_mass@[i] as int,
                    dt as int,
                ),
    {
        if dt <= 0 || dt > SCALE {
            return ;
        }
        post_solve_step(
            &self.positions,
            &self.prev_positions,
            &mut self.velocities,
            &self.inv_mass,
            dt,
        );
    }
}

/// The squared pick distance of one particle, or practically infinite
/// when it sits outside the solver's range.
pub open spec fn cand_of(a: V3, p: V3) -> int {
    if in_b(a, PLIM as int) && in_b(p, PLIM as int) {
        v_len2(v_sub(p, a))
    } else {
        0x7fffffffffffffffffffffffffffffff
    }
}

/// The index and squared distance of the particle nearest to `p` among
/// the first `k`, earlier particles winning ties.
pub open spec fn nearest_pair(ps: Seq<V3>, p: V3, k: int) -> (int, int)
    decreases k,
{
    if k <= 1 {
        (0, cand_of(ps[0], p))
    } else {
        let prev = nearest_pair(ps, p, k - 1);
        let d = cand_of(ps[k - 1], p);
        if d < prev.1 {
            (k - 1, d)
        } else {
            prev
        }
    }
}

/// The nearest index stays in range.
pub proof fn lemma_nearest_in_range(ps: Seq<V3>, p: V3, k: int)
    requires
        k >= 1,
    ensures
        0 <= nearest_pair(ps, p, k).0 < k,
    decreases k,
{
    if k > 1 {
        lemma_nearest_in_range(ps, p, k - 1);
    }
}

/// The relation between a soft body before and after a grab starts at
/// pick point `p`: the nearest particle's inverse mass is saved and
/// zeroed and its position snaps to `p`; everything else is untouched.
pub open spec fn started_grab(pre: SoftBody, post: SoftBody, p: Vec3) -> bool {
    &&& post.wf()
    &&& post.prev_positions == pre.prev_positions
    &&& post.velocities == pre.velocities
    &&& post.tet_ids == pre.tet_ids
    &&& post.edge_ids == pre.edge_ids
    &&& post.rest_volumes == pre.rest_volumes
    &&& post.edge_lengths == pre.edge_lengths
    &&& post.visual_vertices == pre.visual_vertices
    &&& post.visual_indices == pre.visual_indices
    &&& post.skin == pre.skin
    &&& (pre.positions@.len() == 0 ==> post.grab_id is None && post.positions == pre.positions
        && post.inv_mass == pre.inv_mass)
    &&& (pre.positions@.len() > 0 ==> {
        let i = nearest_pair(views(pre.positions@), p@, pre.positions@.len() as int).0;
        &&& post.grab_id == Option::Some(i as usize)
        &&& post.grab_inv_mass == pre.inv_mass@[i]
        &&& post.inv_mass@ == pre.inv_mass@.update(i, 0i64)
        &&& post.positions@ == pre.positions@.update(i, p)
    })
}

/// The relation between a soft body before and after its grabbed
/// particle moves to `p`.
pub open spec fn moved_grab(pre: SoftBody, post: SoftBody, p: Vec3) -> bool {
    &&& post.wf()
    &&& post.prev_positions == pre.prev_positions
    &&& post.velocities == pre.velocities
    &&& post.inv_mass == pre.inv_mass
    &&& post.grab_id == pre.grab_id
    &&& post.grab_inv_mass == pre.grab_inv_mass
    &&& post.tet_ids == pre.tet_ids
    &&& post.edge_ids == pre.edge_ids
    &&& post.rest_volumes == pre.rest_volumes
    &&& post.edge_lengths == pre.edge_lengths
    &&& post.visual_vertices == pre.visual_vertices
    &&& post.visual_indices == pre.visual_indices
    &&& post.skin == pre.skin
    &&& match pre.grab_id {
        Option::Some(i) => post.positions@ == pre.positions@.update(i as int, p),
        Option::None => post.positions == pre.positions,
    }
}

/// The relation between a soft body before and after a grab release with
/// drag velocity `v`: the saved inverse mass returns and the particle
/// takes the drag velocity.
pub open spec fn ended_grab(pre: SoftBody, post: SoftBody, v: Vec3) -> bool {
    &&& post.wf()
    &&& post.positions == pre.positions
    &&& post.prev_positions == pre.prev_positions
    &&& post.tet_ids == pre.tet_ids
    &&& post.edge_ids == pre.edge_ids
    &&& post.rest_volumes == pre.rest_volumes
    &&& post.edge_lengths == pre.edge_lengths
    &&& post.visual_vertices == pre.visual_vertices
    &&& post.visual_indices == pre.visual_indices
    &&& post.skin == pre.skin
    &&& post.grab_id is None
    &&& post.grab_inv_mass == pre.grab_inv_mass
    &&& match pre.grab_id {
        Option::Some(i) => {
            &&& post.inv_mass@ == pre.inv_mass@.update(i as int, clamp_mass(pre.grab_inv_mass))
            &&& post.velocities@ == pre.velocities@.update(i as int, v)
        },
        Option::None => post.inv_mass == pre.inv_mass && post.velocities == pre.velocities,
    }
}

/// An inverse mass forced back into the solver's range.
pub open spec fn clamp_mass(w: i64) -> i64 {
    if w < 0 {
        0i64
    } else if w > MLIM {
        MLIM
    } else {
        w
    }
}

impl SoftBody {
    /// Starts a grab at the picked point `p`: the nearest particle is
    /// found by scanning every particle's squared distance, its inverse
    /// mass is saved and zeroed (pinning it to the pointer), and its
    /// position snaps to the pick point.
    pub fn start_grab(&mut self, p: Vec3)
        requires
            old(self).wf(),
        ensures
            final(self).wf(),
            final(self).prev_positions == old(self).prev_positions,
            final(self).velocities == old(self).velocities,
            final(self).tet_ids == old(self).tet_ids,
            final(self).edge_ids == old(self).edge_ids,
            final(self).rest_volumes == old(self).rest_volumes,
            final(self).edge_lengths == old(self).edge_lengths,
            old(self).positions@.len() == 0 ==> final(self).grab_id is None
                && final(self).positions == old(self).positions
                && final(self).inv_mass == old(self).inv_mass,
            old(self).positions@.len() > 0 ==> {
                let i = nearest_pair(views(old(self).positions@), p@,
                    old(self).positions@.len() as int).0;
                &&& final(self).grab_id == Option::Some(i as usize)
                &&& final(self).grab_inv_mass == old(self).inv_mass@[i]
                &&& final(self).inv_mass@ == old(self).inv_mass@.update(i, 0i64)
                &&& final(self).positions@ == old(self).positions@.update(i, p)
            },
            started_grab(*old(self), *final(self), p),
    {
        let n = self.positions.len();
        self.grab_id = Option::None;
        if n == 0 {
            return ;
        }
        let ghost ps = views(self.positions@);
        let mut best: usize = 0;
        let mut best_d: i128 = cand_pick(self.positions[0], p);
        proof {
            assert(ps[0] == self.positions@[0]@);
        }
        let mut k: usize = 1;
        while k < n
            invariant
                n == self.positions@.len(),
                ps == views(self.positions@),
                1 <= k <= n,
                best < k,
                (best as int, best_d as int) == nearest_pair(ps, p@, k as int),
            decreases n - k,
        {
            proof {
                assert(ps[k as int] == self.positions@[k as int]@);
            }
            let d = cand_pick(self.positions[k], p);
            if d < best_d {
                best = k;
                best_d = d;
            }
            k += 1;
        }
        self.grab_inv_mass = self.inv_mass[best];
        self.inv_mass.set(best, 0);
        self.positions.set(best, p);
        self.grab_id = Option::Some(best);
    }

    /// Moves the grabbed particle to the new pick point.
    pub fn move_grabbed(&mut self, p: Vec3, _vel: Vec3)
        requires
            old(self).wf(),
        ensures
            final(self).wf(),
            final(self).prev_positions == old(self).prev_positions,
            final(self).velocities == old(self).velocities,
            final(self).inv_mass == old(self).inv_mass,
            final(self).tet_ids == old(self).tet_ids,
            final(self).edge_ids == old(self).edge_ids,
            final(self).rest_volumes == old(self).rest_volumes,
            final(self).edge_lengths == old(self).edge_lengths,
            final(self).grab_id == old(self).grab_id,
            final(self).grab_inv_mass == old(self).grab_inv_mass,
            match old(self).grab_id {
                Option::Some(i) => final(self).positions@ == old(self).positions@.update(
                    i as int,
                    p,
                ),
                Option::None => final(self).positions == old(self).positions,
            },
            moved_grab(*old(self), *final(self), p),
    {
        match self.grab_id {
            Option::Some(i) => {
                self.positions.set(i, p);
            },
            Option::None => {},
        }
    }

    /// Releases the grab: the saved inverse mass is restored exactly, so
    /// the particle resumes constraint solving, and the final drag
    /// velocity is handed to it.
    pub fn end_grab(&mut self, _p: Vec3, vel: Vec3)
        requires
            old(self).wf(),
        ensures
            final(self).wf(),
            final(self).positions == old(self).positions,
            final(self).prev_positions == old(self).prev_positions,
            final(self).tet_ids == old(self).tet_ids,
            final(self).edge_ids == old(self).edge_ids,
            final(self).rest_volumes == old(self).rest_volumes,
            final(self).edge_lengths == old(self).edge_lengths,
            final(self).grab_id is None,
            final(self).grab_inv_mass == old(self).grab_inv_mass,
            match old(self).grab_id {
                Option::Some(i) => {
                    &&& final(self).inv_mass@ == old(self).inv_mass@.update(
                        i as int,
                        clamp_mass(old(self).grab_inv_mass),
                    )
                    &&& final(self).velocities@ == old(self).velocities@.update(i as int, vel)
                },
                Option::None => final(self).inv_mass == old(self).inv_mass
                    && final(self).velocities == old(self).velocities,
            },
            ended_grab(*old(self), *final(self), vel),
    {
        match self.grab_id {
            Option::Some(i) => {
                let restored = if self.grab_inv_mass < 0 {
                    0
                } else if self.grab_inv_mass > MLIM {
                    MLIM
                } else {
                    self.grab_inv_mass
                };
                self.inv_mass.set(i, restored);
                self.velocities.set(i, vel);
            },
            Option::None => {},
        }
        self.grab_id = Option::None;
    }

    /// Recomputes the enclosing sphere used for picking: the centre is
    /// the mean position and the radius the largest distance from it.
    pub fn recompute_bounds(&mut self)
        requires
            old(self).wf(),
        ensures
            final(self).wf(),
            final(self).positions == old(self).positions,
            final(self).prev_positions == old(self).prev_positions,
            final(self).velocities == old(self).velocities,
            final(self).visual_vertices == old(self).visual_vertices,
            same_topology(*old(self), *final(self)),
            old(self).positions@.len() > 0 ==> (final(self).center, final(self).radius)
                == bounds_of(views(old(self).positions@)),
    {
        if self.positions.len() == 0 {
            return ;
        }
        let (c, r) = bounding_sphere(&self.positions);
        self.center = c;
        self.radius = r;
    }

    /// The pick distance along a ray: the enclosing sphere is tested
    /// first, then every triangle of the render skin — or, when no skin
    /// exists, the triples of the tetrahedron list — and the nearest hit
    /// wins.
    pub fn intersect(&self, ray: crate::intersect::Ray) -> (res: Option<i64>)
        requires
            self.wf(),
        ensures
            ({
                let sphere = crate::intersect::ray_sphere(ray.origin@, ray.direction@,
                    self.center@, self.radius as int);
                let spec = body_pick(*self, ray.origin@, ray.direction@);
                match res {
                    Option::Some(t) => spec == Option::Some(t as int),
                    Option::None => spec is None,
                }
            }),
    {
        match crate::intersect::ray_sphere_intersect(ray, self.center, self.radius) {
            Option::Some(_) => {
                if self.visual_indices.len() > 0 {
                    crate::intersect::ray_mesh_intersect(
                        ray,
                        &self.visual_vertices,
                        &self.visual_indices,
                    )
                } else {
                    crate::intersect::ray_mesh_intersect(ray, &self.positions, &self.tet_ids)
                }
            },
            Option::None => Option::None,
        }
    }

    /// Recomputes every skin vertex from the current particle positions
    /// through the barycentric table.
    pub fn update_visual(&mut self)
        requires
            old(self).wf(),
        ensures
            final(self).wf(),
            final(self).positions == old(self).positions,
            final(self).prev_positions == old(self).prev_positions,
            final(self).velocities == old(self).velocities,
            same_topology(*old(self), *final(self)),
            final(self).visual_vertices@.len() == old(self).visual_vertices@.len(),
            forall|i: int|
                0 <= i < old(self).visual_vertices@.len() ==> final(self).visual_vertices@[i]@
                    == #[trigger] crate::skinning::skinned_vertex(
                    views(old(self).positions@),
                    old(self).tet_ids@,
                    old(self).skin@[i],
                    old(self).visual_vertices@[i]@,
                ),
    {
        crate::skinning::update_visual_vertices(
            &mut self.visual_vertices,
            &self.skin,
            &self.positions,
            &self.tet_ids,
        );
    }
}

/// The body's pick distance along a ray: the enclosing-sphere gate, then
/// the nearest triangle hit of the render skin when one exists, else of
/// the tetrahedron triples.
pub open spec fn body_pick(sb: SoftBody, o: V3, d: V3) -> Option<int> {
    if crate::intersect::ray_sphere(o, d, sb.center@, sb.radius as int) is Some {
        if sb.visual_indices@.len() > 0 {
            crate::intersect::nearest_hit(
                views(sb.visual_vertices@),
                sb.visual_indices@,
                o,
                d,
                (sb.visual_indices@.len() / 3) as int,
            )
        } else {
            crate::intersect::nearest_hit(
                views(sb.positions@),
                sb.tet_ids@,
                o,
                d,
                (sb.tet_ids@.len() / 3) as int,
            )
        }
    } else {
        Option::None
    }
}

/// The enclosing sphere of a nonempty position buffer: the centre is the
/// componentwise mean (rounded toward zero) and the radius the integer
/// square root of the largest squared distance from it, capped at the
/// solver's range.
pub open spec fn bounds_of(ps: Seq<V3>) -> (Vec3, i64) {
    let n = ps.len() as int;
    let s = sum_upto(ps, n);
    let c = V3 { x: tdiv(s.x, n), y: tdiv(s.y, n), z: tdiv(s.z, n) };
    let r = crate::fixed::sqrt_i(max_d2_upto(ps, c, n));
    (
        crate::balls::to_vec3(c),
        if r > PLIM as int {
            PLIM
        } else {
            r as i64
        },
    )
}

/// The enclosing sphere, as computed.
pub fn bounding_sphere(positions: &Vec<Vec3>) -> (res: (Vec3, i64))
    requires
        positions@.len() > 0,
    ensures
        res == bounds_of(views(positions@)),
{
    let n = positions.len();
    let ghost ps = views(positions@);
    let mut sx: i128 = 0;
    let mut sy: i128 = 0;
    let mut sz: i128 = 0;
    let mut k: usize = 0;
    while k < n
        invariant
            n == positions@.len(),
            ps == views(positions@),
            k <= n,
            sx as int == sum_upto(ps, k as int).x,
            sy as int == sum_upto(ps, k as int).y,
            sz as int == sum_upto(ps, k as int).z,
            -((k as int) * 0x8000000000000000) <= sx as int <= (k as int) * 0x7fffffffffffffff,
            -((k as int) * 0x8000000000000000) <= sy as int <= (k as int) * 0x7fffffffffffffff,
            -((k as int) * 0x8000000000000000) <= sz as int <= (k as int) * 0x7fffffffffffffff,
        decreases n - k,
    {
        proof {
            assert(ps[k as int] == positions@[k as int]@);
            assert((k as int + 1) * 0x7fffffffffffffff == (k as int) * 0x7fffffffffffffff
                + 0x7fffffffffffffff) by (nonlinear_arith);
            assert((k as int + 1) * 0x8000000000000000 == (k as int) * 0x8000000000000000
                + 0x8000000000000000) by (nonlinear_arith);
            assert((n as int) * 0x8000000000000000
                < 0x7fffffffffffffffffffffffffffffff) by (nonlinear_arith)
                requires n as int <= 0xffffffffffffffff;
            assert((k as int) * 0x7fffffffffffffff <= (n as int) * 0x8000000000000000)
                by (nonlinear_arith)
                requires k as int <= n as int;
            assert((k as int) * 0x8000000000000000 <= (n as int) * 0x8000000000000000)
                by (nonlinear_arith)
                requires k as int <= n as int;
        }
        let v = positions[k];
        sx = sx + (v.x as i128);
        sy = sy + (v.y as i128);
        sz = sz + (v.z as i128);
        k += 1;
    }
    proof {
        lemma_tdiv_bound(sx as int, n as int);
        lemma_tdiv_bound(sy as int, n as int);
        lemma_tdiv_bound(sz as int, n as int);
        lemma_avg_fits(sx as int, n as int);
        lemma_avg_fits(sy as int, n as int);
        lemma_avg_fits(sz as int, n as int);
    }
    let cx = div_i128(sx, n as i128);
    let cy = div_i128(sy, n as i128);
    let cz = div_i128(sz, n as i128);
    let center = Vec3 { x: cx as i64, y: cy as i64, z: cz as i64 };
    let mut max_d2: i128 = 0;
    let mut k: usize = 0;
    while k < n
        invariant
            n == positions@.len(),
            ps == views(positions@),
            k <= n,
            max_d2 as int == max_d2_upto(ps, center@, k as int),
            0 <= max_d2,
        decreases n - k,
    {
        proof {
            assert(ps[k as int] == positions@[k as int]@);
        }
        let d2 = dist2_exec(positions[k], center);
        if d2 > max_d2 {
            max_d2 = d2;
        }
        k += 1;
    }
    proof {
        lemma_max_d2_nonneg(ps, center@, n as int);
    }
    let r = crate::fixed::isqrt_u128(max_d2 as u128);
    proof {
        crate::fixed::lemma_sqrt_exists(max_d2 as int);
        crate::fixed::lemma_sqrt_unique(max_d2 as int, r as int,
            crate::fixed::sqrt_i(max_d2 as int));
        crate::fixed::lemma_sqrt_le(max_d2 as int, r as int, 0xffffffffffffffff);
        assert(max_d2 as int <= 0xffffffffffffffff * 0xffffffffffffffff) by {
            lemma_max_d2_cap(ps, center@, n as int);
            assert(3 * ((4 * PLIM as int) * (4 * PLIM as int)) <= 0xffffffffffffffffint
                * 0xffffffffffffffffint) by (nonlinear_arith)
                requires PLIM == 300_000_000_000i64;
        }
    }
    let radius = if r > (PLIM as u64) {
        PLIM
    } else {
        r as i64
    };
    (center, radius)
}

/// Picking and immediately releasing a grabbed particle is the identity:
/// releasing restores the saved inverse mass exactly, and when the pick
/// point and the release velocity equal the particle's own position and
/// velocity (no movement happened while held), position and velocity
/// buffers come back bit for bit.
pub proof fn lemma_grab_release_identity(
    ws: Seq<i64>,
    ps: Seq<Vec3>,
    vs: Seq<Vec3>,
    i: int,
    p: Vec3,
    v: Vec3,
)
    requires
        0 <= i < ws.len(),
        0 <= i < ps.len(),
        0 <= i < vs.len(),
        0 <= ws[i],
    ensures
        ws.update(i, 0i64).update(i, ws[i]) =~= ws,
        p == ps[i] ==> ps.update(i, p) =~= ps,
        v == vs[i] ==> vs.update(i, v) =~= vs,
{
}

/// The squared pick distance, as computed.
pub fn cand_pick(a: Vec3, p: Vec3) -> (r: i128)
    ensures
        r as int == cand_of(a@, p@),
{
    if in_lim(a, PLIM) && in_lim(p, PLIM) {
        dist2_exec(a, p)
    } else {
        0x7fffffffffffffffffffffffffffffffi128
    }
}

/// The squared distance between two in-range points; out-of-range points
/// count as distance zero.
fn dist2_exec(a: Vec3, c: Vec3) -> (r: i128)
    ensures
        r as int == d2_of(a@, c@),
        0 <= r,
{
    if !(in_lim(a, PLIM) && in_lim(c, PLIM)) {
        return 0;
    }
    proof {
        crate::vec3::lemma_sub_in_b(c@, a@, PLIM as int);
        let d = v_sub(c@, a@);
        lemma_mul_bound(d.x, d.x, 2 * PLIM as int, 2 * PLIM as int);
        lemma_mul_bound(d.y, d.y, 2 * PLIM as int, 2 * PLIM as int);
        lemma_mul_bound(d.z, d.z, 2 * PLIM as int, 2 * PLIM as int);
        assert(d.x * d.x >= 0) by (nonlinear_arith);
        assert(d.y * d.y >= 0) by (nonlinear_arith);
        assert(d.z * d.z >= 0) by (nonlinear_arith);
    }
    let dx = (c.x as i128) - (a.x as i128);
    let dy = (c.y as i128) - (a.y as i128);
    let dz = (c.z as i128) - (a.z as i128);
    dx * dx + dy * dy + dz * dz
}

/// The squared distance between two points, zero when either is out of
/// the solver's range.
pub open spec fn d2_of(a: V3, c: V3) -> int {
    if in_b(a, PLIM as int) && in_b(c, PLIM as int) {
        v_len2(v_sub(c, a))
    } else {
        0
    }
}

/// The running sum of the first `k` positions (the mean's numerator).
pub open spec fn sum_upto(ps: Seq<V3>, k: int) -> V3
    decreases k,
{
    if k <= 0 {
        V3 { x: 0, y: 0, z: 0 }
    } else {
        let prev = sum_upto(ps, k - 1);
        V3 { x: prev.x + ps[k - 1].x, y: prev.y + ps[k - 1].y, z: prev.z + ps[k - 1].z }
    }
}

/// The largest squared distance from `c` among the first `k` positions.
pub open spec fn max_d2_upto(ps: Seq<V3>, c: V3, k: int) -> int
    decreases k,
{
    if k <= 0 {
        0
    } else {
        let prev = max_d2_upto(ps, c, k - 1);
        let d = d2_of(ps[k - 1], c);
        if d > prev {
            d
        } else {
            prev
        }
    }
}

/// The running maximum is never negative.
proof fn lemma_max_d2_nonneg(ps: Seq<V3>, c: V3, k: int)
    ensures
        0 <= max_d2_upto(ps, c, k),
    decreases k,
{
    if k > 0 {
        lemma_max_d2_nonneg(ps, c, k - 1);
        lemma_d2_nonneg(ps[k - 1], c);
    }
}

/// A squared distance is never negative and is capped.
proof fn lemma_d2_nonneg(a: V3, c: V3)
    ensures
        0 <= d2_of(a, c) <= 3 * ((4 * PLIM as int) * (4 * PLIM as int)),
{
    if in_b(a, PLIM as int) && in_b(c, PLIM as int) {
        let d = v_sub(c, a);
        lemma_mul_bound(d.x, d.x, 4 * PLIM as int, 4 * PLIM as int);
        lemma_mul_bound(d.y, d.y, 4 * PLIM as int, 4 * PLIM as int);
        lemma_mul_bound(d.z, d.z, 4 * PLIM as int, 4 * PLIM as int);
        assert(d.x * d.x >= 0) by (nonlinear_arith);
        assert(d.y * d.y >= 0) by (nonlinear_arith);
        assert(d.z * d.z >= 0) by (nonlinear_arith);
    } else {
        assert(3 * ((4 * PLIM as int) * (4 * PLIM as int)) >= 0) by (nonlinear_arith);
    }
}

/// The running maximum is capped.
proof fn lemma_max_d2_cap(ps: Seq<V3>, c: V3, k: int)
    ensures
        max_d2_upto(ps, c, k) <= 3 * ((4 * PLIM as int) * (4 * PLIM as int)),
    decreases k,
{
    lemma_d2_nonneg(V3 { x: 0, y: 0, z: 0 }, c);
    if k > 0 {
        lemma_max_d2_cap(ps, c, k - 1);
        lemma_d2_nonneg(ps[k - 1], c);
    } else {
        assert(3 * ((4 * PLIM as int) * (4 * PLIM as int)) >= 0) by (nonlinear_arith);
    }
}

/// A sum of at most `2^64` machine words divided by its count fits a
/// machine word.
proof fn lemma_avg_fits(s: int, n: int)
    requires
        n >= 1,
        -(n * 0x8000000000000000) <= s <= n * 0x7fffffffffffffff,
    ensures
        i64::MIN <= tdiv(s, n) <= i64::MAX,
{
    if s >= 0 {
        vstd::arithmetic::div_mod::lemma_div_is_ordered(s, n * 0x7fffffffffffffff, n);
        assert(n * 0x7fffffffffffffff == 0x7fffffffffffffff * n) by (nonlinear_arith);
        lemma_mul_div_exact(0x7fffffffffffffff, n);
        vstd::arithmetic::div_mod::lemma_div_pos_is_pos(s, n);
    } else {
        vstd::arithmetic::div_mod::lemma_div_is_ordered(-s, n * 0x8000000000000000, n);
        assert(n * 0x8000000000000000 == 0x8000000000000000 * n) by (nonlinear_arith);
        lemma_mul_div_exact(0x8000000000000000, n);
        vstd::arithmetic::div_mod::lemma_div_pos_is_pos(-s, n);
    }
}

/// The compliance term of the edge pass, in the distance solver's scale.
pub open spec fn alpha_edge(compliance: int, dt: int) -> int {
    tdiv(compliance * SCALE * SCALE, dt * dt)
}

/// The compliance term of the volume pass, in the volume solver's scale.
pub open spec fn alpha_vol(compliance: int, dt: int) -> int {
    tdiv(compliance * 1_000_000_000_000_000_000_000_000, dt * dt)
}

/// Compliance terms are nonnegative and bounded.
proof fn lemma_alpha_bounds(ce: int, cv: int, dt: int)
    requires
        0 <= ce <= PLIM,
        0 <= cv <= PLIM,
        1 <= dt <= SCALE,
    ensures
        0 <= alpha_edge(ce, dt) <= 1_000_000_000_000_000_000_000_000_000_000,
        0 <= alpha_vol(cv, dt) <= 1_000_000_000_000_000_000_000_000_000_000_000_000,
        ce * SCALE * SCALE == ce * ((SCALE as int) * (SCALE as int)),
        1 <= dt * dt <= 1_000_000_000_000,
        alpha_edge(ce, dt) == tdiv(ce * ((SCALE as int) * (SCALE as int)), dt * dt),
        0 <= ce * SCALE <= 400_000_000_000_000_000,
        0 <= ce * SCALE * SCALE <= 400_000_000_000_000_000_000_000,
        0 <= cv * 1_000_000_000_000_000_000_000_000
            <= 400_000_000_000_000_000_000_000_000_000_000_000,
{
    assert(ce * SCALE * SCALE == ce * ((SCALE as int) * (SCALE as int))) by (nonlinear_arith);
    assert(1 <= dt * dt && dt * dt <= (SCALE as int) * (SCALE as int)) by (nonlinear_arith)
        requires 1 <= dt <= SCALE;
    assert(0 <= ce * SCALE <= 400_000_000_000_000_000) by (nonlinear_arith)
        requires 0 <= ce <= PLIM, PLIM == 300_000_000_000i64, SCALE == 1_000_000i64;
    assert(0 <= ce * SCALE * SCALE <= 400_000_000_000_000_000_000_000) by (nonlinear_arith)
        requires 0 <= ce <= PLIM, PLIM == 300_000_000_000i64, SCALE == 1_000_000i64;
    assert(0 <= cv * 1_000_000_000_000_000_000_000_000
        <= 400_000_000_000_000_000_000_000_000_000_000_000) by (nonlinear_arith)
        requires 0 <= cv <= PLIM, PLIM == 300_000_000_000i64;
    lemma_mul_bound(ce, (SCALE as int) * (SCALE as int), PLIM as int,
        1_000_000_000_000int);
    assert((SCALE as int) * (SCALE as int) == 1_000_000_000_000) by (nonlinear_arith)
        requires SCALE == 1_000_000i64;
    assert((PLIM as int) * 1_000_000_000_000int <= 1_000_000_000_000_000_000_000_000_000_000int)
        by (nonlinear_arith)
        requires PLIM == 300_000_000_000i64;
    lemma_tdiv_bound(ce * ((SCALE as int) * (SCALE as int)), dt * dt);
    crate::fixed::lemma_tdiv_bound(ce * SCALE * SCALE, dt * dt);
    assert(tdiv(ce * SCALE * SCALE, dt * dt) >= 0) by {
        if ce * SCALE * SCALE > 0 {
            vstd::arithmetic::div_mod::lemma_div_pos_is_pos(ce * SCALE * SCALE, dt * dt);
        }
        assert(ce * SCALE * SCALE >= 0) by (nonlinear_arith)
            requires ce >= 0, SCALE == 1_000_000i64;
    }
    lemma_mul_bound(cv, 1_000_000_000_000_000_000_000_000int, PLIM as int,
        1_000_000_000_000_000_000_000_000int);
    assert((PLIM as int) * 1_000_000_000_000_000_000_000_000int
        <= 1_000_000_000_000_000_000_000_000_000_000_000_000int) by (nonlinear_arith)
        requires PLIM == 300_000_000_000i64;
    lemma_tdiv_bound(cv * 1_000_000_000_000_000_000_000_000, dt * dt);
    assert(tdiv(cv * 1_000_000_000_000_000_000_000_000, dt * dt) >= 0) by {
        if cv * 1_000_000_000_000_000_000_000_000 > 0 {
            vstd::arithmetic::div_mod::lemma_div_pos_is_pos(
                cv * 1_000_000_000_000_000_000_000_000,
                dt * dt,
            );
        }
        assert(cv * 1_000_000_000_000_000_000_000_000 >= 0) by (nonlinear_arith)
            requires cv >= 0;
    }
}

/// Range and value facts of one edge-style compliance term, for callers
/// computing it in a wide word.
pub proof fn lemma_alpha_bounds_pub(ce: int, dt: int)
    requires
        0 <= ce <= PLIM,
        1 <= dt <= SCALE,
    ensures
        0 <= alpha_edge(ce, dt) <= 1_000_000_000_000_000_000_000_000_000_000,
        ce * SCALE * SCALE == ce * ((SCALE as int) * (SCALE as int)),
        1 <= dt * dt <= 1_000_000_000_000,
        alpha_edge(ce, dt) == tdiv(ce * ((SCALE as int) * (SCALE as int)), dt * dt),
        0 <= ce * SCALE <= 400_000_000_000_000_000,
        0 <= ce * SCALE * SCALE <= 400_000_000_000_000_000_000_000,
{
    lemma_alpha_bounds(ce, 0, dt);
}

/// The parts of a soft body that a solver phase never changes.
pub open spec fn same_topology(a: SoftBody, b: SoftBody) -> bool {
    &&& b.inv_mass == a.inv_mass
    &&& b.tet_ids == a.tet_ids
    &&& b.edge_ids == a.edge_ids
    &&& b.rest_volumes == a.rest_volumes
    &&& b.edge_lengths == a.edge_lengths
    &&& b.edge_compliance == a.edge_compliance
    &&& b.volume_compliance == a.volume_compliance
    &&& b.visual_indices == a.visual_indices
    &&& b.skin == a.skin
    &&& b.grab_id == a.grab_id
    &&& b.grab_inv_mass == a.grab_inv_mass
}

/// Copies a position buffer.
pub fn clone_buffer(src: &Vec<Vec3>) -> (r: Vec<Vec3>)
    ensures
        r@ == src@,
{
    let mut r: Vec<Vec3> = Vec::new();
    let mut i: usize = 0;
    while i < src.len()
        invariant
            i <= src@.len(),
            r@.len() == i,
            forall|j: int| 0 <= j < i ==> #[trigger] r@[j] == src@[j],
        decreases src@.len() - i,
    {
        r.push(src[i]);
        i += 1;
    }
    proof {
        assert(r@ =~= src@);
    }
    r
}

} // verus!
