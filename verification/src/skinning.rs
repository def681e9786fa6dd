//! Skinning support: small matrix algebra and barycentric application.
//!
//! A render skin follows the simulated tetrahedra through barycentric
//! coordinates: each visual vertex stores a tetrahedron and three weights,
//! and the skinned position is the weighted sum of the tetrahedron's
//! corners (the fourth weight completes the unit). The three-by-three
//! helpers solve for those weights from a tetrahedron's edge matrix.

use vstd::prelude::*;

verus! {

use crate::fixed::{SCALE, tdiv, fxmul, fxdiv, abs_i, div_i128, lemma_tdiv_bound, lemma_mul_bound};
use crate::vec3::{Vec3, V3, v_add, v_scale, in_b, lemma_shrink_by, lemma_mul_div_exact};
use crate::particles::{PLIM, in_lim, views};
use vstd::pervasive::VecAdditionalExecFns;

/// Magnitude cap on matrix entries: a thousand units, ample for
/// tetrahedron edge matrices.
pub const MATLIM: i64 = 1_000_000_000;

/// A three-by-three matrix in column-major order: `m0 m1 m2` is the first
/// column.
#[derive(Clone, Copy, PartialEq, Eq, Structural, Debug)]
pub struct Mat3 {
    /// Row 1, column 1.
    pub m0: i64,
    /// Row 2, column 1.
    pub m1: i64,
    /// Row 3, column 1.
    pub m2: i64,
    /// Row 1, column 2.
    pub m3: i64,
    /// Row 2, column 2.
    pub m4: i64,
    /// Row 3, column 2.
    pub m5: i64,
    /// Row 1, column 3.
    pub m6: i64,
    /// Row 2, column 3.
    pub m7: i64,
    /// Row 3, column 3.
    pub m8: i64,
}

/// Every entry's magnitude is at most `b`.
pub open spec fn mat_in_b(a: Mat3, b: int) -> bool {
    &&& abs_i(a.m0 as int) <= b
    &&& abs_i(a.m1 as int) <= b
    &&& abs_i(a.m2 as int) <= b
    &&& abs_i(a.m3 as int) <= b
    &&& abs_i(a.m4 as int) <= b
    &&& abs_i(a.m5 as int) <= b
    &&& abs_i(a.m6 as int) <= b
    &&& abs_i(a.m7 as int) <= b
    &&& abs_i(a.m8 as int) <= b
}

/// A fixed-point product of three raw scalars, rounded twice.
pub open spec fn fx3(a: int, b: int, c: int) -> int {
    fxmul(fxmul(a, b), c)
}

/// The determinant by the rule of Sarrus, in fixed point; zero when an
/// entry is out of range.
pub open spec fn mat_det(a: Mat3) -> int {
    if !mat_in_b(a, MATLIM as int) {
        0
    } else {
        fx3(a.m0 as int, a.m4 as int, a.m8 as int) + fx3(a.m3 as int, a.m7 as int, a.m2 as int)
            + fx3(a.m6 as int, a.m1 as int, a.m5 as int) - fx3(
            a.m6 as int,
            a.m4 as int,
            a.m2 as int,
        ) - fx3(a.m3 as int, a.m1 as int, a.m8 as int) - fx3(
            a.m0 as int,
            a.m7 as int,
            a.m5 as int,
        )
    }
}

/// A double fixed-point product of range-checked entries stays small.
proof fn lemma_fx3_bound(a: int, b: int, c: int)
    requires
        abs_i(a) <= MATLIM as int,
        abs_i(b) <= MATLIM as int,
        abs_i(c) <= MATLIM as int,
    ensures
        abs_i(fxmul(a, b)) <= 1_000_000_000_000,
        abs_i(fx3(a, b, c)) <= 1_000_000_000_000_000,
{
    lemma_mul_bound(a, b, MATLIM as int, MATLIM as int);
    assert((MATLIM as int) * (MATLIM as int) == 1_000_000_000_000int * (SCALE as int))
        by (nonlinear_arith)
        requires MATLIM == 1_000_000_000i64, SCALE == 1_000_000i64;
    lemma_shrink_by(a * b, 1_000_000_000_000int * (SCALE as int), SCALE as int);
    lemma_mul_div_exact(1_000_000_000_000int, SCALE as int);
    assert(1_000_000_000_000int * (SCALE as int) == (SCALE as int) * 1_000_000_000_000int)
        by (nonlinear_arith);
    lemma_mul_bound(fxmul(a, b), c, 1_000_000_000_000, MATLIM as int);
    assert(1_000_000_000_000int * (MATLIM as int) == 1_000_000_000_000_000int * (SCALE as int))
        by (nonlinear_arith)
        requires MATLIM == 1_000_000_000i64, SCALE == 1_000_000i64;
    lemma_shrink_by(fxmul(a, b) * c, 1_000_000_000_000_000int * (SCALE as int), SCALE as int);
    lemma_mul_div_exact(1_000_000_000_000_000int, SCALE as int);
    assert(1_000_000_000_000_000int * (SCALE as int) == (SCALE as int)
        * 1_000_000_000_000_000int) by (nonlinear_arith);
}

/// The determinant, as computed.
pub fn mat_get_determinant(a: &Mat3) -> (r: i64)
    ensures
        r as int == mat_det(*a),
{
    if !mat_in_b_exec(a, MATLIM) {
        return 0;
    }
    proof {
        lemma_fx3_bound(a.m0 as int, a.m4 as int, a.m8 as int);
        lemma_fx3_bound(a.m3 as int, a.m7 as int, a.m2 as int);
        lemma_fx3_bound(a.m6 as int, a.m1 as int, a.m5 as int);
        lemma_fx3_bound(a.m6 as int, a.m4 as int, a.m2 as int);
        lemma_fx3_bound(a.m3 as int, a.m1 as int, a.m8 as int);
        lemma_fx3_bound(a.m0 as int, a.m7 as int, a.m5 as int);
    }
    let t0 = fx3e(a.m0, a.m4, a.m8);
    let t1 = fx3e(a.m3, a.m7, a.m2);
    let t2 = fx3e(a.m6, a.m1, a.m5);
    let t3 = fx3e(a.m6, a.m4, a.m2);
    let t4 = fx3e(a.m3, a.m1, a.m8);
    let t5 = fx3e(a.m0, a.m7, a.m5);
    t0 + t1 + t2 - t3 - t4 - t5
}

/// A double fixed-point product, as computed.
fn fx3e(a: i64, b: i64, c: i64) -> (r: i64)
    requires
        abs_i(a as int) <= MATLIM as int,
        abs_i(b as int) <= MATLIM as int,
        abs_i(c as int) <= MATLIM as int,
    ensures
        r as int == fx3(a as int, b as int, c as int),
        abs_i(r as int) <= 1_000_000_000_000_000,
{
    proof {
        lemma_fx3_bound(a as int, b as int, c as int);
    }
    crate::fixed::fx_mul(crate::fixed::fx_mul(a, b), c)
}

/// True when every entry is within `b`.
pub fn mat_in_b_exec(a: &Mat3, b: i64) -> (r: bool)
    requires
        b >= 0,
    ensures
        r == mat_in_b(*a, b as int),
{
    -b <= a.m0 && a.m0 <= b && -b <= a.m1 && a.m1 <= b && -b <= a.m2 && a.m2 <= b && -b <= a.m3
        && a.m3 <= b && -b <= a.m4 && a.m4 <= b && -b <= a.m5 && a.m5 <= b && -b <= a.m6 && a.m6
        <= b && -b <= a.m7 && a.m7 <= b && -b <= a.m8 && a.m8 <= b
}

/// One cofactor entry of the inverse: the two-by-two minor determinant
/// scaled by the inverse determinant.
pub open spec fn inv_entry(p: int, q: int, r: int, s: int, inv_det: int) -> int {
    fxmul(fxmul(p, q) - fxmul(r, s), inv_det)
}

/// The inverse of a matrix whose determinant is nonzero; for a singular
/// (or out-of-range) matrix only the first entry is zeroed and the rest
/// is left as it was — a long-standing quirk of this routine, kept as
/// documented behaviour rather than silently repaired.
pub open spec fn mat_inv(a: Mat3) -> Mat3 {
    let det = mat_det(a);
    if det == 0 {
        Mat3 { m0: 0, ..a }
    } else {
        let inv_det = fxdiv(SCALE as int, det);
        Mat3 {
            m0: inv_entry(a.m4 as int, a.m8 as int, a.m7 as int, a.m5 as int, inv_det) as i64,
            m3: -inv_entry(a.m3 as int, a.m8 as int, a.m6 as int, a.m5 as int, inv_det) as i64,
            m6: inv_entry(a.m3 as int, a.m7 as int, a.m6 as int, a.m4 as int, inv_det) as i64,
            m1: -inv_entry(a.m1 as int, a.m8 as int, a.m7 as int, a.m2 as int, inv_det) as i64,
            m4: inv_entry(a.m0 as int, a.m8 as int, a.m6 as int, a.m2 as int, inv_det) as i64,
            m7: -inv_entry(a.m0 as int, a.m7 as int, a.m6 as int, a.m1 as int, inv_det) as i64,
            m2: inv_entry(a.m1 as int, a.m5 as int, a.m4 as int, a.m2 as int, inv_det) as i64,
            m5: -inv_entry(a.m0 as int, a.m5 as int, a.m3 as int, a.m2 as int, inv_det) as i64,
            m8: inv_entry(a.m0 as int, a.m4 as int, a.m3 as int, a.m1 as int, inv_det) as i64,
        }
    }
}

/// Inverts the matrix in place, exactly as [`mat_inv`] states.
#[verifier::rlimit(60)]
pub fn mat_set_inverse(a: &mut Mat3)
    ensures
        *final(a) == mat_inv(*old(a)),
{
    let det = mat_get_determinant(a);
    if det == 0 {
        a.m0 = 0;
        return ;
    }
    proof {
        lemma_inv_det_bound(det as int);
    }
    let inv_det = crate::fixed::fx_div(SCALE, det);
    let e = *a;
    proof {
        lemma_inv_entries(e, inv_det as int);
    }
    a.m0 = inv_e(e.m4, e.m8, e.m7, e.m5, inv_det);
    a.m3 = -inv_e(e.m3, e.m8, e.m6, e.m5, inv_det);
    a.m6 = inv_e(e.m3, e.m7, e.m6, e.m4, inv_det);
    a.m1 = -inv_e(e.m1, e.m8, e.m7, e.m2, inv_det);
    a.m4 = inv_e(e.m0, e.m8, e.m6, e.m2, inv_det);
    a.m7 = -inv_e(e.m0, e.m7, e.m6, e.m1, inv_det);
    a.m2 = inv_e(e.m1, e.m5, e.m4, e.m2, inv_det);
    a.m5 = -inv_e(e.m0, e.m5, e.m3, e.m2, inv_det);
    a.m8 = inv_e(e.m0, e.m4, e.m3, e.m1, inv_det);
}

/// The inverse determinant fits the machine word.
proof fn lemma_inv_det_bound(det: int)
    requires
        det != 0,
    ensures
        i64::MIN <= fxdiv(SCALE as int, det) <= i64::MAX,
        abs_i(fxdiv(SCALE as int, det)) <= 1_000_000_000_000,
{
    lemma_mul_bound(SCALE as int, SCALE as int, SCALE as int, SCALE as int);
    lemma_tdiv_bound(SCALE as int * SCALE, det);
    assert((SCALE as int) * (SCALE as int) == 1_000_000_000_000) by (nonlinear_arith)
        requires SCALE == 1_000_000i64;
}

/// Every cofactor entry of an in-range matrix fits the machine word.
proof fn lemma_inv_entries(e: Mat3, inv_det: int)
    requires
        mat_in_b(e, MATLIM as int),
        abs_i(inv_det) <= 1_000_000_000_000,
    ensures
        abs_i(inv_entry(e.m4 as int, e.m8 as int, e.m7 as int, e.m5 as int, inv_det))
            <= 2_000_000_000_000_000_000,
        abs_i(inv_entry(e.m3 as int, e.m8 as int, e.m6 as int, e.m5 as int, inv_det))
            <= 2_000_000_000_000_000_000,
        abs_i(inv_entry(e.m3 as int, e.m7 as int, e.m6 as int, e.m4 as int, inv_det))
            <= 2_000_000_000_000_000_000,
        abs_i(inv_entry(e.m1 as int, e.m8 as int, e.m7 as int, e.m2 as int, inv_det))
            <= 2_000_000_000_000_000_000,
        abs_i(inv_entry(e.m0 as int, e.m8 as int, e.m6 as int, e.m2 as int, inv_det))
            <= 2_000_000_000_000_000_000,
        abs_i(inv_entry(e.m0 as int, e.m7 as int, e.m6 as int, e.m1 as int, inv_det))
            <= 2_000_000_000_000_000_000,
        abs_i(inv_entry(e.m1 as int, e.m5 as int, e.m4 as int, e.m2 as int, inv_det))
            <= 2_000_000_000_000_000_000,
        abs_i(inv_entry(e.m0 as int, e.m5 as int, e.m3 as int, e.m2 as int, inv_det))
            <= 2_000_000_000_000_000_000,
        abs_i(inv_entry(e.m0 as int, e.m4 as int, e.m3 as int, e.m1 as int, inv_det))
            <= 2_000_000_000_000_000_000,
{
    lemma_one_entry(e.m4 as int, e.m8 as int, e.m7 as int, e.m5 as int, inv_det);
    lemma_one_entry(e.m3 as int, e.m8 as int, e.m6 as int, e.m5 as int, inv_det);
    lemma_one_entry(e.m3 as int, e.m7 as int, e.m6 as int, e.m4 as int, inv_det);
    lemma_one_entry(e.m1 as int, e.m8 as int, e.m7 as int, e.m2 as int, inv_det);
    lemma_one_entry(e.m0 as int, e.m8 as int, e.m6 as int, e.m2 as int, inv_det);
    lemma_one_entry(e.m0 as int, e.m7 as int, e.m6 as int, e.m1 as int, inv_det);
    lemma_one_entry(e.m1 as int, e.m5 as int, e.m4 as int, e.m2 as int, inv_det);
    lemma_one_entry(e.m0 as int, e.m5 as int, e.m3 as int, e.m2 as int, inv_det);
    lemma_one_entry(e.m0 as int, e.m4 as int, e.m3 as int, e.m1 as int, inv_det);
}

/// One cofactor entry stays within range.
proof fn lemma_one_entry(p: int, q: int, r: int, s: int, inv_det: int)
    requires
        abs_i(p) <= MATLIM as int,
        abs_i(q) <= MATLIM as int,
        abs_i(r) <= MATLIM as int,
        abs_i(s) <= MATLIM as int,
        abs_i(inv_det) <= 1_000_000_000_000,
    ensures
        abs_i(fxmul(p, q)) <= 1_000_000_000_000,
        abs_i(fxmul(r, s)) <= 1_000_000_000_000,
        abs_i(inv_entry(p, q, r, s, inv_det)) <= 2_000_000_000_000_000_000,
{
    lemma_fx3_bound(p, q, 0);
    lemma_fx3_bound(r, s, 0);
    lemma_mul_bound(fxmul(p, q) - fxmul(r, s), inv_det, 2_000_000_000_000, 1_000_000_000_000);
    assert(2_000_000_000_000int * 1_000_000_000_000int == 2_000_000_000_000_000_000int
        * (SCALE as int)) by (nonlinear_arith)
        requires SCALE == 1_000_000i64;
    lemma_shrink_by(
        (fxmul(p, q) - fxmul(r, s)) * inv_det,
        2_000_000_000_000_000_000int * (SCALE as int),
        SCALE as int,
    );
    lemma_mul_div_exact(2_000_000_000_000_000_000int, SCALE as int);
    assert(2_000_000_000_000_000_000int * (SCALE as int) == (SCALE as int)
        * 2_000_000_000_000_000_000int) by (nonlinear_arith);
}

/// One cofactor entry, as computed.
fn inv_e(p: i64, q: i64, r: i64, s: i64, inv_det: i64) -> (res: i64)
    requires
        abs_i(p as int) <= MATLIM as int,
        abs_i(q as int) <= MATLIM as int,
        abs_i(r as int) <= MATLIM as int,
        abs_i(s as int) <= MATLIM as int,
        abs_i(inv_det as int) <= 1_000_000_000_000,
    ensures
        res as int == inv_entry(p as int, q as int, r as int, s as int, inv_det as int),
        abs_i(res as int) <= 2_000_000_000_000_000_000,
{
    proof {
        lemma_one_entry(p as int, q as int, r as int, s as int, inv_det as int);
    }
    let a = crate::fixed::fx_mul(p, q);
    let b = crate::fixed::fx_mul(r, s);
    crate::fixed::fx_mul(a - b, inv_det)
}

/// The matrix applied to a vector, in fixed point; out-of-range operands
/// give the vector back.
pub open spec fn mat_apply(a: Mat3, v: V3) -> V3 {
    if !mat_in_b(a, MATLIM as int) || !in_b(v, MATLIM as int) {
        v
    } else {
        V3 {
            x: fxmul(a.m0 as int, v.x) + fxmul(a.m3 as int, v.y) + fxmul(a.m6 as int, v.z),
            y: fxmul(a.m1 as int, v.x) + fxmul(a.m4 as int, v.y) + fxmul(a.m7 as int, v.z),
            z: fxmul(a.m2 as int, v.x) + fxmul(a.m5 as int, v.y) + fxmul(a.m8 as int, v.z),
        }
    }
}

/// Applies the matrix to a vector, exactly as [`mat_apply`] states.
pub fn mat_set_mult(a: &Mat3, v: Vec3) -> (r: Vec3)
    ensures
        r@ == mat_apply(*a, v@),
{
    if !mat_in_b_exec(a, MATLIM) || !in_lim(v, MATLIM) {
        return v;
    }
    proof {
        lemma_fx3_bound(a.m0 as int, v@.x, 0);
        lemma_fx3_bound(a.m3 as int, v@.y, 0);
        lemma_fx3_bound(a.m6 as int, v@.z, 0);
        lemma_fx3_bound(a.m1 as int, v@.x, 0);
        lemma_fx3_bound(a.m4 as int, v@.y, 0);
        lemma_fx3_bound(a.m7 as int, v@.z, 0);
        lemma_fx3_bound(a.m2 as int, v@.x, 0);
        lemma_fx3_bound(a.m5 as int, v@.y, 0);
        lemma_fx3_bound(a.m8 as int, v@.z, 0);
    }
    let x = crate::fixed::fx_mul(a.m0, v.x) + crate::fixed::fx_mul(a.m3, v.y)
        + crate::fixed::fx_mul(a.m6, v.z);
    let y = crate::fixed::fx_mul(a.m1, v.x) + crate::fixed::fx_mul(a.m4, v.y)
        + crate::fixed::fx_mul(a.m7, v.z);
    let z = crate::fixed::fx_mul(a.m2, v.x) + crate::fixed::fx_mul(a.m5, v.y)
        + crate::fixed::fx_mul(a.m8, v.z);
    Vec3 { x, y, z }
}

/// One visual vertex's skin record: its tetrahedron and the first three
/// barycentric weights; the fourth completes the unit.
#[derive(Clone, Copy, PartialEq, Eq, Structural, Debug)]
pub struct SkinWeight {
    /// Index of the tetrahedron the vertex follows.
    pub tet: usize,
    /// First barycentric weight, a raw scalar.
    pub b0: i64,
    /// Second barycentric weight, a raw scalar.
    pub b1: i64,
    /// Third barycentric weight, a raw scalar.
    pub b2: i64,
}

/// The skinned position of one vertex: the barycentric combination of its
/// tetrahedron's corners, the fourth weight completing the unit. Invalid
/// records and out-of-range values keep the old vertex.
pub open spec fn skinned_vertex(
    ps: Seq<V3>,
    tets: Seq<usize>,
    w: SkinWeight,
    old_v: V3,
) -> V3 {
    if !(4 * w.tet + 3 < tets.len()) {
        old_v
    } else {
        let i0 = tets[4 * w.tet] as int;
        let i1 = tets[4 * w.tet + 1] as int;
        let i2 = tets[4 * w.tet + 2] as int;
        let i3 = tets[4 * w.tet + 3] as int;
        if !(0 <= i0 < ps.len() && 0 <= i1 < ps.len() && 0 <= i2 < ps.len() && 0 <= i3
            < ps.len()) {
            old_v
        } else if !in_b(ps[i0], PLIM as int) || !in_b(ps[i1], PLIM as int) || !in_b(
            ps[i2],
            PLIM as int,
        ) || !in_b(ps[i3], PLIM as int) || abs_i(w.b0 as int) > SCALE as int || abs_i(
            w.b1 as int,
        ) > SCALE as int || abs_i(w.b2 as int) > SCALE as int {
            old_v
        } else {
            let b3 = SCALE as int - w.b0 - w.b1 - w.b2;
            v_add(
                v_add(v_scale(ps[i0], w.b0 as int), v_scale(ps[i1], w.b1 as int)),
                v_add(v_scale(ps[i2], w.b2 as int), v_scale(ps[i3], b3)),
            )
        }
    }
}

/// Recomputes every visual vertex from its skin record and the current
/// simulated positions, exactly as [`skinned_vertex`] states per vertex.
#[verifier::rlimit(60)]
pub fn update_visual_vertices(
    visual: &mut Vec<Vec3>,
    skin: &Vec<SkinWeight>,
    positions: &Vec<Vec3>,
    tet_ids: &Vec<usize>,
)
    requires
        old(visual)@.len() == skin@.len(),
    ensures
        final(visual)@.len() == old(visual)@.len(),
        forall|i: int|
            0 <= i < old(visual)@.len() ==> final(visual)@[i]@ == #[trigger] skinned_vertex(
                views(positions@),
                tet_ids@,
                skin@[i],
                old(visual)@[i]@,
            ),
{
    let ghost ps = views(positions@);
    let n = visual.len();
    let mut i: usize = 0;
    while i < n
        invariant
            n == old(visual)@.len(),
            visual@.len() == n,
            skin@.len() == n,
            ps == views(positions@),
            i <= n,
            forall|k: int| i <= k < n ==> visual@[k] == old(visual)@[k],
            forall|k: int|
                0 <= k < i ==> visual@[k]@ == #[trigger] skinned_vertex(
                    ps,
                    tet_ids@,
                    skin@[k],
                    old(visual)@[k]@,
                ),
        decreases n - i,
    {
        let w = skin[i];
        let old_v = visual[i];
        let nv = skin_one(w, old_v, positions, tet_ids);
        visual.set(i, nv);
        i += 1;
    }
}

/// One skinned vertex, as computed.
#[verifier::rlimit(60)]
fn skin_one(w: SkinWeight, old_v: Vec3, positions: &Vec<Vec3>, tet_ids: &Vec<usize>) -> (r: Vec3)
    ensures
        r@ == skinned_vertex(views(positions@), tet_ids@, w, old_v@),
{
    let ghost ps = views(positions@);
    let tn = tet_ids.len();
    let base = match w.tet.checked_mul(4) {
        Option::Some(b) => b,
        Option::None => {
            return old_v;
        },
    };
    if base >= tn || tn - base < 4 {
        return old_v;
    }
    let i0 = tet_ids[base];
    let i1 = tet_ids[base + 1];
    let i2 = tet_ids[base + 2];
    let i3 = tet_ids[base + 3];
    if !(i0 < positions.len() && i1 < positions.len() && i2 < positions.len() && i3
        < positions.len()) {
        return old_v;
    }
    let p0 = positions[i0];
    let p1 = positions[i1];
    let p2 = positions[i2];
    let p3 = positions[i3];
    proof {
        assert(ps[i0 as int] == positions@[i0 as int]@);
        assert(ps[i1 as int] == positions@[i1 as int]@);
        assert(ps[i2 as int] == positions@[i2 as int]@);
        assert(ps[i3 as int] == positions@[i3 as int]@);
    }
    if !(in_lim(p0, PLIM) && in_lim(p1, PLIM) && in_lim(p2, PLIM) && in_lim(p3, PLIM) && -SCALE
        <= w.b0 && w.b0 <= SCALE && -SCALE <= w.b1 && w.b1 <= SCALE && -SCALE <= w.b2 && w.b2
        <= SCALE) {
        return old_v;
    }
    let b3 = SCALE - w.b0 - w.b1 - w.b2;
    proof {
        crate::vec3::lemma_scale_bounds(p0@, w.b0 as int, PLIM as int, SCALE as int);
        crate::vec3::lemma_scale_bounds(p1@, w.b1 as int, PLIM as int, SCALE as int);
        crate::vec3::lemma_scale_bounds(p2@, w.b2 as int, PLIM as int, SCALE as int);
        crate::vec3::lemma_scale_bounds(p3@, b3 as int, PLIM as int, 4 * SCALE as int);
        lemma_mul_div_exact(PLIM as int, SCALE as int);
        assert((PLIM as int) * (4 * SCALE as int) == (4 * PLIM as int) * (SCALE as int))
            by (nonlinear_arith);
        lemma_mul_div_exact(4 * PLIM as int, SCALE as int);
    }
    let s0 = p0.scale(w.b0);
    let s1 = p1.scale(w.b1);
    let s2 = p2.scale(w.b2);
    let s3 = p3.scale(b3);
    s0.add(s1).add(s2.add(s3))
}

/// The edge matrix of tetrahedron `t`: its first three corners' offsets
/// from the fourth, as columns.
pub open spec fn edge_matrix(ps: Seq<V3>, i0: int, i1: int, i2: int, i3: int) -> Mat3 {
    Mat3 {
        m0: (ps[i0].x - ps[i3].x) as i64,
        m1: (ps[i0].y - ps[i3].y) as i64,
        m2: (ps[i0].z - ps[i3].z) as i64,
        m3: (ps[i1].x - ps[i3].x) as i64,
        m4: (ps[i1].y - ps[i3].y) as i64,
        m5: (ps[i1].z - ps[i3].z) as i64,
        m6: (ps[i2].x - ps[i3].x) as i64,
        m7: (ps[i2].y - ps[i3].y) as i64,
        m8: (ps[i2].z - ps[i3].z) as i64,
    }
}

/// The clamped barycentric weights that bind vertex `v` to tetrahedron
/// `t`: the inverted edge matrix applied to the vertex's offset from the
/// fourth corner. Out-of-range or invalid tetrahedra answer zero weights
/// (no record with them is ever produced).
pub open spec fn cand_weights(ps: Seq<V3>, tets: Seq<usize>, t: int, v: V3) -> (i64, i64, i64) {
    if !(0 <= t && 4 * t + 3 < tets.len()) {
        (0i64, 0i64, 0i64)
    } else {
        let i0 = tets[4 * t] as int;
        let i1 = tets[4 * t + 1] as int;
        let i2 = tets[4 * t + 2] as int;
        let i3 = tets[4 * t + 3] as int;
        if !(i0 < ps.len() && i1 < ps.len() && i2 < ps.len() && i3 < ps.len()) {
            (0i64, 0i64, 0i64)
        } else if !in_b(ps[i0], MATLIM as int) || !in_b(ps[i1], MATLIM as int) || !in_b(
            ps[i2],
            MATLIM as int,
        ) || !in_b(ps[i3], MATLIM as int) || !in_b(v, MATLIM as int) {
            (0i64, 0i64, 0i64)
        } else {
            let inv = mat_inv(edge_matrix(ps, i0, i1, i2, i3));
            let off = crate::vec3::v_sub(v, ps[i3]);
            let bary = mat_apply(inv, off);
            (
                clamp_weight(bary.x as i64),
                clamp_weight(bary.y as i64),
                clamp_weight(bary.z as i64),
            )
        }
    }
}

/// Computes the skin table binding each visual vertex to a simulated
/// tetrahedron: a spatial hash over the visual vertices lets each
/// tetrahedron search only its own neighbourhood, candidates get
/// barycentric coordinates from the inverted edge matrix, and each vertex
/// keeps the tetrahedron violating its coordinates least. Every returned
/// record either carries the marker of an unbound vertex (a tetrahedron
/// index past the list) or points at a whole quadruple of the list.
#[verifier::rlimit(100)]
pub fn compute_skinning_info(
    visual_vertices: &Vec<Vec3>,
    positions: &Vec<Vec3>,
    tet_ids: &Vec<usize>,
) -> (skin: Vec<SkinWeight>)
    requires
        forall|t: int| 0 <= t < tet_ids@.len() ==> #[trigger] tet_ids@[t] < positions@.len(),
    ensures
        skin@.len() == visual_vertices@.len(),
        forall|i: int|
            0 <= i < skin@.len() ==> 4 * (#[trigger] skin@[i].tet as int) + 3 < tet_ids@.len()
                || 4 * (skin@[i].tet as int) + 3 > usize::MAX,
        forall|i: int|
            0 <= i < skin@.len() && #[trigger] skin@[i].tet != usize::MAX ==> 4 * (
            skin@[i].tet as int) + 3 < tet_ids@.len() && (skin@[i].b0, skin@[i].b1, skin@[i].b2)
                == cand_weights(
                views(positions@),
                tet_ids@,
                skin@[i].tet as int,
                views(visual_vertices@)[i],
            ),
{
    let n_vis = visual_vertices.len();
    let total = tet_ids.len();
    let nt = total / 4;
    proof {
        vstd::arithmetic::div_mod::lemma_fundamental_div_mod(tet_ids@.len() as int, 4);
    }
    let mut skin: Vec<SkinWeight> = Vec::new();
    let mut min_dist: Vec<i128> = Vec::new();
    let mut i: usize = 0;
    while i < n_vis
        invariant
            i <= n_vis,
            skin@.len() == i,
            min_dist@.len() == i,
            forall|j: int|
                0 <= j < skin@.len() ==> #[trigger] skin@[j].tet == usize::MAX,
        decreases n_vis - i,
    {
        skin.push(SkinWeight { tet: usize::MAX, b0: 0, b1: 0, b2: 0 });
        min_dist.push(i128::MAX);
        i += 1;
    }
    proof {
        assert forall|j: int|
            0 <= j < skin@.len() implies 4 * (#[trigger] skin@[j].tet as int) + 3 > usize::MAX by {
            assert(skin@[j].tet == usize::MAX);
        }
    }
    if n_vis == 0 || nt == 0 || n_vis > usize::MAX / 4 {
        return skin;
    }
    let mut hash = crate::spatial_hash::SpatialHash::new(50_000, n_vis);
    hash.create(visual_vertices);

    let mut t: usize = 0;
    while t < nt
        invariant
            total == tet_ids@.len(),
            4 * nt <= total,
            tet_ids@.len() <= usize::MAX,
            forall|tt: int| 0 <= tt < tet_ids@.len() ==> #[trigger] tet_ids@[tt]
                < positions@.len(),
            n_vis == visual_vertices@.len(),
            n_vis >= 1,
            t <= nt,
            skin@.len() == n_vis,
            min_dist@.len() == n_vis,
            hash.wf(),
            forall|j: int|
                0 <= j < skin@.len() ==> 4 * (#[trigger] skin@[j].tet as int) + 3 < tet_ids@.len()
                    || 4 * (skin@[j].tet as int) + 3 > usize::MAX,
            forall|j: int|
                0 <= j < skin@.len() && #[trigger] skin@[j].tet != usize::MAX ==> 4 * (
                skin@[j].tet as int) + 3 < tet_ids@.len() && (skin@[j].b0, skin@[j].b1,
                skin@[j].b2) == cand_weights(views(positions@), tet_ids@, skin@[j].tet as int,
                    views(visual_vertices@)[j]),
        decreases nt - t,
    {
        proof {
            assert(4 * (t as int) + 3 < tet_ids@.len());
        }
        let id0 = tet_ids[4 * t];
        let id1 = tet_ids[4 * t + 1];
        let id2 = tet_ids[4 * t + 2];
        let id3 = tet_ids[4 * t + 3];
        let p0 = positions[id0];
        let p1 = positions[id1];
        let p2 = positions[id2];
        let p3 = positions[id3];
        if in_lim(p0, MATLIM) && in_lim(p1, MATLIM) && in_lim(p2, MATLIM) && in_lim(p3, MATLIM) {
            // Bounding sphere of the tetrahedron.
            let cx = div_i128(
                (p0.x as i128) + (p1.x as i128) + (p2.x as i128) + (p3.x as i128),
                4,
            ) as i64;
            let cy = div_i128(
                (p0.y as i128) + (p1.y as i128) + (p2.y as i128) + (p3.y as i128),
                4,
            ) as i64;
            let cz = div_i128(
                (p0.z as i128) + (p1.z as i128) + (p2.z as i128) + (p3.z as i128),
                4,
            ) as i64;
            let center = Vec3 { x: cx, y: cy, z: cz };
            if in_lim(center, MATLIM) {
                let border: i64 = 50_000;
                let r_max = max_corner_dist(center, p0, p1, p2, p3);
                let r_query = r_max + border;
                let probe = probe_point(center);
                hash.query(&probe, 0, r_query);
                // The inverted edge matrix turns offsets from the last
                // corner into barycentric coordinates.
                let mut mat = Mat3 {
                    m0: p0.x - p3.x,
                    m1: p0.y - p3.y,
                    m2: p0.z - p3.z,
                    m3: p1.x - p3.x,
                    m4: p1.y - p3.y,
                    m5: p1.z - p3.z,
                    m6: p2.x - p3.x,
                    m7: p2.y - p3.y,
                    m8: p2.z - p3.z,
                };
                let ghost ghost_em = mat;
                proof {
                    assert(views(positions@)[id0 as int] == positions@[id0 as int]@);
                    assert(views(positions@)[id1 as int] == positions@[id1 as int]@);
                    assert(views(positions@)[id2 as int] == positions@[id2 as int]@);
                    assert(views(positions@)[id3 as int] == positions@[id3 as int]@);
                    assert(ghost_em == edge_matrix(views(positions@), id0 as int, id1 as int,
                        id2 as int, id3 as int));
                }
                mat_set_inverse(&mut mat);
                let qn = hash.query_ids.len();
                let mut qi: usize = 0;
                while qi < qn
                    invariant
                        qn == hash.query_ids@.len(),
                        n_vis == visual_vertices@.len(),
                        total == tet_ids@.len(),
                        4 * (t as int) + 3 < tet_ids@.len(),
                        t < nt,
                        skin@.len() == n_vis,
                        min_dist@.len() == n_vis,
                        in_b(center@, MATLIM as int),
                        in_b(p3@, MATLIM as int),
                        0 <= r_query <= 3_500_050_000,
                        qi <= qn,
                        forall|j: int|
                            0 <= j < skin@.len() ==> 4 * (#[trigger] skin@[j].tet as int) + 3
                                < tet_ids@.len() || 4 * (skin@[j].tet as int) + 3 > usize::MAX,
                        forall|j: int|
                            0 <= j < skin@.len() && #[trigger] skin@[j].tet != usize::MAX ==> 4
                                * (skin@[j].tet as int) + 3 < tet_ids@.len() && (skin@[j].b0,
                            skin@[j].b1, skin@[j].b2) == cand_weights(views(positions@), tet_ids@,
                                skin@[j].tet as int, views(visual_vertices@)[j]),
                        ghost_em == edge_matrix(views(positions@), id0 as int, id1 as int,
                            id2 as int, id3 as int),
                        mat == mat_inv(ghost_em),
                        id0 == tet_ids@[4 * (t as int)],
                        id1 == tet_ids@[4 * (t as int) + 1],
                        id2 == tet_ids@[4 * (t as int) + 2],
                        id3 == tet_ids@[4 * (t as int) + 3],
                        in_b(views(positions@)[id0 as int], MATLIM as int),
                        in_b(views(positions@)[id1 as int], MATLIM as int),
                        in_b(views(positions@)[id2 as int], MATLIM as int),
                        in_b(views(positions@)[id3 as int], MATLIM as int),
                        id0 < positions@.len(),
                        id1 < positions@.len(),
                        id2 < positions@.len(),
                        id3 < positions@.len(),
                        p3 == positions@[id3 as int],
                    decreases qn - qi,
                {
                    let id = hash.query_ids[qi];
                    if id < n_vis && min_dist[id] > 0 {
                        let vv = visual_vertices[id];
                        if in_lim(vv, MATLIM) {
                            let d2c = vertex_dist2(vv, center);
                            proof {
                                assert((r_query as int) * (r_query as int) <= 3_500_050_000int
                                    * 3_500_050_000int) by (nonlinear_arith)
                                    requires 0 <= r_query <= 3_500_050_000i64;
                            }
                            if d2c <= (r_query as i128) * (r_query as i128) {
                                let off = Vec3 { x: vv.x - p3.x, y: vv.y - p3.y, z: vv.z - p3.z };
                                let bary = mat_set_mult(&mat, off);
                                if !in_lim(bary, 4_000_000_000_000) {
                                    qi += 1;
                                    continue ;
                                }
                                let b3 = SCALE - bary.x - bary.y - bary.z;
                                // The worst violated coordinate measures
                                // how far outside the tetrahedron the
                                // vertex sits.
                                let mut viol: i128 = -(bary.x as i128);
                                if -(bary.y as i128) > viol {
                                    viol = -(bary.y as i128);
                                }
                                if -(bary.z as i128) > viol {
                                    viol = -(bary.z as i128);
                                }
                                if -(b3 as i128) > viol {
                                    viol = -(b3 as i128);
                                }
                                if viol < min_dist[id] {
                                    min_dist.set(id, viol);
                                    let clamped = SkinWeight {
                                        tet: t,
                                        b0: clamp_w(bary.x),
                                        b1: clamp_w(bary.y),
                                        b2: clamp_w(bary.z),
                                    };
                                    proof {
                                        assert(views(visual_vertices@)[id as int]
                                            == visual_vertices@[id as int]@);
                                        assert((clamped.b0, clamped.b1, clamped.b2)
                                            == cand_weights(views(positions@), tet_ids@,
                                            t as int, views(visual_vertices@)[id as int]));
                                    }
                                    skin.set(id, clamped);
                                }
                            }
                        }
                    }
                    qi += 1;
                }
            }
        }
        t += 1;
    }
    skin
}

/// The largest distance from the centre to a corner.
fn max_corner_dist(center: Vec3, p0: Vec3, p1: Vec3, p2: Vec3, p3: Vec3) -> (r: i64)
    requires
        in_b(center@, MATLIM as int),
        in_b(p0@, MATLIM as int),
        in_b(p1@, MATLIM as int),
        in_b(p2@, MATLIM as int),
        in_b(p3@, MATLIM as int),
    ensures
        0 <= r <= 3_500_000_000,
{
    proof {
        lemma_dist_small(center@, p0@);
        lemma_dist_small(center@, p1@);
        lemma_dist_small(center@, p2@);
        lemma_dist_small(center@, p3@);
    }
    let mut r_max: i64 = 0;
    let d0 = center.dist(p0);
    if d0 > r_max {
        r_max = d0;
    }
    let d1 = center.dist(p1);
    if d1 > r_max {
        r_max = d1;
    }
    let d2 = center.dist(p2);
    if d2 > r_max {
        r_max = d2;
    }
    let d3 = center.dist(p3);
    if d3 > r_max {
        r_max = d3;
    }
    r_max
}

/// A one-point buffer for querying the hash around an arbitrary point.
fn probe_point(p: Vec3) -> (r: Vec<Vec3>)
    ensures
        r@.len() == 1,
        r@[0] == p,
{
    let mut r: Vec<Vec3> = Vec::new();
    r.push(p);
    r
}

/// A barycentric weight clipped into the range the skin application
/// accepts.
pub open spec fn clamp_weight(b: i64) -> i64 {
    if b > SCALE {
        SCALE
    } else if b < -SCALE {
        (-SCALE) as i64
    } else {
        b
    }
}

/// The clip, as computed.
fn clamp_w(b: i64) -> (r: i64)
    ensures
        r == clamp_weight(b),
        -SCALE <= r <= SCALE,
{
    if b > SCALE {
        SCALE
    } else if b < -SCALE {
        -SCALE
    } else {
        b
    }
}

/// The squared distance between two range-checked vertices.
fn vertex_dist2(a: Vec3, c: Vec3) -> (r: i128)
    requires
        in_b(a@, MATLIM as int),
        in_b(c@, MATLIM as int),
    ensures
        r >= 0,
{
    let dx = (a.x as i128) - (c.x as i128);
    let dy = (a.y as i128) - (c.y as i128);
    let dz = (a.z as i128) - (c.z as i128);
    proof {
        lemma_mul_bound(a@.x - c@.x, a@.x - c@.x, 2 * MATLIM as int, 2 * MATLIM as int);
        lemma_mul_bound(a@.y - c@.y, a@.y - c@.y, 2 * MATLIM as int, 2 * MATLIM as int);
        lemma_mul_bound(a@.z - c@.z, a@.z - c@.z, 2 * MATLIM as int, 2 * MATLIM as int);
        assert((a@.x - c@.x) * (a@.x - c@.x) >= 0) by (nonlinear_arith);
        assert((a@.y - c@.y) * (a@.y - c@.y) >= 0) by (nonlinear_arith);
        assert((a@.z - c@.z) * (a@.z - c@.z) >= 0) by (nonlinear_arith);
    }
    dx * dx + dy * dy + dz * dz
}

/// Distances between range-checked corners stay far below the scalar cap.
proof fn lemma_dist_small(a: V3, b: V3)
    requires
        in_b(a, MATLIM as int),
        in_b(b, MATLIM as int),
    ensures
        crate::vec3::v_len(crate::vec3::v_sub(a, b)) <= 3_500_000_000,
{
    let d = crate::vec3::v_sub(a, b);
    crate::vec3::lemma_len2_nonneg(d);
    crate::fixed::lemma_sqrt_exists(crate::vec3::v_len2(d));
    lemma_mul_bound(d.x, d.x, 2 * MATLIM as int, 2 * MATLIM as int);
    lemma_mul_bound(d.y, d.y, 2 * MATLIM as int, 2 * MATLIM as int);
    lemma_mul_bound(d.z, d.z, 2 * MATLIM as int, 2 * MATLIM as int);
    assert(3 * ((2 * MATLIM as int) * (2 * MATLIM as int)) <= 3_500_000_000int
        * 3_500_000_000int) by (nonlinear_arith)
        requires MATLIM == 1_000_000_000i64;
    crate::fixed::lemma_sqrt_le(
        crate::vec3::v_len2(d),
        crate::vec3::v_len(d),
        3_500_000_000,
    );
}

} // verus!
