//! Three-component fixed-point vectors.
//!
//! The executable type [`Vec3`] holds raw `i64` scalars (see [`crate::fixed`]);
//! its mathematical view [`V3`] holds unbounded integers, and every vector
//! operation is specified exactly over that view.

use vstd::prelude::*;

verus! {

use crate::fixed::{SCALE, tdiv, fxmul, fxdiv, abs_i, is_sqrt, sqrt_i, div_i128, isqrt_u128,
    lemma_tdiv_bound, lemma_mul_bound, lemma_sqrt_exists, lemma_sqrt_unique};
use vstd::arithmetic::div_mod::lemma_div_is_ordered;

/// A fixed-point vector: each component is a raw scalar in millionths.
#[derive(Clone, Copy, PartialEq, Eq, Structural, Debug)]
pub struct Vec3 {
    pub x: i64,
    pub y: i64,
    pub z: i64,
}

/// The mathematical value of a [`Vec3`]: three unbounded integers.
pub ghost struct V3 {
    pub x: int,
    pub y: int,
    pub z: int,
}

impl View for Vec3 {
    type V = V3;

    open spec fn view(&self) -> V3 {
        V3 { x: self.x as int, y: self.y as int, z: self.z as int }
    }
}

/// Componentwise sum.
pub open spec fn v_add(a: V3, b: V3) -> V3 {
    V3 { x: a.x + b.x, y: a.y + b.y, z: a.z + b.z }
}

/// Componentwise difference.
pub open spec fn v_sub(a: V3, b: V3) -> V3 {
    V3 { x: a.x - b.x, y: a.y - b.y, z: a.z - b.z }
}

/// Fixed-point scaling of each component by the raw scalar `s`.
pub open spec fn v_scale(a: V3, s: int) -> V3 {
    V3 { x: fxmul(a.x, s), y: fxmul(a.y, s), z: fxmul(a.z, s) }
}

/// Fixed-point division of each component by the raw scalar `s`.
pub open spec fn v_div(a: V3, s: int) -> V3 {
    V3 { x: fxdiv(a.x, s), y: fxdiv(a.y, s), z: fxdiv(a.z, s) }
}

/// Fixed-point dot product of `a` and `b`.
pub open spec fn v_dot(a: V3, b: V3) -> int {
    tdiv(a.x * b.x + a.y * b.y + a.z * b.z, SCALE as int)
}

/// Fixed-point cross product of `a` and `b`.
pub open spec fn v_cross(a: V3, b: V3) -> V3 {
    V3 {
        x: tdiv(a.y * b.z - a.z * b.y, SCALE as int),
        y: tdiv(a.z * b.x - a.x * b.z, SCALE as int),
        z: tdiv(a.x * b.y - a.y * b.x, SCALE as int),
    }
}

/// Sum of squared raw components; the squared length carries scale
/// `SCALE * SCALE`.
pub open spec fn v_len2(a: V3) -> int {
    a.x * a.x + a.y * a.y + a.z * a.z
}

/// Raw length: the integer square root of the squared length.
pub open spec fn v_len(a: V3) -> int {
    sqrt_i(v_len2(a))
}

/// Every component's magnitude is at most `b`.
pub open spec fn in_b(a: V3, b: int) -> bool {
    &&& abs_i(a.x) <= b
    &&& abs_i(a.y) <= b
    &&& abs_i(a.z) <= b
}

/// Magnitude cap under which every vector operation below is free of
/// overflow: one and a half million units.
pub const VLIM: i64 = 1_600_000_000_000;

impl Vec3 {
    /// The zero vector.
    pub fn zero() -> (r: Vec3)
        ensures
            r@ == (V3 { x: 0, y: 0, z: 0 }),
    {
        Vec3 { x: 0, y: 0, z: 0 }
    }

    /// Builds a vector from raw components.
    pub fn new(x: i64, y: i64, z: i64) -> (r: Vec3)
        ensures
            r@ == (V3 { x: x as int, y: y as int, z: z as int }),
    {
        Vec3 { x, y, z }
    }

    /// Componentwise sum.
    pub fn add(self, b: Vec3) -> (r: Vec3)
        requires
            in_b(self@, VLIM as int),
            in_b(b@, VLIM as int),
        ensures
            r@ == v_add(self@, b@),
    {
        Vec3 { x: self.x + b.x, y: self.y + b.y, z: self.z + b.z }
    }

    /// Componentwise difference.
    pub fn sub(self, b: Vec3) -> (r: Vec3)
        requires
            in_b(self@, VLIM as int),
            in_b(b@, VLIM as int),
        ensures
            r@ == v_sub(self@, b@),
    {
        Vec3 { x: self.x - b.x, y: self.y - b.y, z: self.z - b.z }
    }

    /// Fixed-point scaling by the raw scalar `s`.
    pub fn scale(self, s: i64) -> (r: Vec3)
        requires
            in_b(self@, VLIM as int),
            abs_i(s as int) <= VLIM as int,
        ensures
            r@ == v_scale(self@, s as int),
    {
        proof {
            lemma_scale_bounds(self@, s as int, VLIM as int, VLIM as int);
        }
        Vec3 {
            x: crate::fixed::fx_mul(self.x, s),
            y: crate::fixed::fx_mul(self.y, s),
            z: crate::fixed::fx_mul(self.z, s),
        }
    }

    /// Fixed-point division of each component by the raw scalar `s`.
    pub fn div(self, s: i64) -> (r: Vec3)
        requires
            s != 0,
            in_b(self@, VLIM as int),
        ensures
            r@ == v_div(self@, s as int),
    {
        proof {
            lemma_div_bounds(self@, s as int, VLIM as int);
        }
        Vec3 {
            x: crate::fixed::fx_div(self.x, s),
            y: crate::fixed::fx_div(self.y, s),
            z: crate::fixed::fx_div(self.z, s),
        }
    }

    /// Fixed-point dot product.
    pub fn dot(self, b: Vec3) -> (r: i64)
        requires
            in_b(self@, VLIM as int),
            in_b(b@, VLIM as int),
        ensures
            r == v_dot(self@, b@),
    {
        proof {
            lemma_dot_bounds(self@, b@, VLIM as int, VLIM as int);
        }
        let p: i128 = (self.x as i128) * (b.x as i128) + (self.y as i128) * (b.y as i128)
            + (self.z as i128) * (b.z as i128);
        let q = div_i128(p, SCALE as i128);
        q as i64
    }

    /// Fixed-point cross product.
    pub fn cross(self, b: Vec3) -> (r: Vec3)
        requires
            in_b(self@, VLIM as int),
            in_b(b@, VLIM as int),
        ensures
            r@ == v_cross(self@, b@),
            in_b(r@, 2 * VLIM as int * VLIM as int / SCALE as int),
    {
        proof {
            lemma_cross_bounds(self@, b@, VLIM as int, VLIM as int);
            lemma_mul_bound(self@.y, b@.z, VLIM as int, VLIM as int);
            lemma_mul_bound(self@.z, b@.y, VLIM as int, VLIM as int);
            lemma_mul_bound(self@.z, b@.x, VLIM as int, VLIM as int);
            lemma_mul_bound(self@.x, b@.z, VLIM as int, VLIM as int);
            lemma_mul_bound(self@.x, b@.y, VLIM as int, VLIM as int);
            lemma_mul_bound(self@.y, b@.x, VLIM as int, VLIM as int);
        }
        let x = div_i128((self.y as i128) * (b.z as i128) - (self.z as i128) * (b.y as i128),
            SCALE as i128);
        let y = div_i128((self.z as i128) * (b.x as i128) - (self.x as i128) * (b.z as i128),
            SCALE as i128);
        let z = div_i128((self.x as i128) * (b.y as i128) - (self.y as i128) * (b.x as i128),
            SCALE as i128);
        Vec3 { x: x as i64, y: y as i64, z: z as i64 }
    }

    /// Raw length: the integer square root of the squared length.
    pub fn length(self) -> (r: i64)
        requires
            in_b(self@, VLIM as int),
        ensures
            r as int == v_len(self@),
            is_sqrt(v_len2(self@), r as int),
            r >= 0,
    {
        proof {
            lemma_mul_bound(self@.x, self@.x, VLIM as int, VLIM as int);
            lemma_mul_bound(self@.y, self@.y, VLIM as int, VLIM as int);
            lemma_mul_bound(self@.z, self@.z, VLIM as int, VLIM as int);
            assert(self@.x * self@.x >= 0) by (nonlinear_arith);
            assert(self@.y * self@.y >= 0) by (nonlinear_arith);
            assert(self@.z * self@.z >= 0) by (nonlinear_arith);
        }
        let p: i128 = (self.x as i128) * (self.x as i128) + (self.y as i128) * (self.y as i128)
            + (self.z as i128) * (self.z as i128);
        let r = isqrt_u128(p as u128);
        proof {
            let n = v_len2(self@);
            assert(is_sqrt(n, r as int));
            assert((VLIM as int) * (VLIM as int) * 3 < (10_000_000_000_000) * (10_000_000_000_000))
               ;
            assert(r as int * r as int <= n);
            assert(r as int <= 10_000_000_000_000) by (nonlinear_arith)
                requires
                    r as int * r as int <= n,
                    n < 10_000_000_000_000int * 10_000_000_000_000,
                    r >= 0,
            ;
            lemma_sqrt_exists(n);
            lemma_sqrt_unique(n, r as int, sqrt_i(n));
        }
        r as i64
    }

    /// Raw distance between `self` and `b`.
    pub fn dist(self, b: Vec3) -> (r: i64)
        requires
            in_b(self@, VLIM as int),
            in_b(b@, VLIM as int),
        ensures
            r as int == v_len(v_sub(self@, b@)),
            r >= 0,
    {
        proof {
            lemma_sub_in_b(self@, b@, VLIM as int);
        }
        let d = Vec3 { x: self.x - b.x, y: self.y - b.y, z: self.z - b.z };
        proof {
            lemma_mul_bound(d@.x, d@.x, 2 * VLIM as int, 2 * VLIM as int);
            lemma_mul_bound(d@.y, d@.y, 2 * VLIM as int, 2 * VLIM as int);
            lemma_mul_bound(d@.z, d@.z, 2 * VLIM as int, 2 * VLIM as int);
            assert(d@.x * d@.x >= 0) by (nonlinear_arith);
            assert(d@.y * d@.y >= 0) by (nonlinear_arith);
            assert(d@.z * d@.z >= 0) by (nonlinear_arith);
        }
        let p: i128 = (d.x as i128) * (d.x as i128) + (d.y as i128) * (d.y as i128)
            + (d.z as i128) * (d.z as i128);
        let r = isqrt_u128(p as u128);
        proof {
            let n = v_len2(d@);
            assert(n < 0x7fffffffffffffff * 0x7fffffffffffffff);
            lemma_sqrt_exists(n);
            lemma_sqrt_unique(n, r as int, sqrt_i(n));
            assert(r as int * r as int <= n);
            assert(r as int <= 0x7fffffffffffffff) by (nonlinear_arith)
                requires
                    r as int * r as int <= n,
                    n < 0x7fffffffffffffff * 0x7fffffffffffffff,
                    r >= 0,
            ;
        }
        r as i64
    }
}

/// The squared length is never negative.
pub proof fn lemma_len2_nonneg(a: V3)
    ensures
        v_len2(a) >= 0,
{
    assert(a.x * a.x >= 0) by (nonlinear_arith);
    assert(a.y * a.y >= 0) by (nonlinear_arith);
    assert(a.z * a.z >= 0) by (nonlinear_arith);
}

/// No component's magnitude exceeds the vector's length.
pub proof fn lemma_comp_le_len(a: V3)
    ensures
        is_sqrt(v_len2(a), v_len(a)),
        abs_i(a.x) <= v_len(a),
        abs_i(a.y) <= v_len(a),
        abs_i(a.z) <= v_len(a),
{
    lemma_len2_nonneg(a);
    lemma_sqrt_exists(v_len2(a));
    let l = v_len(a);
    assert(abs_i(a.x) <= l && abs_i(a.y) <= l && abs_i(a.z) <= l) by (nonlinear_arith)
        requires
            0 <= l,
            l * l <= v_len2(a),
            v_len2(a) < (l + 1) * (l + 1),
            v_len2(a) == a.x * a.x + a.y * a.y + a.z * a.z,
    ;
}

/// A vector divided by its own length has components of magnitude at most
/// one (a raw `SCALE`).
pub proof fn lemma_unit_bound(d: V3, len: int)
    requires
        is_sqrt(v_len2(d), len),
        len >= 1,
    ensures
        in_b(v_div(d, len), SCALE as int),
{
    lemma_comp_le_len_given(d, len);
    lemma_unit_comp(d.x, len);
    lemma_unit_comp(d.y, len);
    lemma_unit_comp(d.z, len);
}

/// One component of a unit vector: `|c * SCALE / len| <= SCALE` when
/// `|c| <= len`.
proof fn lemma_unit_comp(c: int, len: int)
    requires
        abs_i(c) <= len,
        len >= 1,
    ensures
        abs_i(fxdiv(c, len)) <= SCALE as int,
{
    lemma_mul_bound(c, SCALE as int, len, SCALE as int);
    lemma_shrink_by(c * SCALE as int, len * SCALE as int, len);
    lemma_mul_div_exact(SCALE as int, len);
    assert(len * SCALE as int == SCALE as int * len) by (nonlinear_arith);
}

/// Dividing a magnitude below `m` by `b` lands below `m / b`.
pub proof fn lemma_shrink_by(a: int, m: int, b: int)
    requires
        abs_i(a) <= m,
        0 <= m,
        b >= 1,
    ensures
        abs_i(tdiv(a, b)) <= m / b,
{
    if a > 0 {
        lemma_div_is_ordered(a, m, b);
        vstd::arithmetic::div_mod::lemma_div_pos_is_pos(a, b);
    } else if a < 0 {
        lemma_div_is_ordered(a * -1, m, b);
        vstd::arithmetic::div_mod::lemma_div_pos_is_pos(a * -1, b);
    } else {
        vstd::arithmetic::div_mod::lemma_div_pos_is_pos(0, b);
        lemma_div_is_ordered(0, m, b);
    }
}

/// A multiple of `b` divides by `b` exactly.
pub proof fn lemma_mul_div_exact(q: int, b: int)
    requires
        b >= 1,
        q >= 0,
    ensures
        (q * b) / b == q,
{
    vstd::arithmetic::div_mod::lemma_fundamental_div_mod_converse(q * b, b, q, 0);
}

/// Component bounds from a known length witness.
pub proof fn lemma_comp_le_len_given(a: V3, l: int)
    requires
        is_sqrt(v_len2(a), l),
    ensures
        abs_i(a.x) <= l,
        abs_i(a.y) <= l,
        abs_i(a.z) <= l,
{
    assert(abs_i(a.x) <= l && abs_i(a.y) <= l && abs_i(a.z) <= l) by (nonlinear_arith)
        requires
            0 <= l,
            l * l <= v_len2(a),
            v_len2(a) < (l + 1) * (l + 1),
            v_len2(a) == a.x * a.x + a.y * a.y + a.z * a.z,
    ;
}

/// Scaling a unit-bounded direction by a raw factor stays within that
/// factor's magnitude.
pub proof fn lemma_scale_unit(dir: V3, s: int)
    requires
        in_b(dir, SCALE as int),
    ensures
        in_b(v_scale(dir, s), abs_i(s)),
{
    lemma_scale_unit_comp(dir.x, s);
    lemma_scale_unit_comp(dir.y, s);
    lemma_scale_unit_comp(dir.z, s);
}

proof fn lemma_scale_unit_comp(c: int, s: int)
    requires
        abs_i(c) <= SCALE as int,
    ensures
        abs_i(fxmul(c, s)) <= abs_i(s),
{
    lemma_mul_bound(c, s, SCALE as int, abs_i(s));
    assert((SCALE as int) * abs_i(s) == abs_i(s) * (SCALE as int)) by (nonlinear_arith);
    lemma_shrink_by(c * s, abs_i(s) * SCALE as int, SCALE as int);
    lemma_mul_div_exact(abs_i(s), SCALE as int);
}

/// The difference of two vectors bounded by `b` is bounded by `2 * b`.
pub proof fn lemma_sub_in_b(a: V3, c: V3, b: int)
    requires
        in_b(a, b),
        in_b(c, b),
    ensures
        in_b(v_sub(a, c), 2 * b),
{
}

/// Scaling a vector bounded by `ba` with a scalar bounded by `bs` stays
/// within `ba * bs / SCALE` per component, hence within `i64` range for
/// bounds up to [`VLIM`].
pub proof fn lemma_scale_bounds(a: V3, s: int, ba: int, bs: int)
    requires
        in_b(a, ba),
        abs_i(s) <= bs,
        0 <= ba <= VLIM as int,
        0 <= bs <= VLIM as int,
    ensures
        i64::MIN <= fxmul(a.x, s) <= i64::MAX,
        i64::MIN <= fxmul(a.y, s) <= i64::MAX,
        i64::MIN <= fxmul(a.z, s) <= i64::MAX,
        in_b(v_scale(a, s), ba * bs / SCALE as int),
{
    lemma_mul_bound(a.x, s, ba, bs);
    lemma_mul_bound(a.y, s, ba, bs);
    lemma_mul_bound(a.z, s, ba, bs);
    assert(ba * bs <= VLIM as int * VLIM as int) by (nonlinear_arith)
        requires 0 <= ba <= VLIM as int, 0 <= bs <= VLIM as int;
    assert(ba * bs >= 0) by (nonlinear_arith)
        requires ba >= 0, bs >= 0;
    lemma_tdiv_scale_shrink(a.x * s, ba * bs);
    lemma_tdiv_scale_shrink(a.y * s, ba * bs);
    lemma_tdiv_scale_shrink(a.z * s, ba * bs);
    assert((VLIM as int) * (VLIM as int) / (SCALE as int) < i64::MAX);
    vstd::arithmetic::div_mod::lemma_div_is_ordered(ba * bs, (VLIM as int) * (VLIM as int),
        SCALE as int);
}

/// Division of components bounded by `VLIM` stays within `i64` range.
pub proof fn lemma_div_bounds(a: V3, s: int, ba: int)
    requires
        in_b(a, ba),
        0 <= ba <= VLIM as int,
        s != 0,
    ensures
        i64::MIN <= fxdiv(a.x, s) <= i64::MAX,
        i64::MIN <= fxdiv(a.y, s) <= i64::MAX,
        i64::MIN <= fxdiv(a.z, s) <= i64::MAX,
{
    lemma_fxdiv_range(a.x, s);
    lemma_fxdiv_range(a.y, s);
    lemma_fxdiv_range(a.z, s);
}

/// `a * SCALE / s` stays within `i64` range for `|a| <= VLIM`.
proof fn lemma_fxdiv_range(a: int, s: int)
    requires
        abs_i(a) <= VLIM as int,
        s != 0,
    ensures
        i64::MIN <= fxdiv(a, s) <= i64::MAX,
{
    lemma_mul_bound(a, SCALE as int, VLIM as int, SCALE as int);
    lemma_tdiv_bound(a * SCALE as int, s);
    assert((VLIM as int) * (SCALE as int) < i64::MAX);
}

/// The dot product of vectors bounded by `ba`, `bb` stays within range.
pub proof fn lemma_dot_bounds(a: V3, b: V3, ba: int, bb: int)
    requires
        in_b(a, ba),
        in_b(b, bb),
        0 <= ba <= VLIM as int,
        0 <= bb <= VLIM as int,
    ensures
        abs_i(a.x * b.x) + abs_i(a.y * b.y) + abs_i(a.z * b.z) <= 3 * VLIM as int * VLIM as int,
        i64::MIN <= v_dot(a, b) <= i64::MAX,
        i128::MIN <= a.x * b.x + a.y * b.y + a.z * b.z <= i128::MAX,
{
    lemma_mul_bound(a.x, b.x, ba, bb);
    lemma_mul_bound(a.y, b.y, ba, bb);
    lemma_mul_bound(a.z, b.z, ba, bb);
    assert(ba * bb <= VLIM as int * VLIM as int) by (nonlinear_arith)
        requires 0 <= ba <= VLIM as int, 0 <= bb <= VLIM as int;
    assert(3 * ((VLIM as int) * (VLIM as int)) < (i64::MAX as int) * (SCALE as int));
    lemma_tdiv_bound(a.x * b.x + a.y * b.y + a.z * b.z, SCALE as int);
    lemma_tdiv_scale_shrink(a.x * b.x + a.y * b.y + a.z * b.z, 3 * VLIM as int * VLIM as int);
}

/// Dividing a magnitude below `m` by `SCALE` lands below `m / SCALE + 1`.
proof fn lemma_tdiv_scale_shrink(a: int, m: int)
    requires
        abs_i(a) <= m,
        0 <= m,
    ensures
        abs_i(tdiv(a, SCALE as int)) <= m / SCALE as int,
{
    if a > 0 {
        lemma_div_is_ordered(a, m, SCALE as int);
        vstd::arithmetic::div_mod::lemma_div_pos_is_pos(a, SCALE as int);
    } else if a < 0 {
        lemma_div_is_ordered(a * -1, m, SCALE as int);
        vstd::arithmetic::div_mod::lemma_div_pos_is_pos(a * -1, SCALE as int);
    } else {
        vstd::arithmetic::div_mod::lemma_div_pos_is_pos(0, SCALE as int);
        lemma_div_is_ordered(0, m, SCALE as int);
    }
}

/// Cross-product components of vectors bounded by `ba`, `bb` stay within
/// range, and within `2 * VLIM * VLIM / SCALE`.
pub proof fn lemma_cross_bounds(a: V3, b: V3, ba: int, bb: int)
    requires
        in_b(a, ba),
        in_b(b, bb),
        0 <= ba <= VLIM as int,
        0 <= bb <= VLIM as int,
    ensures
        in_b(v_cross(a, b), 2 * VLIM as int * VLIM as int / SCALE as int),
        i64::MIN <= v_cross(a, b).x <= i64::MAX,
        i64::MIN <= v_cross(a, b).y <= i64::MAX,
        i64::MIN <= v_cross(a, b).z <= i64::MAX,
        abs_i(a.y * b.z - a.z * b.y) <= 2 * VLIM as int * VLIM as int,
        abs_i(a.z * b.x - a.x * b.z) <= 2 * VLIM as int * VLIM as int,
        abs_i(a.x * b.y - a.y * b.x) <= 2 * VLIM as int * VLIM as int,
{
    lemma_mul_bound(a.y, b.z, ba, bb);
    lemma_mul_bound(a.z, b.y, ba, bb);
    lemma_mul_bound(a.z, b.x, ba, bb);
    lemma_mul_bound(a.x, b.z, ba, bb);
    lemma_mul_bound(a.x, b.y, ba, bb);
    lemma_mul_bound(a.y, b.x, ba, bb);
    assert(ba * bb <= VLIM as int * VLIM as int) by (nonlinear_arith)
        requires 0 <= ba <= VLIM as int, 0 <= bb <= VLIM as int;
    let m = 2 * VLIM as int * VLIM as int;
    lemma_tdiv_scale_shrink(a.y * b.z - a.z * b.y, m);
    lemma_tdiv_scale_shrink(a.z * b.x - a.x * b.z, m);
    lemma_tdiv_scale_shrink(a.x * b.y - a.y * b.x, m);
    assert(m / (SCALE as int) < i64::MAX);
}

} // verus!
