//! Fixed-point scalar arithmetic.
//!
//! A scalar is an `i64` raw value counting millionths of a unit: the value
//! `x` is represented by `x * SCALE`. Multiplication and division divide by
//! or multiply with `SCALE` and round toward zero, exactly as stated by
//! [`tdiv`]. Square roots are exact integer square roots.

use vstd::prelude::*;

verus! {

use vstd::arithmetic::div_mod::{
    lemma_div_nonincreasing,
    lemma_div_pos_is_pos,
    lemma_fundamental_div_mod,
};

/// Raw units per one: a raw value of `SCALE` is the scalar one.
pub const SCALE: i64 = 1_000_000;

/// Quotient of `a` by `b`, rounded toward zero (the rounding used by
/// machine signed division). Unspecified when `b == 0`.
pub open spec fn tdiv(a: int, b: int) -> int {
    if a == 0 {
        0
    } else if a > 0 && b > 0 {
        a / b
    } else if a < 0 && b < 0 {
        (a * -1) / (b * -1)
    } else if a < 0 {
        ((a * -1) / b) * -1
    } else {
        (a / (b * -1)) * -1
    }
}

/// The fixed-point product of raw values `a` and `b`.
pub open spec fn fxmul(a: int, b: int) -> int {
    tdiv(a * b, SCALE as int)
}

/// The fixed-point quotient of raw values `a` and `b`.
pub open spec fn fxdiv(a: int, b: int) -> int {
    tdiv(a * SCALE, b)
}

/// `r` is the integer square root of `x`.
pub open spec fn is_sqrt(x: int, r: int) -> bool {
    &&& 0 <= r
    &&& r * r <= x
    &&& x < (r + 1) * (r + 1)
}

/// The integer square root of `x`, for `x >= 0`.
pub open spec fn sqrt_i(x: int) -> int {
    choose|r: int| is_sqrt(x, r)
}

/// Truncated division never grows the magnitude.
pub proof fn lemma_tdiv_bound(a: int, b: int)
    requires
        b != 0,
    ensures
        -abs_i(a) <= tdiv(a, b) <= abs_i(a),
        abs_i(tdiv(a, b)) <= abs_i(a),
        a >= 0 && b > 0 ==> 0 <= tdiv(a, b) <= a,
        a <= 0 && b > 0 ==> a <= tdiv(a, b) <= 0,
{
    let p = abs_i(a);
    let q = abs_i(b);
    if a != 0 {
        lemma_div_nonincreasing(p, q);
        lemma_div_pos_is_pos(p, q);
    }
}

/// Dividing a product `k * q` by `k` gives back `q` exactly.
pub proof fn lemma_tdiv_exact(q: int, k: int)
    requires
        k > 0,
    ensures
        tdiv(k * q, k) == q,
{
    if q > 0 {
        lemma_div_multiple(q, k);
    } else if q < 0 {
        assert((k * q) * -1 == k * (q * -1)) by (nonlinear_arith);
        lemma_div_multiple(q * -1, k);
    }
}

/// `(k * q) / k == q` for positive `q` and `k` (Euclidean division).
proof fn lemma_div_multiple(q: int, k: int)
    requires
        q > 0,
        k > 0,
    ensures
        (k * q) / k == q,
{
    lemma_fundamental_div_mod(k * q, k);
    let r = (k * q) % k;
    let d = (k * q) / k;
    assert(k * q == k * d + r);
    assert(k * (q - d) == r) by (nonlinear_arith)
        requires k * q == k * d + r;
    if d < q {
        assert(k * (q - d) >= k) by (nonlinear_arith)
            requires k > 0, q - d >= 1;
    }
    if d > q {
        assert(k * (q - d) <= -k) by (nonlinear_arith)
            requires k > 0, q - d <= -1;
    }
}

/// A square root below a squared cap is below the cap.
pub proof fn lemma_sqrt_le(n: int, r: int, cap: int)
    requires
        is_sqrt(n, r),
        0 <= cap,
        n <= cap * cap,
    ensures
        r <= cap,
{
    if r > cap {
        assert((cap + 1) * (cap + 1) <= r * r) by (nonlinear_arith)
            requires 0 <= cap, cap + 1 <= r;
        assert(cap * cap < (cap + 1) * (cap + 1)) by (nonlinear_arith)
            requires 0 <= cap;
    }
}

/// Magnitude of `a`, as an `int`.
pub open spec fn abs_i(a: int) -> int {
    if a >= 0 {
        a
    } else {
        -a
    }
}

/// Bounds on factors bound the product.
pub proof fn lemma_mul_bound(a: int, b: int, ca: int, cb: int)
    requires
        abs_i(a) <= ca,
        abs_i(b) <= cb,
    ensures
        abs_i(a * b) <= ca * cb,
    {
    assert(abs_i(a * b) <= ca * cb) by (nonlinear_arith)
        requires abs_i(a) <= ca, abs_i(b) <= cb;
}

/// An integer square root exists for every nonnegative argument.
pub proof fn lemma_sqrt_exists(x: int)
    requires
        x >= 0,
    ensures
        is_sqrt(x, sqrt_i(x)),
    decreases x,
{
    if x == 0 {
        assert(is_sqrt(0, 0));
    } else {
        lemma_sqrt_exists(x - 1);
        let r = sqrt_i(x - 1);
        assert(is_sqrt(x - 1, r));
        if x < (r + 1) * (r + 1) {
            assert(is_sqrt(x, r));
        } else {
            assert((r + 1) * (r + 1) < (r + 2) * (r + 2)) by (nonlinear_arith)
                requires r >= 0;
            assert(is_sqrt(x, r + 1));
        }
    }
}

/// Integer square roots are unique.
pub proof fn lemma_sqrt_unique(x: int, r: int, q: int)
    requires
        is_sqrt(x, r),
        is_sqrt(x, q),
    ensures
        r == q,
{
    if r < q {
        assert((r + 1) * (r + 1) <= q * q) by (nonlinear_arith)
            requires 0 <= r, r + 1 <= q;
    }
    if q < r {
        assert((q + 1) * (q + 1) <= r * r) by (nonlinear_arith)
            requires 0 <= q, q + 1 <= r;
    }
}

/// Truncated division of `a` by `b`, both machine words, without overflow.
pub fn div_i128(a: i128, b: i128) -> (r: i128)
    requires
        b != 0,
        i128::MIN <= tdiv(a as int, b as int) <= i128::MAX,
    ensures
        r == tdiv(a as int, b as int),
{
    let r = a.checked_div(b);
    match r {
        Some(v) => v,
        None => {
            proof {
                assert(false);
            }
            0
        },
    }
}

/// Fixed-point product: `a * b / SCALE`, rounded toward zero.
pub fn fx_mul(a: i64, b: i64) -> (r: i64)
    requires
        i64::MIN <= fxmul(a as int, b as int) <= i64::MAX,
    ensures
        r == fxmul(a as int, b as int),
{
    let p: i128 = (a as i128) * (b as i128);
    let q = div_i128(p, SCALE as i128);
    q as i64
}

/// Fixed-point quotient: `a * SCALE / b`, rounded toward zero.
pub fn fx_div(a: i64, b: i64) -> (r: i64)
    requires
        b != 0,
        i64::MIN <= fxdiv(a as int, b as int) <= i64::MAX,
    ensures
        r == fxdiv(a as int, b as int),
{
    let p: i128 = (a as i128) * (SCALE as i128);
    let q = div_i128(p, b as i128);
    q as i64
}

/// Integer square root of `x` by bisection.
pub fn isqrt_u128(x: u128) -> (r: u64)
    ensures
        is_sqrt(x as int, r as int),
        r == sqrt_i(x as int),
{
    let mut lo: u128 = 0;
    let mut hi: u128 = 1u128 << 64;
    proof {
        assert((1u128 << 64) == 0x10000000000000000) by (bit_vector);
        assert(x < 0x10000000000000000 * 0x10000000000000000);
    }
    while lo + 1 < hi
        invariant
            0 <= lo < hi <= 0x10000000000000000,
            lo * lo <= x,
            x < hi * hi,
        decreases hi - lo,
    {
        let mid = lo + (hi - lo) / 2;
        assert(lo < mid < hi);
        proof {
            assert(mid * mid <= 0xffffffffffffffff * 0xffffffffffffffff) by (nonlinear_arith)
                requires 0 <= mid <= 0xffffffffffffffff;
        }
        if mid * mid <= x {
            lo = mid;
        } else {
            hi = mid;
        }
    }
    proof {
        assert(hi == lo + 1);
        assert(is_sqrt(x as int, lo as int));
        lemma_sqrt_exists(x as int);
        lemma_sqrt_unique(x as int, lo as int, sqrt_i(x as int));
    }
    lo as u64
}

} // verus!
