//! Fixed-point scalar arithmetic.
//!
//! A scalar is an `i64` counting millionths of a unit, so `ONE` stands for
//! the real number one.  Operations saturate at the symmetric range limits
//! `FX_MIN ..= FX_MAX`, which also serve as the infinity sentinels of the
//! interval type.  Each executable operation is specified exactly by a spec
//! function over unbounded integers.

use vstd::prelude::*;

verus! {

/// One whole unit of the scale: scalars count millionths.
pub const ONE: i64 = 1_000_000;

/// Largest representable scalar, also used as the +infinity sentinel.
pub const FX_MAX: i64 = 9_223_372_036_854_775_807;

/// Smallest representable scalar (the negation of `FX_MAX`, so that
/// negation is total), also used as the -infinity sentinel.
pub const FX_MIN: i64 = -9_223_372_036_854_775_807;

/// Absolute value over unbounded integers.
pub open spec fn abs_int(x: int) -> int {
    if x >= 0 { x } else { -x }
}

/// Clamp an unbounded integer into the representable scalar range.
pub open spec fn sat(x: int) -> int {
    if x > FX_MAX as int {
        FX_MAX as int
    } else if x < FX_MIN as int {
        FX_MIN as int
    } else {
        x
    }
}

/// Quotient of `n` by `d`, rounded toward zero (meaningful for `d != 0`).
pub open spec fn tdiv(n: int, d: int) -> int {
    let q = abs_int(n) / abs_int(d);
    if (n >= 0) == (d >= 0) {
        q
    } else {
        -q
    }
}

/// Saturating addition of two scalars.
pub open spec fn fx_add(a: int, b: int) -> int {
    sat(a + b)
}

/// Saturating subtraction of two scalars.
pub open spec fn fx_sub(a: int, b: int) -> int {
    sat(a - b)
}

/// Saturating negation of a scalar.
pub open spec fn fx_neg(a: int) -> int {
    sat(-a)
}

/// Saturating product of two scalars, truncated toward zero.
pub open spec fn fx_mul(a: int, b: int) -> int {
    sat(tdiv(a * b, ONE as int))
}

/// Saturating quotient of two scalars, truncated toward zero.  A zero
/// divisor saturates to the scale's infinities, and 0/0 is 0.
pub open spec fn fx_div(a: int, b: int) -> int {
    if b == 0 {
        if a > 0 {
            FX_MAX as int
        } else if a < 0 {
            FX_MIN as int
        } else {
            0
        }
    } else {
        sat(tdiv(a * (ONE as int), b))
    }
}

/// The integer square root: the largest `r` with `r * r <= n` (0 for
/// nonpositive `n`).
pub open spec fn sqrt_floor(n: int) -> int
    decreases n,
{
    if n <= 0 {
        0
    } else {
        let r = sqrt_floor(n - 1);
        if (r + 1) * (r + 1) <= n {
            r + 1
        } else {
            r
        }
    }
}

/// Square root of a scalar; negative inputs count as zero.  The argument
/// is rescaled so that the result is again a scalar in millionths.
pub open spec fn fx_sqrt(x: int) -> int {
    if x <= 0 {
        0
    } else {
        sqrt_floor(x * (ONE as int))
    }
}

/// `sqrt_floor(n)` is the unique nonnegative root bracketing `n`.
pub proof fn lemma_sqrt_floor_bounds(n: int)
    requires
        n >= 0,
    ensures
        0 <= sqrt_floor(n),
        sqrt_floor(n) * sqrt_floor(n) <= n,
        n < (sqrt_floor(n) + 1) * (sqrt_floor(n) + 1),
    decreases n,
{
    if n > 0 {
        lemma_sqrt_floor_bounds(n - 1);
        let r = sqrt_floor(n - 1);
        if (r + 1) * (r + 1) <= n {
            assert(n < (r + 2) * (r + 2)) by (nonlinear_arith)
                requires
                    0 <= r,
                    n - 1 < (r + 1) * (r + 1),
            ;
        }
    }
}

/// Any nonnegative `r` bracketing `n` is `sqrt_floor(n)`.
pub proof fn lemma_sqrt_floor_unique(n: int, r: int)
    requires
        0 <= r,
        r * r <= n,
        n < (r + 1) * (r + 1),
    ensures
        r == sqrt_floor(n),
{
    lemma_sqrt_floor_bounds(n);
    let s = sqrt_floor(n);
    if r < s {
        assert((r + 1) * (r + 1) <= s * s) by (nonlinear_arith)
            requires
                0 <= r + 1 <= s,
        ;
    } else if s < r {
        assert((s + 1) * (s + 1) <= r * r) by (nonlinear_arith)
            requires
                0 <= s + 1 <= r,
        ;
    }
}

/// Evaluate a truncated quotient of a nonnegative dividend from a
/// bracketing by multiples of the divisor.
pub proof fn lemma_tdiv_eval(n: int, d: int, q: int)
    requires
        0 < d,
        0 <= q,
        d * q <= n < d * (q + 1),
    ensures
        tdiv(n, d) == q,
{
    let b = n - d * q;
    assert(0 <= b < d) by (nonlinear_arith)
        requires
            0 < d,
            d * q <= n < d * (q + 1),
            b == n - d * q,
    ;
    vstd::arithmetic::div_mod::lemma_div_multiples_vanish_fancy(q, b, d);
    assert(n >= 0) by (nonlinear_arith)
        requires
            0 < d,
            0 <= q,
            0 <= b,
            n == d * q + b,
    ;
}

/// Truncated division by a positive divisor is monotone in the dividend.
pub proof fn lemma_tdiv_monotone(n1: int, n2: int, d: int)
    requires
        n1 <= n2,
        0 < d,
    ensures
        tdiv(n1, d) <= tdiv(n2, d),
{
    if n1 >= 0 {
        vstd::arithmetic::div_mod::lemma_div_is_ordered(n1, n2, d);
    } else if n2 < 0 {
        vstd::arithmetic::div_mod::lemma_div_is_ordered(-n2, -n1, d);
    } else {
        vstd::arithmetic::div_mod::lemma_div_pos_is_pos(n2, d);
        vstd::arithmetic::div_mod::lemma_div_pos_is_pos(-n1, d);
    }
}

/// Truncated division keeps a nonnegative dividend nonnegative.
pub proof fn lemma_tdiv_nonneg(n: int, d: int)
    requires
        0 <= n,
        0 < d,
    ensures
        0 <= tdiv(n, d),
{
    vstd::arithmetic::div_mod::lemma_div_pos_is_pos(n, d);
}

/// Scalar division by a fixed nonnegative divisor is monotone in the
/// dividend.
pub proof fn lemma_fx_div_monotone(a1: int, a2: int, b: int)
    requires
        a1 <= a2,
        0 <= b,
    ensures
        fx_div(a1, b) <= fx_div(a2, b),
{
    if b != 0 {
        assert(a1 * (ONE as int) <= a2 * (ONE as int)) by (nonlinear_arith)
            requires
                a1 <= a2,
        ;
        lemma_tdiv_monotone(a1 * (ONE as int), a2 * (ONE as int), b);
    }
}

/// A square never has a negative scalar product.
pub proof fn lemma_fx_mul_square_nonneg(x: int)
    ensures
        0 <= fx_mul(x, x),
{
    assert(0 <= x * x) by (nonlinear_arith);
    lemma_tdiv_nonneg(x * x, ONE as int);
}

/// The scalar square root is never negative.
pub proof fn lemma_fx_sqrt_nonneg(x: int)
    ensures
        0 <= fx_sqrt(x),
{
    if x > 0 {
        lemma_sqrt_floor_bounds(x * (ONE as int));
    }
}

/// Dividing a representable scalar by one returns it unchanged.
pub proof fn lemma_fx_div_one(a: int)
    requires
        FX_MIN as int <= a <= FX_MAX as int,
    ensures
        fx_div(a, ONE as int) == a,
{
    let s = ONE as int;
    if a >= 0 {
        assert(abs_int(a * s) == s * a) by (nonlinear_arith)
            requires
                a >= 0,
                s > 0,
        ;
        vstd::arithmetic::div_mod::lemma_div_multiples_vanish(a, s);
    } else {
        assert(abs_int(a * s) == s * (-a)) by (nonlinear_arith)
            requires
                a < 0,
                s > 0,
        ;
        vstd::arithmetic::div_mod::lemma_div_multiples_vanish(-a, s);
    }
}

/// Multiplying a representable scalar by one returns it unchanged.
pub proof fn lemma_fx_mul_one(a: int)
    requires
        FX_MIN as int <= a <= FX_MAX as int,
    ensures
        fx_mul(ONE as int, a) == a,
        fx_mul(a, ONE as int) == a,
{
    let s = ONE as int;
    if a >= 0 {
        assert(abs_int(a * s) == s * a && abs_int(s * a) == s * a) by (nonlinear_arith)
            requires
                a >= 0,
                s > 0,
        ;
        vstd::arithmetic::div_mod::lemma_div_multiples_vanish(a, s);
    } else {
        assert(abs_int(a * s) == s * (-a) && abs_int(s * a) == s * (-a)) by (nonlinear_arith)
            requires
                a < 0,
                s > 0,
        ;
        vstd::arithmetic::div_mod::lemma_div_multiples_vanish(-a, s);
    }
}

/// A scalar product whose true value lands exactly on the scale is
/// computed exactly.
pub proof fn lemma_fx_mul_div_exact(a: int, b: int, q: int)
    requires
        a * b == q * (ONE as int),
        FX_MIN as int <= q <= FX_MAX as int,
    ensures
        fx_mul(a, b) == q,
{
    let s = ONE as int;
    if q >= 0 {
        assert(abs_int(a * b) == s * q) by (nonlinear_arith)
            requires
                a * b == q * s,
                q >= 0,
                s > 0,
        ;
        vstd::arithmetic::div_mod::lemma_div_multiples_vanish(q, s);
        if a * b >= 0 {
        } else {
            assert(a * b == 0 && q == 0) by (nonlinear_arith)
                requires
                    a * b == q * s,
                    q >= 0,
                    s > 0,
                    a * b <= 0,
            ;
        }
    } else {
        assert(abs_int(a * b) == s * (-q) && a * b < 0) by (nonlinear_arith)
            requires
                a * b == q * s,
                q < 0,
                s > 0,
        ;
        vstd::arithmetic::div_mod::lemma_div_multiples_vanish(-q, s);
    }
}

/// The square root of at most one is at most one.
pub proof fn lemma_fx_sqrt_le_one(x: int)
    requires
        x <= ONE as int,
    ensures
        fx_sqrt(x) <= ONE as int,
{
    if x > 0 {
        let n = x * (ONE as int);
        lemma_sqrt_floor_bounds(n);
        let r = sqrt_floor(n);
        assert(n <= 1_000_000_000_000) by (nonlinear_arith)
            requires
                0 < x <= 1_000_000,
                n == x * 1_000_000,
        ;
        if r > ONE as int {
            assert(r * r > 1_000_000_000_000) by (nonlinear_arith)
                requires
                    r >= 1_000_001,
            ;
        }
    }
}

/// The scaled, truncated product stays within one scale unit of the
/// true quotient: the remainder a truncation drops is below one unit.
pub proof fn lemma_tdiv_err(x: int, d: int)
    requires
        0 < d,
    ensures
        abs_int(d * tdiv(x, d) - x) < d,
{
    let m = abs_int(x);
    let q = m / d;
    vstd::arithmetic::div_mod::lemma_fundamental_div_mod(m, d);
    vstd::arithmetic::div_mod::lemma_remainder_upper(m, d);
    vstd::arithmetic::div_mod::lemma_remainder_lower(m, d);
    let r = m - d * q;
    assert(0 <= r < d);
    if x >= 0 {
        assert(d * tdiv(x, d) - x == -r);
    } else {
        assert(d * tdiv(x, d) == d * (-q)) by (nonlinear_arith)
            requires
                tdiv(x, d) == -q,
        ;
        assert(d * (-q) == -(d * q)) by (nonlinear_arith);
        assert(d * tdiv(x, d) - x == r);
    }
}

/// The product of two scalars from [0, 1] stays in [0, 1].
pub proof fn lemma_fx_mul_unit_range(a: int, b: int)
    requires
        0 <= a <= ONE as int,
        0 <= b <= ONE as int,
    ensures
        0 <= fx_mul(a, b) <= ONE as int,
{
    assert(0 <= a * b <= 1_000_000_000_000) by (nonlinear_arith)
        requires
            0 <= a <= 1_000_000,
            0 <= b <= 1_000_000,
    ;
    lemma_tdiv_nonneg(a * b, ONE as int);
    lemma_tdiv_monotone(a * b, 1_000_000_000_000, ONE as int);
    lemma_tdiv_eval(1_000_000_000_000, 1_000_000, 1_000_000);
}

/// For a nonnegative dividend, truncation never overshoots: the scaled
/// quotient stays at or below the dividend, by less than one divisor.
pub proof fn lemma_tdiv_floor(n: int, d: int)
    requires
        0 <= n,
        0 < d,
    ensures
        0 <= n - d * tdiv(n, d) < d,
{
    vstd::arithmetic::div_mod::lemma_fundamental_div_mod(n, d);
    vstd::arithmetic::div_mod::lemma_remainder_upper(n, d);
    vstd::arithmetic::div_mod::lemma_remainder_lower(n, d);
}

/// A positive scalar scaled by a fraction below one stays below itself.
pub proof fn lemma_mul_frac_lt(d: int, f: int)
    requires
        0 < d,
        0 <= f < ONE as int,
    ensures
        0 <= tdiv(d * f, ONE as int) < d,
{
    let s = ONE as int;
    assert(0 <= d * f) by (nonlinear_arith)
        requires
            0 <= d,
            0 <= f,
    ;
    assert(d * f < s * d) by (nonlinear_arith)
        requires
            0 < d,
            0 <= f < s,
    ;
    vstd::arithmetic::div_mod::lemma_div_pos_is_pos(d * f, s);
    vstd::arithmetic::div_mod::lemma_multiply_divide_lt(d * f, s, d);
}

/// Clamp a wide intermediate into the representable range.
fn sat64(x: i128) -> (r: i64)
    ensures
        r as int == sat(x as int),
{
    if x > FX_MAX as i128 {
        FX_MAX
    } else if x < FX_MIN as i128 {
        FX_MIN
    } else {
        x as i64
    }
}

/// Quotient rounded toward zero, computed on magnitudes.
fn tdiv128(n: i128, d: i128) -> (r: i128)
    requires
        d != 0,
        -0x4000_0000_0000_0000_0000_0000_0000_0000 <= n,
        -0x4000_0000_0000_0000_0000_0000_0000_0000 <= d,
    ensures
        r == tdiv(n as int, d as int),
{
    let nn: u128 = if n >= 0 {
        n as u128
    } else {
        (-n) as u128
    };
    let dd: u128 = if d >= 0 {
        d as u128
    } else {
        (-d) as u128
    };
    assert(nn as int == abs_int(n as int));
    assert(dd as int == abs_int(d as int));
    let q: u128 = nn / dd;
    assert(q <= nn) by {
        assert(q == nn as int / dd as int);
        vstd::arithmetic::div_mod::lemma_fundamental_div_mod(nn as int, dd as int);
        assert(q * (dd as int) >= q * 1) by (nonlinear_arith)
            requires
                q >= 0,
                dd >= 1,
        ;
    }
    let qi: i128 = q as i128;
    if (n >= 0) == (d >= 0) {
        qi
    } else {
        -qi
    }
}

/// Saturating fixed-point addition.
pub fn fxadd(a: i64, b: i64) -> (r: i64)
    ensures
        r as int == fx_add(a as int, b as int),
{
    sat64(a as i128 + b as i128)
}

/// Saturating fixed-point subtraction.
pub fn fxsub(a: i64, b: i64) -> (r: i64)
    ensures
        r as int == fx_sub(a as int, b as int),
{
    sat64(a as i128 - b as i128)
}

/// Saturating fixed-point negation.
pub fn fxneg(a: i64) -> (r: i64)
    ensures
        r as int == fx_neg(a as int),
{
    sat64(-(a as i128))
}

/// Saturating absolute value.
pub fn fxabs(a: i64) -> (r: i64)
    ensures
        r as int == sat(abs_int(a as int)),
{
    if a >= 0 {
        a
    } else {
        sat64(-(a as i128))
    }
}

/// The smaller of two scalars.
pub fn fxmin(a: i64, b: i64) -> (r: i64)
    ensures
        r as int == if a as int <= b as int { a as int } else { b as int },
{
    if a <= b {
        a
    } else {
        b
    }
}

/// Saturating fixed-point multiplication.
pub fn fxmul(a: i64, b: i64) -> (r: i64)
    ensures
        r as int == fx_mul(a as int, b as int),
{
    proof {
        assert((a as int) * (b as int) <= 0x4000_0000_0000_0000_0000_0000_0000_0000int
            && (a as int) * (b as int) >= -0x4000_0000_0000_0000_0000_0000_0000_0000int)
            by (nonlinear_arith)
            requires
                -0x8000_0000_0000_0000 <= a as int <= 0x7fff_ffff_ffff_ffff,
                -0x8000_0000_0000_0000 <= b as int <= 0x7fff_ffff_ffff_ffff,
        ;
    }
    let p: i128 = (a as i128) * (b as i128);
    let q = tdiv128(p, 1_000_000);
    sat64(q)
}

/// Saturating fixed-point division.
pub fn fxdiv(a: i64, b: i64) -> (r: i64)
    ensures
        r as int == fx_div(a as int, b as int),
{
    if b == 0 {
        if a > 0 {
            FX_MAX
        } else if a < 0 {
            FX_MIN
        } else {
            0
        }
    } else {
        let p: i128 = (a as i128) * 1_000_000;
        sat64(tdiv128(p, b as i128))
    }
}

/// The whole-unit part of a scalar, truncated toward zero.
pub fn fxtrunc(a: i64) -> (r: i64)
    ensures
        r as int == tdiv(a as int, ONE as int),
{
    let q = tdiv128(a as i128, 1_000_000);
    proof {
        vstd::arithmetic::div_mod::lemma_multiply_divide_le(
            abs_int(a as int),
            1_000_000,
            9_223_372_036_855,
        );
        vstd::arithmetic::div_mod::lemma_div_pos_is_pos(abs_int(a as int), 1_000_000);
    }
    q as i64
}

/// Floor of the square root, by binary search.
fn isqrt(n: u128) -> (r: u128)
    requires
        n < 0x1_0000_0000_0000_0000_0000_0000,
    ensures
        r * r <= n,
        n < (r + 1) * (r + 1),
{
    let mut lo: u128 = 0;
    let mut hi: u128 = 0x1_0000_0000_0000;
    proof {
        assert((0x1_0000_0000_0000 as int) * (0x1_0000_0000_0000 as int)
            == 0x1_0000_0000_0000_0000_0000_0000int);
    }
    while lo + 1 < hi
        invariant
            lo < hi <= 0x1_0000_0000_0000,
            lo * lo <= n,
            n < hi * hi,
        decreases hi - lo,
    {
        let mid = lo + (hi - lo) / 2;
        assert(lo < mid < hi);
        assert(mid * mid <= 0x1_0000_0000_0000_0000_0000_0000) by (nonlinear_arith)
            requires
                0 <= mid <= 0x1_0000_0000_0000,
        ;
        if mid * mid <= n {
            lo = mid;
        } else {
            hi = mid;
        }
    }
    lo
}

/// Reciprocal of 6 in millionths, for the sine series.
pub const INV6: i64 = 166_667;

/// Reciprocal of 20 in millionths, for the sine series.
pub const INV20: i64 = 50_000;

/// Reciprocal of 42 in millionths, for the sine series.
pub const INV42: i64 = 23_810;

/// Reciprocal of 72 in millionths, for the sine series.
pub const INV72: i64 = 13_889;

/// Reciprocal of 110 in millionths, for the sine series.
pub const INV110: i64 = 9_091;

/// Reciprocal of 2 in millionths, for the cosine series.
pub const INV2: i64 = 500_000;

/// Reciprocal of 12 in millionths, for the cosine series.
pub const INV12: i64 = 83_333;

/// Reciprocal of 30 in millionths, for the cosine series.
pub const INV30: i64 = 33_333;

/// Reciprocal of 56 in millionths, for the cosine series.
pub const INV56: i64 = 17_857;

/// Reciprocal of 90 in millionths, for the cosine series.
pub const INV90: i64 = 11_111;

/// The library's sine: the Taylor series through the eleventh power in
/// nested (Horner) form, intended for arguments up to a half turn.
pub open spec fn fx_sin(x: int) -> int {
    let x2 = fx_mul(x, x);
    let t5 = fx_sub(ONE as int, fx_mul(x2, INV110 as int));
    let t4 = fx_sub(ONE as int, fx_mul(fx_mul(x2, INV72 as int), t5));
    let t3 = fx_sub(ONE as int, fx_mul(fx_mul(x2, INV42 as int), t4));
    let t2 = fx_sub(ONE as int, fx_mul(fx_mul(x2, INV20 as int), t3));
    let t1 = fx_sub(ONE as int, fx_mul(fx_mul(x2, INV6 as int), t2));
    fx_mul(x, t1)
}

/// The library's cosine: the Taylor series through the tenth power in
/// nested (Horner) form, intended for arguments up to a half turn.
pub open spec fn fx_cos(x: int) -> int {
    let x2 = fx_mul(x, x);
    let t5 = fx_sub(ONE as int, fx_mul(x2, INV90 as int));
    let t4 = fx_sub(ONE as int, fx_mul(fx_mul(x2, INV56 as int), t5));
    let t3 = fx_sub(ONE as int, fx_mul(fx_mul(x2, INV30 as int), t4));
    let t2 = fx_sub(ONE as int, fx_mul(fx_mul(x2, INV12 as int), t3));
    fx_sub(ONE as int, fx_mul(fx_mul(x2, INV2 as int), t2))
}

/// The library's tangent: the ratio of its sine and cosine.
pub open spec fn fx_tan(x: int) -> int {
    fx_div(fx_sin(x), fx_cos(x))
}

/// Sine of a scalar angle in radians.
pub fn fxsin(x: i64) -> (r: i64)
    ensures
        r as int == fx_sin(x as int),
{
    let x2 = fxmul(x, x);
    let t5 = fxsub(ONE, fxmul(x2, INV110));
    let t4 = fxsub(ONE, fxmul(fxmul(x2, INV72), t5));
    let t3 = fxsub(ONE, fxmul(fxmul(x2, INV42), t4));
    let t2 = fxsub(ONE, fxmul(fxmul(x2, INV20), t3));
    let t1 = fxsub(ONE, fxmul(fxmul(x2, INV6), t2));
    fxmul(x, t1)
}

/// Cosine of a scalar angle in radians.
pub fn fxcos(x: i64) -> (r: i64)
    ensures
        r as int == fx_cos(x as int),
{
    let x2 = fxmul(x, x);
    let t5 = fxsub(ONE, fxmul(x2, INV90));
    let t4 = fxsub(ONE, fxmul(fxmul(x2, INV56), t5));
    let t3 = fxsub(ONE, fxmul(fxmul(x2, INV30), t4));
    let t2 = fxsub(ONE, fxmul(fxmul(x2, INV12), t3));
    fxsub(ONE, fxmul(fxmul(x2, INV2), t2))
}

/// Tangent of a scalar angle in radians.
pub fn fxtan(x: i64) -> (r: i64)
    ensures
        r as int == fx_tan(x as int),
{
    let s = fxsin(x);
    let c = fxcos(x);
    fxdiv(s, c)
}

/// Square root of a scalar; negative inputs count as zero.
pub fn fxsqrt(x: i64) -> (r: i64)
    ensures
        r as int == fx_sqrt(x as int),
{
    if x <= 0 {
        0
    } else {
        let n: u128 = (x as u128) * 1_000_000;
        let r = isqrt(n);
        proof {
            lemma_sqrt_floor_unique(n as int, r as int);
            assert(r < 0x1_0000_0000_0000) by (nonlinear_arith)
                requires
                    (r as int) * (r as int) <= n as int,
                    n < 0x1_0000_0000_0000_0000_0000_0000,
            ;
        }
        r as i64
    }
}

} // verus!
