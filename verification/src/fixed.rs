//! Fixed-point scalar arithmetic.
//!
//! A scalar holds `value * SCALE` in an `i64`; all operations round
//! toward zero. Each executable operation is specified exactly by the
//! matching spec function over mathematical integers.

use vstd::prelude::*;

verus! {

/// Number of ticks per unit: an `i64` scalar `x` stands for `x / SCALE`.
pub const SCALE: i64 = 65536;

/// Absolute value over mathematical integers.
pub open spec fn abs_i(a: int) -> int {
    if a < 0 {
        -a
    } else {
        a
    }
}

/// Division rounding toward zero (the rounding used by every
/// fixed-point operation in this crate), defined for `b != 0`.
pub open spec fn tdiv(a: int, b: int) -> int {
    let q = abs_i(a) / abs_i(b);
    if (a < 0) != (b < 0) {
        -q
    } else {
        q
    }
}

/// Product of two fixed-point scalars: `(a * b) / SCALE`, toward zero.
pub open spec fn fp_mul_s(a: int, b: int) -> int {
    tdiv(a * b, SCALE as int)
}

/// Quotient of two fixed-point scalars: `(a * SCALE) / b`, toward zero.
pub open spec fn fp_div_s(a: int, b: int) -> int {
    tdiv(a * SCALE, b)
}

/// The integer square root: the unique `r >= 0` with
/// `r * r <= n < (r + 1) * (r + 1)` (0 for `n <= 0`).
pub open spec fn sqrt_i(n: int) -> int
    decreases n,
{
    if n <= 0 {
        0
    } else {
        let r = sqrt_i(n - 1);
        if (r + 1) * (r + 1) <= n {
            r + 1
        } else {
            r
        }
    }
}

/// Square root of a fixed-point scalar: `sqrt(a / SCALE) * SCALE`
/// rounded down equals `sqrt_i(a * SCALE)`.
pub open spec fn fp_sqrt_s(a: int) -> int {
    sqrt_i(a * SCALE)
}

/// `a * b` stays within the range whose quotient by SCALE fits an `i64`.
pub open spec fn fp_mul_ok(a: int, b: int) -> bool {
    -0x7fff_ffff_ffff_ffff * 0x10000 <= a * b <= 0x7fff_ffff_ffff_ffff * 0x10000
}

/// `sqrt_i(n)` satisfies the two-sided bound that defines it.
pub proof fn lemma_sqrt_i(n: int)
    requires
        n >= 0,
    ensures
        sqrt_i(n) >= 0,
        sqrt_i(n) * sqrt_i(n) <= n,
        n < (sqrt_i(n) + 1) * (sqrt_i(n) + 1),
    decreases n,
{
    if n == 0 {
    } else {
        lemma_sqrt_i(n - 1);
        let r = sqrt_i(n - 1);
        if (r + 1) * (r + 1) <= n {
            assert(n < (r + 2) * (r + 2)) by (nonlinear_arith)
                requires
                    r >= 0,
                    n - 1 < (r + 1) * (r + 1),
            {}
        }
    }
}

/// No two integers satisfy the defining bound of `sqrt_i(n)`.
pub proof fn lemma_sqrt_unique(n: int, r: int)
    requires
        n >= 0,
        r >= 0,
        r * r <= n,
        n < (r + 1) * (r + 1),
    ensures
        r == sqrt_i(n),
{
    lemma_sqrt_i(n);
    let s = sqrt_i(n);
    if r < s {
        assert(s * s > n) by (nonlinear_arith)
            requires
                0 <= r < s,
                n < (r + 1) * (r + 1),
        {}
    }
    if s < r {
        assert(r * r > n) by (nonlinear_arith)
            requires
                0 <= s < r,
                n < (s + 1) * (s + 1),
        {}
    }
}

/// Magnitudes multiply: `|a * b| == |a| * |b|`.
pub proof fn lemma_abs_mul(a: int, b: int)
    by (nonlinear_arith)
    ensures
        abs_i(a * b) == abs_i(a) * abs_i(b),
{
}

/// A product is bounded by the product of the bounds.
pub proof fn lemma_mul_bound(a: int, b: int, bnd_a: int, bnd_b: int)
    by (nonlinear_arith)
    requires
        abs_i(a) <= bnd_a,
        abs_i(b) <= bnd_b,
    ensures
        abs_i(a * b) <= bnd_a * bnd_b,
{
}

/// Division toward zero by a positive divisor: magnitude bound and
/// remainder bound.
pub proof fn lemma_tdiv(a: int, b: int)
    requires
        b > 0,
    ensures
        abs_i(tdiv(a, b)) <= abs_i(a) / b,
        abs_i(a - tdiv(a, b) * b) < b,
        abs_i(tdiv(a, b)) * b <= abs_i(a),
        a >= 0 ==> tdiv(a, b) >= 0 && tdiv(a, b) == a / b,
        a <= 0 ==> tdiv(a, b) <= 0,
{
    let m = abs_i(a);
    let q = m / b;
    vstd::arithmetic::div_mod::lemma_fundamental_div_mod(m, b);
    vstd::arithmetic::div_mod::lemma_mod_bound(m, b);
    vstd::arithmetic::div_mod::lemma_div_pos_is_pos(m, b);
    assert(m == q * b + m % b);
    if a >= 0 {
        assert(tdiv(a, b) == q);
        assert(abs_i(a - q * b) == m % b);
    } else {
        assert(tdiv(a, b) == -q);
        assert(a - (-q) * b == -(m - q * b)) by (nonlinear_arith)
            requires
                m == -a,
        {}
        assert(abs_i(a - tdiv(a, b) * b) < b);
    }
    assert(abs_i(tdiv(a, b)) * b <= abs_i(a)) by (nonlinear_arith)
        requires
            b > 0,
            abs_i(tdiv(a, b)) == q,
            m == q * b + m % b,
            m % b >= 0,
            m == abs_i(a),
            q >= 0,
    {}
}

/// Division toward zero is monotone in the dividend.
pub proof fn lemma_tdiv_ordered(a1: int, a2: int, d: int)
    requires
        a1 <= a2,
        d > 0,
    ensures
        tdiv(a1, d) <= tdiv(a2, d),
{
    lemma_tdiv(a1, d);
    lemma_tdiv(a2, d);
    if a1 >= 0 {
        vstd::arithmetic::div_mod::lemma_div_is_ordered(a1, a2, d);
    } else if a2 < 0 {
        vstd::arithmetic::div_mod::lemma_div_is_ordered(-a2, -a1, d);
    }
}

/// Division magnitudes are ordered: a larger dividend bound gives a
/// larger quotient bound.
pub proof fn lemma_tdiv_bound(a: int, b: int, bnd: int)
    requires
        b > 0,
        abs_i(a) <= bnd,
    ensures
        abs_i(tdiv(a, b)) <= bnd / b,
{
    lemma_tdiv(a, b);
    vstd::arithmetic::div_mod::lemma_div_is_ordered(abs_i(a), bnd, b);
}

/// Multiplying by the unit scale is exact: `fp_mul_s(SCALE, b) == b`.
pub proof fn lemma_fp_mul_one(b: int)
    ensures
        fp_mul_s(SCALE as int, b) == b,
        fp_mul_s(b, SCALE as int) == b,
{
    let s = SCALE as int;
    if b >= 0 {
        vstd::arithmetic::div_mod::lemma_div_by_multiple(b, s);
        assert(b * s == s * b) by (nonlinear_arith);
    } else {
        vstd::arithmetic::div_mod::lemma_div_by_multiple(-b, s);
        assert((-b) * s == abs_i(s * b) && (-b) * s == abs_i(b * s)) by (nonlinear_arith)
            requires
                b < 0,
                s > 0,
        {}
    }
}

/// Range facts for the fixed-point product: the precondition of
/// `fp_mul` holds and the result is bounded, given bounds on the factors.
pub proof fn lemma_fp_mul_range(a: int, b: int, bnd_a: int, bnd_b: int)
    requires
        abs_i(a) <= bnd_a,
        abs_i(b) <= bnd_b,
        bnd_a * bnd_b <= 0x7fff_ffff_ffff_ffff * 0x10000,
    ensures
        fp_mul_ok(a, b),
        abs_i(fp_mul_s(a, b)) <= (bnd_a * bnd_b) / (SCALE as int),
{
    lemma_mul_bound(a, b, bnd_a, bnd_b);
    lemma_tdiv_bound(a * b, SCALE as int, bnd_a * bnd_b);
}

/// Range fact for the fixed-point quotient, given a bound on the
/// dividend and a nonzero divisor.
pub proof fn lemma_fp_div_range(a: int, b: int, bnd: int)
    requires
        abs_i(a) <= bnd,
        b != 0,
    ensures
        abs_i(fp_div_s(a, b)) <= bnd * SCALE,
{
    let s = SCALE as int;
    lemma_mul_bound(a, s, bnd, s);
    if b > 0 {
        lemma_tdiv_bound(a * s, b, bnd * s);
        vstd::arithmetic::div_mod::lemma_div_is_ordered_by_denominator(bnd * s, 1, b);
        vstd::arithmetic::div_mod::lemma_div_basics(bnd * s);
    } else {
        assert(tdiv(a * s, b) == -tdiv(a * s, -b)) by {
            lemma_abs_mul(a, s);
        }
        lemma_tdiv_bound(a * s, -b, bnd * s);
        vstd::arithmetic::div_mod::lemma_div_is_ordered_by_denominator(bnd * s, 1, -b);
        vstd::arithmetic::div_mod::lemma_div_basics(bnd * s);
    }
}

/// Divides by SCALE, rounding toward zero.
pub(crate) fn div_scale(p: i128) -> (r: i64)
    requires
        -0x7fff_ffff_ffff_ffff * 0x10000 <= p <= 0x7fff_ffff_ffff_ffff * 0x10000,
    ensures
        r == tdiv(p as int, SCALE as int),
{
    proof {
        lemma_tdiv_bound(p as int, SCALE as int, 0x7fff_ffff_ffff_ffff * 0x10000int);
        vstd::arithmetic::div_mod::lemma_div_by_multiple(0x7fff_ffff_ffff_ffff, 0x10000);
    }
    let neg: bool = p < 0;
    let m: u128 = if neg {
        (-p) as u128
    } else {
        p as u128
    };
    let q: u128 = m / 65536;
    if neg {
        -(q as i64)
    } else {
        q as i64
    }
}

/// Divides, rounding toward zero.
fn tdiv_i128(p: i128, d: i64) -> (r: i64)
    requires
        d != 0,
        -0x7fff_ffff_ffff_ffff <= tdiv(p as int, d as int) <= 0x7fff_ffff_ffff_ffff,
        -0x7fff_ffff_ffff_ffff_ffff <= p <= 0x7fff_ffff_ffff_ffff_ffff,
    ensures
        r == tdiv(p as int, d as int),
{
    let neg: bool = (p < 0) != (d < 0);
    let m: u128 = if p < 0 {
        (-p) as u128
    } else {
        p as u128
    };
    let dm: u128 = if d < 0 {
        (-(d as i128)) as u128
    } else {
        d as u128
    };
    let q: u128 = m / dm;
    proof {
        assert(q == abs_i(p as int) / abs_i(d as int));
        assert(tdiv(p as int, d as int) == if neg { -(q as int) } else { q as int });
    }
    if neg {
        -(q as i64)
    } else {
        q as i64
    }
}

/// Fixed-point product: exactly `(a * b) / SCALE`, rounded toward zero.
pub fn fp_mul(a: i64, b: i64) -> (r: i64)
    requires
        fp_mul_ok(a as int, b as int),
    ensures
        r == fp_mul_s(a as int, b as int),
{
    let p: i128 = (a as i128) * (b as i128);
    div_scale(p)
}

/// Fixed-point quotient: exactly `(a * SCALE) / b`, rounded toward zero.
pub fn fp_div(a: i64, b: i64) -> (r: i64)
    requires
        b != 0,
        -0x7fff_ffff_ffff <= a <= 0x7fff_ffff_ffff,
    ensures
        r == fp_div_s(a as int, b as int),
        abs_i(r as int) <= abs_i(a as int) * SCALE,
{
    proof {
        lemma_fp_div_range(a as int, b as int, abs_i(a as int));
        lemma_mul_bound(a as int, SCALE as int, 0x7fff_ffff_ffff, SCALE as int);
        if b > 0 {
            lemma_tdiv_bound(a as int * SCALE, b as int, abs_i(a as int) * SCALE);
            vstd::arithmetic::div_mod::lemma_div_is_ordered_by_denominator(
                abs_i(a as int) * SCALE,
                1,
                b as int,
            );
            vstd::arithmetic::div_mod::lemma_div_basics(abs_i(a as int) * SCALE);
        }
    }
    let p: i128 = (a as i128) * 65536;
    tdiv_i128(p, b)
}

/// Integer division of a scalar by a positive count (used to average
/// accumulated samples): exactly `a / b`, rounded toward zero.
pub fn idiv(a: i64, b: i64) -> (r: i64)
    requires
        b > 0,
        -0x7fff_ffff_ffff_ffff <= a,
    ensures
        r == tdiv(a as int, b as int),
        abs_i(r as int) <= abs_i(a as int),
{
    proof {
        lemma_tdiv_bound(a as int, b as int, abs_i(a as int));
        vstd::arithmetic::div_mod::lemma_div_is_ordered_by_denominator(abs_i(a as int), 1, b as int);
        vstd::arithmetic::div_mod::lemma_div_basics(abs_i(a as int));
    }
    tdiv_i128(a as i128, b)
}

/// Integer square root by bisection.
fn isqrt_u128(n: u128) -> (r: u128)
    requires
        n < 0x4000_0000_0000_0000_0000_0000_0000_0000,
    ensures
        r as int == sqrt_i(n as int),
        r * r <= n,
        n < (r + 1) * (r + 1),
{
    let mut lo: u128 = 0;
    let mut hi: u128 = 0x8000_0000_0000_0000;
    proof {
        assert(hi * hi == 0x4000_0000_0000_0000_0000_0000_0000_0000) by (nonlinear_arith)
            requires
                hi == 0x8000_0000_0000_0000,
        {}
    }
    while lo + 1 < hi
        invariant
            lo < hi,
            hi <= 0x8000_0000_0000_0000,
            lo * lo <= n,
            n < hi * hi,
        decreases hi - lo,
    {
        let mid: u128 = lo + (hi - lo) / 2;
        assert(lo < mid < hi);
        assert(mid * mid < 0x4000_0000_0000_0000_0000_0000_0000_0001) by (nonlinear_arith)
            requires
                mid < 0x8000_0000_0000_0000,
        {}
        let sq: u128 = mid * mid;
        if sq <= n {
            lo = mid;
        } else {
            hi = mid;
        }
    }
    proof {
        assert(hi == lo + 1);
        lemma_sqrt_unique(n as int, lo as int);
    }
    lo
}

/// Fixed-point square root: the unique `r >= 0` with
/// `r * r <= a * SCALE < (r + 1) * (r + 1)`.
pub fn fp_sqrt(a: i64) -> (r: i64)
    requires
        a >= 0,
    ensures
        r == fp_sqrt_s(a as int),
        r >= 0,
        r * r <= a * SCALE,
        a * SCALE < (r + 1) * (r + 1),
{
    let n: u128 = (a as u128) * 65536;
    assert(n < 0x4000_0000_0000_0000_0000_0000_0000_0000) by (nonlinear_arith)
        requires
            0 <= a <= 0x7fff_ffff_ffff_ffff,
            n == a * 65536,
    {}
    let r: u128 = isqrt_u128(n);
    assert(r < 0x8000_0000_0000_0000) by (nonlinear_arith)
        requires
            r * r <= n,
            n < 0x4000_0000_0000_0000_0000_0000_0000_0000,
    {}
    r as i64
}

} // verus!
