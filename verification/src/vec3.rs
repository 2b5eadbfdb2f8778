//! Three-component fixed-point vectors, used for points and colors alike.
//!
//! Every component holds `value * SCALE` ticks. Each operation's
//! contract states the exact rounded result over mathematical integers,
//! through the spec functions of `crate::fixed`.

use vstd::prelude::*;
use crate::fixed::{
    abs_i, fp_div, fp_div_s, fp_mul, fp_mul_ok, fp_mul_s, fp_sqrt, fp_sqrt_s, lemma_fp_mul_range,
    lemma_mul_bound, lemma_sqrt_i, lemma_tdiv, lemma_tdiv_bound, sqrt_i, tdiv, SCALE,
};

verus! {

/// A vector (or point, or color) of three fixed-point scalars.
#[derive(Clone, Copy, PartialEq, Eq, Structural, Debug)]
pub struct Vec3 {
    pub x: i64,
    pub y: i64,
    pub z: i64,
}

/// A color by usage intent: components are channel intensities.
pub type Color = Vec3;

/// A point by usage intent.
pub type Point = Vec3;

/// A well-formed color: every channel within `[0, 1]` in fixed point.
pub open spec fn color_wf(c: Vec3) -> bool {
    &&& 0 <= c.x <= SCALE
    &&& 0 <= c.y <= SCALE
    &&& 0 <= c.z <= SCALE
}

/// Every component lies within `[-b, b]`.
pub open spec fn bounded(v: Vec3, b: int) -> bool {
    &&& -b <= v.x <= b
    &&& -b <= v.y <= b
    &&& -b <= v.z <= b
}

/// The unrounded sum of component products, at `SCALE * SCALE` scale.
pub open spec fn dot_raw(a: Vec3, b: Vec3) -> int {
    a.x * b.x + a.y * b.y + a.z * b.z
}

/// The fixed-point inner product: `dot_raw` rescaled once, toward zero.
pub open spec fn dot_s(a: Vec3, b: Vec3) -> int {
    tdiv(dot_raw(a, b), SCALE as int)
}

/// The fixed-point length: square root of the fixed-point squared length.
pub open spec fn len_s(v: Vec3) -> int {
    fp_sqrt_s(dot_s(v, v))
}

/// Normalization of an integer triple, as the executable
/// `unit_vector` computes it.
pub open spec fn unit3(x: int, y: int, z: int) -> (int, int, int) {
    let l = sqrt_i(tdiv(x * x + y * y + z * z, SCALE as int) * SCALE);
    (fp_div_s(x, l), fp_div_s(y, l), fp_div_s(z, l))
}

/// Component bound under which the inner product cannot overflow.
pub open spec fn dot_bnd() -> int {
    0x40_0000_0000
}

impl Vec3 {
    /// The zero vector.
    pub fn default() -> (r: Vec3)
        ensures
            r.x == 0 && r.y == 0 && r.z == 0,
    {
        Vec3 { x: 0, y: 0, z: 0 }
    }

    pub fn new(x: i64, y: i64, z: i64) -> (r: Vec3)
        ensures
            r.x == x && r.y == y && r.z == z,
    {
        Vec3 { x, y, z }
    }

    /// Componentwise sum.
    pub fn plus(self, rhs: Vec3) -> (r: Vec3)
        requires
            abs_i(self.x + rhs.x) <= 0x7fff_ffff_ffff_ffff,
            abs_i(self.y + rhs.y) <= 0x7fff_ffff_ffff_ffff,
            abs_i(self.z + rhs.z) <= 0x7fff_ffff_ffff_ffff,
        ensures
            r.x == self.x + rhs.x,
            r.y == self.y + rhs.y,
            r.z == self.z + rhs.z,
    {
        Vec3 { x: self.x + rhs.x, y: self.y + rhs.y, z: self.z + rhs.z }
    }

    /// Componentwise difference.
    pub fn minus(self, rhs: Vec3) -> (r: Vec3)
        requires
            abs_i(self.x - rhs.x) <= 0x7fff_ffff_ffff_ffff,
            abs_i(self.y - rhs.y) <= 0x7fff_ffff_ffff_ffff,
            abs_i(self.z - rhs.z) <= 0x7fff_ffff_ffff_ffff,
        ensures
            r.x == self.x - rhs.x,
            r.y == self.y - rhs.y,
            r.z == self.z - rhs.z,
    {
        Vec3 { x: self.x - rhs.x, y: self.y - rhs.y, z: self.z - rhs.z }
    }

    /// Componentwise negation.
    pub fn neg(self) -> (r: Vec3)
        requires
            abs_i(self.x as int) <= 0x7fff_ffff_ffff_ffff,
            abs_i(self.y as int) <= 0x7fff_ffff_ffff_ffff,
            abs_i(self.z as int) <= 0x7fff_ffff_ffff_ffff,
        ensures
            r.x == -self.x && r.y == -self.y && r.z == -self.z,
    {
        Vec3 { x: -self.x, y: -self.y, z: -self.z }
    }

    /// Componentwise fixed-point product (used for color attenuation).
    pub fn comp_mul(self, rhs: Vec3) -> (r: Vec3)
        requires
            fp_mul_ok(self.x as int, rhs.x as int),
            fp_mul_ok(self.y as int, rhs.y as int),
            fp_mul_ok(self.z as int, rhs.z as int),
        ensures
            r.x == fp_mul_s(self.x as int, rhs.x as int),
            r.y == fp_mul_s(self.y as int, rhs.y as int),
            r.z == fp_mul_s(self.z as int, rhs.z as int),
    {
        Vec3 {
            x: fp_mul(self.x, rhs.x),
            y: fp_mul(self.y, rhs.y),
            z: fp_mul(self.z, rhs.z),
        }
    }

    /// Scalar fixed-point product.
    pub fn scale(self, k: i64) -> (r: Vec3)
        requires
            fp_mul_ok(self.x as int, k as int),
            fp_mul_ok(self.y as int, k as int),
            fp_mul_ok(self.z as int, k as int),
        ensures
            r.x == fp_mul_s(self.x as int, k as int),
            r.y == fp_mul_s(self.y as int, k as int),
            r.z == fp_mul_s(self.z as int, k as int),
    {
        Vec3 { x: fp_mul(self.x, k), y: fp_mul(self.y, k), z: fp_mul(self.z, k) }
    }

    /// Scalar fixed-point quotient.
    pub fn scale_div(self, k: i64) -> (r: Vec3)
        requires
            k != 0,
            bounded(self, 0x7fff_ffff_ffff),
        ensures
            r.x == fp_div_s(self.x as int, k as int),
            r.y == fp_div_s(self.y as int, k as int),
            r.z == fp_div_s(self.z as int, k as int),
    {
        Vec3 { x: fp_div(self.x, k), y: fp_div(self.y, k), z: fp_div(self.z, k) }
    }

    /// The fixed-point inner product, rescaled once.
    pub fn dot(lhs: Vec3, rhs: Vec3) -> (r: i64)
        requires
            bounded(lhs, dot_bnd()),
            bounded(rhs, dot_bnd()),
        ensures
            r == dot_s(lhs, rhs),
    {
        proof {
            lemma_mul_bound(lhs.x as int, rhs.x as int, dot_bnd(), dot_bnd());
            lemma_mul_bound(lhs.y as int, rhs.y as int, dot_bnd(), dot_bnd());
            lemma_mul_bound(lhs.z as int, rhs.z as int, dot_bnd(), dot_bnd());
        }
        let px: i128 = (lhs.x as i128) * (rhs.x as i128);
        let py: i128 = (lhs.y as i128) * (rhs.y as i128);
        let pz: i128 = (lhs.z as i128) * (rhs.z as i128);
        crate::fixed::div_scale(px + py + pz)
    }

    /// The right-handed cross product, each component rescaled.
    pub fn cross(lhs: Vec3, rhs: Vec3) -> (r: Vec3)
        requires
            bounded(lhs, dot_bnd()),
            bounded(rhs, dot_bnd()),
        ensures
            r.x == fp_mul_s(lhs.y as int, rhs.z as int) - fp_mul_s(lhs.z as int, rhs.y as int),
            r.y == fp_mul_s(lhs.z as int, rhs.x as int) - fp_mul_s(lhs.x as int, rhs.z as int),
            r.z == fp_mul_s(lhs.x as int, rhs.y as int) - fp_mul_s(lhs.y as int, rhs.x as int),
    {
        proof {
            lemma_fp_mul_range(lhs.y as int, rhs.z as int, dot_bnd(), dot_bnd());
            lemma_fp_mul_range(lhs.z as int, rhs.y as int, dot_bnd(), dot_bnd());
            lemma_fp_mul_range(lhs.z as int, rhs.x as int, dot_bnd(), dot_bnd());
            lemma_fp_mul_range(lhs.x as int, rhs.z as int, dot_bnd(), dot_bnd());
            lemma_fp_mul_range(lhs.x as int, rhs.y as int, dot_bnd(), dot_bnd());
            lemma_fp_mul_range(lhs.y as int, rhs.x as int, dot_bnd(), dot_bnd());
        }
        Vec3 {
            x: fp_mul(lhs.y, rhs.z) - fp_mul(lhs.z, rhs.y),
            y: fp_mul(lhs.z, rhs.x) - fp_mul(lhs.x, rhs.z),
            z: fp_mul(lhs.x, rhs.y) - fp_mul(lhs.y, rhs.x),
        }
    }

    /// The squared length as a fixed-point scalar.
    pub fn length_double(&self) -> (r: i64)
        requires
            bounded(*self, dot_bnd()),
        ensures
            r == dot_s(*self, *self),
            r >= 0,
    {
        proof {
            lemma_dot_self_nonneg(*self);
        }
        Vec3::dot(*self, *self)
    }

    /// The fixed-point length.
    pub fn length(&self) -> (r: i64)
        requires
            bounded(*self, dot_bnd()),
        ensures
            r == len_s(*self),
            r >= 0,
    {
        let d: i64 = self.length_double();
        fp_sqrt(d)
    }

    /// The vector rescaled to (approximately) unit length; only
    /// meaningful when the squared length is at least one tick.
    pub fn unit_vector(&self) -> (r: Vec3)
        requires
            bounded(*self, dot_bnd()),
            dot_s(*self, *self) >= 1,
        ensures
            r.x == fp_div_s(self.x as int, len_s(*self)),
            r.y == fp_div_s(self.y as int, len_s(*self)),
            r.z == fp_div_s(self.z as int, len_s(*self)),
            bounded(r, 2 * SCALE),
            len_s(*self) >= 256,
    {
        proof {
            lemma_unit_bound(*self);
        }
        let len: i64 = self.length();
        Vec3 { x: fp_div(self.x, len), y: fp_div(self.y, len), z: fp_div(self.z, len) }
    }

    /// Componentwise clamp into `[lo, hi]`.
    pub fn clamp(&self, lo: i64, hi: i64) -> (r: Vec3)
        requires
            lo <= hi,
        ensures
            r.x == clamp_s(self.x as int, lo as int, hi as int),
            r.y == clamp_s(self.y as int, lo as int, hi as int),
            r.z == clamp_s(self.z as int, lo as int, hi as int),
    {
        Vec3 {
            x: clamp_one(self.x, lo, hi),
            y: clamp_one(self.y, lo, hi),
            z: clamp_one(self.z, lo, hi),
        }
    }

    /// Componentwise fixed-point square root (for gamma correction).
    pub fn sqrt(&self) -> (r: Vec3)
        requires
            self.x >= 0 && self.y >= 0 && self.z >= 0,
        ensures
            r.x == fp_sqrt_s(self.x as int),
            r.y == fp_sqrt_s(self.y as int),
            r.z == fp_sqrt_s(self.z as int),
            r.x >= 0 && r.y >= 0 && r.z >= 0,
    {
        Vec3 { x: fp_sqrt(self.x), y: fp_sqrt(self.y), z: fp_sqrt(self.z) }
    }

    /// Mirror reflection about a surface normal:
    /// `self - 2 * dot(self, normal) * normal`.
    pub fn reflect(&self, normal: Vec3) -> (r: Vec3)
        requires
            bounded(*self, 0x100_0000),
            bounded(normal, 0x4_0000),
        ensures
            r.x == self.x - fp_mul_s(2 * dot_s(*self, normal), normal.x as int),
            r.y == self.y - fp_mul_s(2 * dot_s(*self, normal), normal.y as int),
            r.z == self.z - fp_mul_s(2 * dot_s(*self, normal), normal.z as int),
            bounded(r, 0x8000_0000),
    {
        proof {
            lemma_dot_bound(*self, normal, 0x100_0000, 0x4_0000);
        }
        let d: i64 = Vec3::dot(*self, normal);
        let k: i64 = 2 * d;
        proof {
            lemma_fp_mul_range(k as int, normal.x as int, 0x1800_0000, 0x4_0000);
            lemma_fp_mul_range(k as int, normal.y as int, 0x1800_0000, 0x4_0000);
            lemma_fp_mul_range(k as int, normal.z as int, 0x1800_0000, 0x4_0000);
        }
        Vec3 {
            x: self.x - fp_mul(k, normal.x),
            y: self.y - fp_mul(k, normal.y),
            z: self.z - fp_mul(k, normal.z),
        }
    }

    /// A vector with each component drawn uniformly from `[min, max)`.
    pub fn random(rng: &mut rand::rngs::StdRng, min: i64, max: i64) -> (r: Vec3)
        requires
            min < max,
        ensures
            min <= r.x < max,
            min <= r.y < max,
            min <= r.z < max,
    {
        Vec3 {
            x: crate::rng::rand_in(rng, min, max),
            y: crate::rng::rand_in(rng, min, max),
            z: crate::rng::rand_in(rng, min, max),
        }
    }

    /// A point inside the unit ball, by rejection sampling. Draws of
    /// squared length under 256 ticks (a 1/16-unit core, about 0.02%
    /// of the ball) are rejected too, so the sample is always long
    /// enough to normalize within the grid's tolerance. Draws are
    /// retried a bounded number of times; if every draw is rejected,
    /// a fixed interior point is used instead.
    pub fn random_in_unit_sphere(rng: &mut rand::rngs::StdRng) -> (r: Vec3)
        ensures
            bounded(r, SCALE as int),
            256 <= dot_s(r, r) < SCALE,
    {
        let mut i: u64 = 0;
        while i < 64
            invariant
                true,
            decreases 64 - i,
        {
            let p = Vec3::random(rng, -65536, 65536);
            let d: i64 = p.length_double();
            if 256 <= d && d < 65536 {
                return p;
            }
            i = i + 1;
        }
        let fallback = Vec3 { x: 32768, y: 0, z: 0 };
        proof {
            assert(dot_raw(fallback, fallback) == 0x4000_0000) by (nonlinear_arith)
                requires
                    fallback.x == 32768 && fallback.y == 0 && fallback.z == 0,
            {}
            lemma_tdiv(0x4000_0000, SCALE as int);
            assert(0x4000_0000int / 65536int == 16384) by (nonlinear_arith);
            assert(dot_s(fallback, fallback) == 16384);
        }
        fallback
    }

    /// A point drawn from the unit ball and rescaled to unit length:
    /// the squared length of the result is one up to the grid bound
    /// of `lemma_unit_length`.
    pub fn random_unit_vector(rng: &mut rand::rngs::StdRng) -> (r: Vec3)
        ensures
            bounded(r, 2 * SCALE),
            SCALE - 12 <= dot_s(r, r) <= SCALE + 317,
    {
        let p = Vec3::random_in_unit_sphere(rng);
        let u = p.unit_vector();
        proof {
            lemma_unit_length(p, u);
        }
        u
    }

    /// A point of the unit ball on the side of the given normal: the
    /// draw is flipped if it opposes the normal.
    pub fn random_in_hemisphere(rng: &mut rand::rngs::StdRng, normal: Vec3) -> (r: Vec3)
        requires
            bounded(normal, 0x4_0000),
        ensures
            bounded(r, SCALE as int),
            256 <= dot_s(r, r) < SCALE,
            dot_s(r, normal) >= 0,
    {
        let p = Vec3::random_in_unit_sphere(rng);
        let d: i64 = Vec3::dot(p, normal);
        if d > 0 {
            p
        } else {
            let q = p.neg();
            proof {
                lemma_neg_dot(p, q, normal);
            }
            q
        }
    }
}

/// A scalar clamped into `[lo, hi]`.
pub open spec fn clamp_s(x: int, lo: int, hi: int) -> int {
    if x < lo {
        lo
    } else if x > hi {
        hi
    } else {
        x
    }
}

/// One clamped scalar.
fn clamp_one(x: i64, lo: i64, hi: i64) -> (r: i64)
    requires
        lo <= hi,
    ensures
        r == clamp_s(x as int, lo as int, hi as int),
{
    if x < lo {
        lo
    } else if x > hi {
        hi
    } else {
        x
    }
}

/// Negating one operand negates the inner product; negating both
/// operands of a self-product leaves it unchanged.
pub proof fn lemma_neg_dot(p: Vec3, q: Vec3, n: Vec3)
    requires
        q.x == -p.x,
        q.y == -p.y,
        q.z == -p.z,
    ensures
        dot_raw(q, n) == -dot_raw(p, n),
        dot_s(q, n) == -dot_s(p, n),
        dot_raw(q, q) == dot_raw(p, p),
        dot_s(q, q) == dot_s(p, p),
{
    assert(q.x * n.x == -(p.x * n.x) && q.y * n.y == -(p.y * n.y) && q.z * n.z == -(p.z * n.z))
        by (nonlinear_arith)
        requires
            q.x == -p.x,
            q.y == -p.y,
            q.z == -p.z,
    {}
    assert(q.x * q.x == p.x * p.x && q.y * q.y == p.y * p.y && q.z * q.z == p.z * p.z)
        by (nonlinear_arith)
        requires
            q.x == -p.x,
            q.y == -p.y,
            q.z == -p.z,
    {}
}

/// A vector's inner product with itself is nonnegative.
pub proof fn lemma_dot_self_nonneg(v: Vec3)
    ensures
        dot_raw(v, v) >= 0,
        dot_s(v, v) >= 0,
        dot_s(v, v) <= dot_raw(v, v),
{
    assert(v.x * v.x >= 0 && v.y * v.y >= 0 && v.z * v.z >= 0) by (nonlinear_arith);
    lemma_tdiv(dot_raw(v, v), SCALE as int);
    vstd::arithmetic::div_mod::lemma_div_is_ordered_by_denominator(dot_raw(v, v), 1, SCALE as int);
    vstd::arithmetic::div_mod::lemma_div_basics(dot_raw(v, v));
}

/// The inner product is symmetric.
pub proof fn lemma_dot_comm(a: Vec3, b: Vec3)
    ensures
        dot_raw(a, b) == dot_raw(b, a),
        dot_s(a, b) == dot_s(b, a),
{
    assert(a.x * b.x == b.x * a.x && a.y * b.y == b.y * a.y && a.z * b.z == b.z * a.z)
        by (nonlinear_arith);
}

/// The componentwise product of two well-formed colors is a
/// well-formed color.
pub proof fn lemma_color_mul(a: Vec3, b: Vec3)
    requires
        color_wf(a),
        color_wf(b),
    ensures
        fp_mul_ok(a.x as int, b.x as int),
        fp_mul_ok(a.y as int, b.y as int),
        fp_mul_ok(a.z as int, b.z as int),
        0 <= fp_mul_s(a.x as int, b.x as int) <= SCALE,
        0 <= fp_mul_s(a.y as int, b.y as int) <= SCALE,
        0 <= fp_mul_s(a.z as int, b.z as int) <= SCALE,
{
    lemma_color_mul_one(a.x as int, b.x as int);
    lemma_color_mul_one(a.y as int, b.y as int);
    lemma_color_mul_one(a.z as int, b.z as int);
}

/// One channel of the color product stays in `[0, SCALE]`.
proof fn lemma_color_mul_one(a: int, b: int)
    requires
        0 <= a <= SCALE,
        0 <= b <= SCALE,
    ensures
        fp_mul_ok(a, b),
        0 <= fp_mul_s(a, b) <= SCALE,
{
    lemma_fp_mul_range(a, b, SCALE as int, SCALE as int);
    assert(a * b >= 0) by (nonlinear_arith)
        requires
            a >= 0,
            b >= 0,
    {}
    assert((65536int * 65536int) / 65536int == 65536int) by (nonlinear_arith);
    lemma_tdiv(a * b, SCALE as int);
}

/// A bound on the inner product from bounds on the operands.
pub proof fn lemma_dot_bound(a: Vec3, b: Vec3, bnd_a: int, bnd_b: int)
    requires
        bounded(a, bnd_a),
        bounded(b, bnd_b),
        bnd_a >= 0,
        bnd_b >= 0,
    ensures
        abs_i(dot_raw(a, b)) <= 3 * bnd_a * bnd_b,
        abs_i(dot_s(a, b)) <= (3 * bnd_a * bnd_b) / (SCALE as int),
{
    lemma_mul_bound(a.x as int, b.x as int, bnd_a, bnd_b);
    lemma_mul_bound(a.y as int, b.y as int, bnd_a, bnd_b);
    lemma_mul_bound(a.z as int, b.z as int, bnd_a, bnd_b);
    assert(3 * bnd_a * bnd_b == (bnd_a * bnd_b) + (bnd_a * bnd_b) + (bnd_a * bnd_b))
        by (nonlinear_arith);
    lemma_tdiv_bound(dot_raw(a, b), SCALE as int, 3 * bnd_a * bnd_b);
}

/// Normalizing a vector of at least one tick of squared length gives
/// components within twice the unit scale.
pub proof fn lemma_unit_bound(v: Vec3)
    requires
        dot_s(v, v) >= 1,
    ensures
        len_s(v) >= 256,
        abs_i(fp_div_s(v.x as int, len_s(v))) <= 2 * SCALE,
        abs_i(fp_div_s(v.y as int, len_s(v))) <= 2 * SCALE,
        abs_i(fp_div_s(v.z as int, len_s(v))) <= 2 * SCALE,
{
    let s = SCALE as int;
    let d = dot_raw(v, v);
    let l = dot_s(v, v);
    let n = l * s;
    let len = sqrt_i(n);
    lemma_dot_self_nonneg(v);
    lemma_tdiv(d, s);
    vstd::arithmetic::div_mod::lemma_fundamental_div_mod(d, s);
    vstd::arithmetic::div_mod::lemma_mod_bound(d, s);
    assert(l == d / s);
    assert(n <= d < n + s) by (nonlinear_arith)
        requires
            d == (d / s) * s + d % s,
            0 <= d % s < s,
            n == (d / s) * s,
    {}
    assert(n >= s);
    lemma_sqrt_i(n);
    assert(len >= 256) by (nonlinear_arith)
        requires
            len >= 0,
            n < (len + 1) * (len + 1),
            n >= 65536,
    {}
    assert(d < 2 * n) by (nonlinear_arith)
        requires
            d < n + s,
            n >= s,
    {}
    assert(2 * n <= 4 * len * len) by (nonlinear_arith)
        requires
            len >= 256,
            n < (len + 1) * (len + 1),
    {}
    assert(v.x * v.x <= d && v.y * v.y <= d && v.z * v.z <= d) by (nonlinear_arith)
        requires
            d == v.x * v.x + v.y * v.y + v.z * v.z,
    {}
    lemma_unit_bound_component(v.x as int, d, len, s);
    lemma_unit_bound_component(v.y as int, d, len, s);
    lemma_unit_bound_component(v.z as int, d, len, s);
}

/// One component of the normalization bound.
proof fn lemma_unit_bound_component(c: int, d: int, len: int, s: int)
    requires
        s == SCALE as int,
        len >= 256,
        c * c <= d,
        d < 4 * len * len,
    ensures
        abs_i(tdiv(c * s, len)) <= 2 * s,
{
    assert(abs_i(c) <= 2 * len) by (nonlinear_arith)
        requires
            c * c < 4 * len * len,
            len > 0,
    {}
    lemma_mul_bound(c, s, 2 * len, s);
    assert(2 * len * s == 2 * s * len) by (nonlinear_arith);
    lemma_tdiv_bound(c * s, len, 2 * s * len);
    vstd::arithmetic::div_mod::lemma_div_by_multiple(2 * s, len);
}

/// Normalization yields a vector of (nearly) unit length: for any
/// vector of at least a sixteenth of a unit, the normalized vector's
/// fixed-point squared length lies within `[1 - 12/SCALE, 1 + 317/SCALE]`
/// of one. (For shorter vectors the tick grid is too coarse for any
/// such bound; normalizing, say, 300 ticks on one axis overshoots by
/// over a third.)
pub proof fn lemma_unit_length(v: Vec3, u: Vec3)
    requires
        dot_s(v, v) >= 256,
        u.x == fp_div_s(v.x as int, len_s(v)),
        u.y == fp_div_s(v.y as int, len_s(v)),
        u.z == fp_div_s(v.z as int, len_s(v)),
    ensures
        SCALE - 12 <= dot_s(u, u) <= SCALE + 317,
{
    let s = SCALE as int;
    let dd = dot_raw(v, v);
    let ll = dot_s(v, v);
    let n = ll * s;
    let len = sqrt_i(n);
    lemma_dot_self_nonneg(v);
    lemma_tdiv(dd, s);
    vstd::arithmetic::div_mod::lemma_fundamental_div_mod(dd, s);
    vstd::arithmetic::div_mod::lemma_mod_bound(dd, s);
    assert(n <= dd < n + s) by (nonlinear_arith)
        requires
            dd == (dd / s) * s + dd % s,
            0 <= dd % s < s,
            n == (dd / s) * s,
    {}
    assert(n >= 256 * s);
    lemma_sqrt_i(n);
    assert(len >= 4096) by (nonlinear_arith)
        requires
            len >= 0,
            n < (len + 1) * (len + 1),
            n >= 0x100_0000,
    {}
    assert(s <= 16 * len);
    assert(dd < 2 * n);
    assert(2 * n <= 4 * len * len) by (nonlinear_arith)
        requires
            len >= 3,
            len * len <= n,
            n < (len + 1) * (len + 1),
    {}
    assert(v.x * v.x <= dd && v.y * v.y <= dd && v.z * v.z <= dd) by (nonlinear_arith)
        requires
            dd == v.x * v.x + v.y * v.y + v.z * v.z,
    {}
    lemma_tdiv(v.x * s, len);
    lemma_tdiv(v.y * s, len);
    lemma_tdiv(v.z * s, len);
    let rx = v.x * s - tdiv(v.x * (SCALE as int), len) * len;
    let ry = v.y * s - tdiv(v.y * (SCALE as int), len) * len;
    let rz = v.z * s - tdiv(v.z * (SCALE as int), len) * len;
    let rv = v.x * rx + v.y * ry + v.z * rz;
    let rr = rx * rx + ry * ry + rz * rz;
    lemma_unit_length_component(v.x as int, u.x as int, rx, len, dd);
    lemma_unit_length_component(v.y as int, u.y as int, ry, len, dd);
    lemma_unit_length_component(v.z as int, u.z as int, rz, len, dd);
    let uu = dot_raw(u, u);
    assert(uu * (len * len) == (u.x * u.x) * (len * len) + (u.y * u.y) * (len * len) + (u.z
        * u.z) * (len * len)) by (nonlinear_arith)
        requires
            uu == u.x * u.x + u.y * u.y + u.z * u.z,
    {}
    assert(s * s * (v.x * v.x) + s * s * (v.y * v.y) + s * s * (v.z * v.z) == s * s * dd)
        by (nonlinear_arith)
        requires
            dd == v.x * v.x + v.y * v.y + v.z * v.z,
    {}
    assert(2 * s * (v.x * rx) + 2 * s * (v.y * ry) + 2 * s * (v.z * rz) == 2 * s * rv)
        by (nonlinear_arith)
        requires
            rv == v.x * rx + v.y * ry + v.z * rz,
    {}
    assert(len * len >= 1) by (nonlinear_arith)
        requires
            len >= 1,
    {}
    assert(uu * (len * len) == s * s * dd - 2 * s * rv + rr);
    assert(abs_i(rv) <= 6 * (len * len) && 0 <= rr <= 3 * (len * len));
    // Lower bound: dd >= n >= len * len, so the main term dominates.
    assert(uu * (len * len) >= (s * s - 12 * s) * (len * len)) by (nonlinear_arith)
        requires
            uu * (len * len) == s * s * dd - 2 * s * rv + rr,
            abs_i(rv) <= 6 * (len * len),
            rr >= 0,
            dd >= len * len,
            s > 0,
    {}
    assert(uu >= s * s - 12 * s) by (nonlinear_arith)
        requires
            uu * (len * len) >= (s * s - 12 * s) * (len * len),
            len * len >= 1,
    {}
    // Upper bound: dd < (len + 1)^2 + s, and s <= 16 * len.
    assert(s * s * dd <= s * s * (len * len) + (304 * s) * (len * len)) by (nonlinear_arith)
        requires
            dd < (len + 1) * (len + 1) + s,
            s <= 16 * len,
            s >= 3,
            len >= 4096,
    {}
    assert(uu * (len * len) <= (s * s + 317 * s) * (len * len)) by (nonlinear_arith)
        requires
            uu * (len * len) == s * s * dd - 2 * s * rv + rr,
            s * s * dd <= s * s * (len * len) + (304 * s) * (len * len),
            abs_i(rv) <= 6 * (len * len),
            0 <= rr <= 3 * (len * len),
            s >= 3,
    {}
    assert(uu <= s * s + 317 * s) by (nonlinear_arith)
        requires
            uu * (len * len) <= (s * s + 317 * s) * (len * len),
            len * len >= 1,
    {}
    // Convert the raw bounds to the rescaled inner product.
    assert(uu >= 0) by (nonlinear_arith)
        requires
            uu == u.x * u.x + u.y * u.y + u.z * u.z,
    {}
    lemma_tdiv(uu, s);
    vstd::arithmetic::div_mod::lemma_div_is_ordered(s * s - 12 * s, uu, s);
    vstd::arithmetic::div_mod::lemma_div_is_ordered(uu, s * s + 317 * s, s);
    assert(s * s - 12 * s == (s - 12) * s && s * s + 317 * s == (s + 317) * s)
        by (nonlinear_arith);
    vstd::arithmetic::div_mod::lemma_div_by_multiple(s - 12, s);
    vstd::arithmetic::div_mod::lemma_div_by_multiple(s + 317, s);
}

/// One component of the normalization error expansion:
/// `(u_i * len)^2` expands into the exact square minus the rounding
/// cross terms, with the remainder and cross term bounded by `len`.
proof fn lemma_unit_length_component(c: int, ucomp: int, rem: int, len: int, dd: int)
    requires
        len > 0,
        ucomp == tdiv(c * (SCALE as int), len),
        rem == c * (SCALE as int) - tdiv(c * (SCALE as int), len) * len,
        abs_i(rem) < len,
        c * c <= dd,
        dd < 4 * len * len,
    ensures
        (ucomp * ucomp) * (len * len) == (SCALE as int) * (SCALE as int) * (c * c) - 2 * (
        SCALE as int) * (c * rem) + rem * rem,
        abs_i(c * rem) <= 2 * (len * len),
        0 <= rem * rem <= len * len,
{
    let s = SCALE as int;
    assert(abs_i(c) <= 2 * len) by (nonlinear_arith)
        requires
            c * c < 4 * len * len,
            len > 0,
    {}
    lemma_mul_bound(c, rem, 2 * len, len);
    assert((2 * len) * len == 2 * (len * len)) by (nonlinear_arith);
    lemma_mul_bound(rem, rem, len, len);
    assert(rem * rem >= 0) by (nonlinear_arith);
    assert(ucomp * len == c * s - rem) by (nonlinear_arith)
        requires
            ucomp == tdiv(c * s, len),
            rem == c * s - tdiv(c * s, len) * len,
    {}
    assert((ucomp * ucomp) * (len * len) == (ucomp * len) * (ucomp * len)) by (nonlinear_arith);
    assert((c * s - rem) * (c * s - rem) == s * s * (c * c) - 2 * s * (c * rem) + rem * rem)
        by (nonlinear_arith);
}

/// The exact cross product is orthogonal to both factors: over the
/// unrounded component products, `dot(cross(a, b), a)` and
/// `dot(cross(a, b), b)` vanish identically.
pub proof fn lemma_cross_orthogonal(a: Vec3, b: Vec3)
    ensures
        (a.y * b.z - a.z * b.y) * a.x + (a.z * b.x - a.x * b.z) * a.y + (a.x * b.y - a.y * b.x)
            * a.z == 0,
        (a.y * b.z - a.z * b.y) * b.x + (a.z * b.x - a.x * b.z) * b.y + (a.x * b.y - a.y * b.x)
            * b.z == 0,
{
    assert((a.y * b.z - a.z * b.y) * a.x + (a.z * b.x - a.x * b.z) * a.y + (a.x * b.y - a.y
        * b.x) * a.z == 0) by (nonlinear_arith);
    assert((a.y * b.z - a.z * b.y) * b.x + (a.z * b.x - a.x * b.z) * b.y + (a.x * b.y - a.y
        * b.x) * b.z == 0) by (nonlinear_arith);
}

/// The executable cross product, which rounds each component once per
/// factor product, stays orthogonal to both factors up to a rounding
/// defect of at most twice the sum of the factor's component
/// magnitudes (in ticks).
pub proof fn lemma_cross_rounding(a: Vec3, b: Vec3, c: Vec3)
    requires
        c.x == fp_mul_s(a.y as int, b.z as int) - fp_mul_s(a.z as int, b.y as int),
        c.y == fp_mul_s(a.z as int, b.x as int) - fp_mul_s(a.x as int, b.z as int),
        c.z == fp_mul_s(a.x as int, b.y as int) - fp_mul_s(a.y as int, b.x as int),
    ensures
        abs_i(dot_raw(c, a)) <= 2 * (abs_i(a.x as int) + abs_i(a.y as int) + abs_i(a.z as int)),
        abs_i(dot_raw(c, b)) <= 2 * (abs_i(b.x as int) + abs_i(b.y as int) + abs_i(b.z as int)),
{
    let s = SCALE as int;
    let d1 = a.y * b.z;
    let d2 = a.z * b.y;
    let d3 = a.z * b.x;
    let d4 = a.x * b.z;
    let d5 = a.x * b.y;
    let d6 = a.y * b.x;
    lemma_tdiv(d1, s);
    lemma_tdiv(d2, s);
    lemma_tdiv(d3, s);
    lemma_tdiv(d4, s);
    lemma_tdiv(d5, s);
    lemma_tdiv(d6, s);
    let ex = (d1 - d2) - s * c.x;
    let ey = (d3 - d4) - s * c.y;
    let ez = (d5 - d6) - s * c.z;
    assert(s * c.x == tdiv(d1, s) * s - tdiv(d2, s) * s) by (nonlinear_arith)
        requires
            c.x == tdiv(d1, s) - tdiv(d2, s),
    {}
    assert(s * c.y == tdiv(d3, s) * s - tdiv(d4, s) * s) by (nonlinear_arith)
        requires
            c.y == tdiv(d3, s) - tdiv(d4, s),
    {}
    assert(s * c.z == tdiv(d5, s) * s - tdiv(d6, s) * s) by (nonlinear_arith)
        requires
            c.z == tdiv(d5, s) - tdiv(d6, s),
    {}
    assert(abs_i(ex) < 2 * s && abs_i(ey) < 2 * s && abs_i(ez) < 2 * s);
    lemma_cross_orthogonal(a, b);
    lemma_cross_rounding_side(
        c, ex, ey, ez, d1 - d2, d3 - d4, d5 - d6, a.x as int, a.y as int, a.z as int,
        dot_raw(c, a),
    );
    lemma_cross_rounding_side(
        c, ex, ey, ez, d1 - d2, d3 - d4, d5 - d6, b.x as int, b.y as int, b.z as int,
        dot_raw(c, b),
    );
}

/// One side of the rounding bound: if the scaled cross components
/// differ from the exact ones by at most `2 * SCALE` each, and the
/// exact ones are orthogonal to `(vx, vy, vz)`, the rounded inner
/// product is small.
proof fn lemma_cross_rounding_side(
    c: Vec3,
    ex: int,
    ey: int,
    ez: int,
    gx: int,
    gy: int,
    gz: int,
    vx: int,
    vy: int,
    vz: int,
    d: int,
)
    requires
        ex == gx - (SCALE as int) * c.x,
        ey == gy - (SCALE as int) * c.y,
        ez == gz - (SCALE as int) * c.z,
        abs_i(ex) < 2 * SCALE,
        abs_i(ey) < 2 * SCALE,
        abs_i(ez) < 2 * SCALE,
        gx * vx + gy * vy + gz * vz == 0,
        d == c.x * vx + c.y * vy + c.z * vz,
    ensures
        abs_i(d) <= 2 * (abs_i(vx) + abs_i(vy) + abs_i(vz)),
{
    let s = SCALE as int;
    assert(s * d == (s * c.x) * vx + (s * c.y) * vy + (s * c.z) * vz) by (nonlinear_arith)
        requires
            d == c.x * vx + c.y * vy + c.z * vz,
            s == SCALE as int,
    {}
    assert((s * c.x) * vx == gx * vx - ex * vx) by (nonlinear_arith)
        requires
            s * c.x == gx - ex,
    {}
    assert((s * c.y) * vy == gy * vy - ey * vy) by (nonlinear_arith)
        requires
            s * c.y == gy - ey,
    {}
    assert((s * c.z) * vz == gz * vz - ez * vz) by (nonlinear_arith)
        requires
            s * c.z == gz - ez,
    {}
    lemma_mul_bound(ex, vx, 2 * s, abs_i(vx));
    lemma_mul_bound(ey, vy, 2 * s, abs_i(vy));
    lemma_mul_bound(ez, vz, 2 * s, abs_i(vz));
    assert(2 * s * abs_i(vx) + 2 * s * abs_i(vy) + 2 * s * abs_i(vz) == s * (2 * (abs_i(vx)
        + abs_i(vy) + abs_i(vz)))) by (nonlinear_arith);
    assert(abs_i(s * d) == s * abs_i(d)) by (nonlinear_arith)
        requires
            s > 0,
    {}
    assert(abs_i(d) <= 2 * (abs_i(vx) + abs_i(vy) + abs_i(vz))) by (nonlinear_arith)
        requires
            s * abs_i(d) <= s * (2 * (abs_i(vx) + abs_i(vy) + abs_i(vz))),
            s > 0,
    {}
}

/// The exact reflection formula flips the normal component: over the
/// unrounded products, `dot(reflect(v, n), n) == -dot(v, n)` whenever
/// `n` has exact unit length, and more generally the defect is
/// proportional to `dot(n, n) - 1`.
pub proof fn lemma_reflect_dot(v: Vec3, n: Vec3)
    ensures
        (dot_raw(n, n) * v.x - 2 * dot_raw(v, n) * n.x) * n.x + (dot_raw(n, n) * v.y - 2
            * dot_raw(v, n) * n.y) * n.y + (dot_raw(n, n) * v.z - 2 * dot_raw(v, n) * n.z) * n.z
            == -dot_raw(n, n) * dot_raw(v, n),
{
    let nn = dot_raw(n, n);
    let vn = dot_raw(v, n);
    assert((nn * v.x - 2 * vn * n.x) * n.x == nn * (v.x * n.x) - 2 * vn * (n.x * n.x))
        by (nonlinear_arith);
    assert((nn * v.y - 2 * vn * n.y) * n.y == nn * (v.y * n.y) - 2 * vn * (n.y * n.y))
        by (nonlinear_arith);
    assert((nn * v.z - 2 * vn * n.z) * n.z == nn * (v.z * n.z) - 2 * vn * (n.z * n.z))
        by (nonlinear_arith);
    assert(nn * (v.x * n.x) + nn * (v.y * n.y) + nn * (v.z * n.z) == nn * vn) by (nonlinear_arith)
        requires
            vn == v.x * n.x + v.y * n.y + v.z * n.z,
    {}
    assert(2 * vn * (n.x * n.x) + 2 * vn * (n.y * n.y) + 2 * vn * (n.z * n.z) == 2 * vn * nn)
        by (nonlinear_arith)
        requires
            nn == n.x * n.x + n.y * n.y + n.z * n.z,
    {}
    assert(nn * vn - 2 * vn * nn == -nn * vn) by (nonlinear_arith);
}

/// The executable reflection satisfies the normal-flip law up to
/// rounding: scaled by `SCALE^2`, the inner product of the reflected
/// vector with the normal differs from
/// `(SCALE^2 - 2 * dot(n, n)) * dot(v, n)` — which is
/// `-SCALE^2 * dot(v, n)` for an exactly unit normal — by at most
/// `2 * SCALE * dot(n, n) + SCALE^2 * (|n.x| + |n.y| + |n.z|)`.
pub proof fn lemma_reflect_rounding(v: Vec3, n: Vec3, r: Vec3)
    requires
        r.x == v.x - fp_mul_s(2 * dot_s(v, n), n.x as int),
        r.y == v.y - fp_mul_s(2 * dot_s(v, n), n.y as int),
        r.z == v.z - fp_mul_s(2 * dot_s(v, n), n.z as int),
    ensures
        abs_i(
            (SCALE as int) * (SCALE as int) * dot_raw(r, n) - ((SCALE as int) * (SCALE as int) - 2
                * dot_raw(n, n)) * dot_raw(v, n),
        ) <= 2 * (SCALE as int) * dot_raw(n, n) + (SCALE as int) * (SCALE as int) * (abs_i(
            n.x as int,
        ) + abs_i(n.y as int) + abs_i(n.z as int)),
{
    let s = SCALE as int;
    let dvn = dot_raw(v, n);
    let nn = dot_raw(n, n);
    let k = 2 * tdiv(dvn, s);
    lemma_tdiv(dvn, s);
    let f = dvn - tdiv(dvn, s) * s;
    assert(s * k == 2 * dvn - 2 * f) by (nonlinear_arith)
        requires
            k == 2 * tdiv(dvn, s),
            f == dvn - tdiv(dvn, s) * s,
    {}
    lemma_tdiv(k * (n.x as int), s);
    lemma_tdiv(k * (n.y as int), s);
    lemma_tdiv(k * (n.z as int), s);
    let ex = k * n.x - tdiv(k * (n.x as int), s) * s;
    let ey = k * n.y - tdiv(k * (n.y as int), s) * s;
    let ez = k * n.z - tdiv(k * (n.z as int), s) * s;
    assert(s * r.x == s * v.x - (k * n.x - ex) && s * r.y == s * v.y - (k * n.y - ey) && s * r.z
        == s * v.z - (k * n.z - ez)) by (nonlinear_arith)
        requires
            r.x == v.x - tdiv(k * (n.x as int), s),
            r.y == v.y - tdiv(k * (n.y as int), s),
            r.z == v.z - tdiv(k * (n.z as int), s),
            ex == k * n.x - tdiv(k * (n.x as int), s) * s,
            ey == k * n.y - tdiv(k * (n.y as int), s) * s,
            ez == k * n.z - tdiv(k * (n.z as int), s) * s,
    {}
    let ee = ex * n.x + ey * n.y + ez * n.z;
    assert((s * r.x) * n.x == s * (v.x * n.x) - k * (n.x * n.x) + ex * n.x) by (nonlinear_arith)
        requires
            s * r.x == s * v.x - (k * n.x - ex),
    {}
    assert((s * r.y) * n.y == s * (v.y * n.y) - k * (n.y * n.y) + ey * n.y) by (nonlinear_arith)
        requires
            s * r.y == s * v.y - (k * n.y - ey),
    {}
    assert((s * r.z) * n.z == s * (v.z * n.z) - k * (n.z * n.z) + ez * n.z) by (nonlinear_arith)
        requires
            s * r.z == s * v.z - (k * n.z - ez),
    {}
    assert(s * (r.x * n.x) == (s * r.x) * n.x) by (nonlinear_arith);
    assert(s * (r.y * n.y) == (s * r.y) * n.y) by (nonlinear_arith);
    assert(s * (r.z * n.z) == (s * r.z) * n.z) by (nonlinear_arith);
    assert(s * dot_raw(r, n) == s * (r.x * n.x) + s * (r.y * n.y) + s * (r.z * n.z));
    assert(s * (v.x * n.x) + s * (v.y * n.y) + s * (v.z * n.z) == s * dvn) by (nonlinear_arith)
        requires
            dvn == v.x * n.x + v.y * n.y + v.z * n.z,
    {}
    assert(k * (n.x * n.x) + k * (n.y * n.y) + k * (n.z * n.z) == k * nn) by (nonlinear_arith)
        requires
            nn == n.x * n.x + n.y * n.y + n.z * n.z,
    {}
    assert(s * dot_raw(r, n) == s * dvn - k * nn + ee);
    assert(s * (s * dot_raw(r, n)) == s * (s * dvn) - (s * k) * nn + s * ee) by (nonlinear_arith)
        requires
            s * dot_raw(r, n) == s * dvn - k * nn + ee,
    {}
    assert((s * k) * nn == 2 * (dvn * nn) - 2 * f * nn) by (nonlinear_arith)
        requires
            s * k == 2 * dvn - 2 * f,
    {}
    assert((s * s - 2 * nn) * dvn == s * s * dvn - 2 * (dvn * nn)) by (nonlinear_arith);
    assert(s * (s * dot_raw(r, n)) == s * s * dot_raw(r, n) && s * (s * dvn) == s * s * dvn)
        by (nonlinear_arith);
    assert(s * s * dot_raw(r, n) - (s * s - 2 * nn) * dvn == 2 * f * nn + s * ee);
    lemma_dot_self_nonneg(n);
    lemma_mul_bound(f, nn, s, nn);
    lemma_mul_bound(ex, n.x as int, s, abs_i(n.x as int));
    lemma_mul_bound(ey, n.y as int, s, abs_i(n.y as int));
    lemma_mul_bound(ez, n.z as int, s, abs_i(n.z as int));
    assert(abs_i(2 * f * nn) <= 2 * s * nn) by (nonlinear_arith)
        requires
            abs_i(f * nn) <= s * nn,
    {}
    assert(abs_i(s * ee) == s * abs_i(ee)) by (nonlinear_arith)
        requires
            s > 0,
    {}
    assert(s * abs_i(ee) <= s * (s * (abs_i(n.x as int) + abs_i(n.y as int) + abs_i(n.z as int))))
        by (nonlinear_arith)
        requires
            abs_i(ee) <= s * abs_i(n.x as int) + s * abs_i(n.y as int) + s * abs_i(n.z as int),
            s > 0,
    {}
    assert(s * (s * (abs_i(n.x as int) + abs_i(n.y as int) + abs_i(n.z as int))) == s * s * (
    abs_i(n.x as int) + abs_i(n.y as int) + abs_i(n.z as int))) by (nonlinear_arith);
}

} // verus!
