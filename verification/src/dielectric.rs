//! The dielectric material: refracts by Snell's law when possible,
//! reflects under total internal reflection. Glass absorbs nothing,
//! so the attenuation is always white. The whole scatter decision is
//! deterministic and carries an exact contract.

use vstd::prelude::*;
use crate::fixed::{
    fp_div, fp_div_s, fp_mul, fp_mul_s, fp_sqrt, lemma_fp_mul_range, lemma_tdiv_bound, sqrt_i,
    tdiv, SCALE,
};
use crate::hittable::{rec_wf, HitRecord};
use crate::material::Scattered;
use crate::ray::{nrm_lim, ray_live, Ray};
use crate::vec3::{bounded, dot_s, len_s, lemma_dot_bound, Vec3};

verus! {

#[derive(Clone, Copy)]
pub struct Dielectric {
    pub refractive_index: i64,
}

/// An index the fixed-point pipeline can divide by and scale with:
/// between 1/64 and 16.
pub open spec fn dielectric_wf(d: Dielectric) -> bool {
    1024 <= d.refractive_index <= 0x10_0000
}

/// The exact fixed-point Snell refraction of a unit direction `u`
/// about the normal `n` with refraction ratio `eta`, mirroring the
/// executable computation step for step. A negative radicand (possible
/// only at the rounding edge of total internal reflection) is clamped
/// to zero.
pub open spec fn refract_s(u: (int, int, int), n: Vec3, eta: int) -> (int, int, int) {
    let cos0 = -tdiv(u.0 * n.x + u.1 * n.y + u.2 * n.z, SCALE as int);
    let cos = if cos0 > SCALE { SCALE as int } else { cos0 };
    let px = fp_mul_s(u.0 + fp_mul_s(n.x as int, cos), eta);
    let py = fp_mul_s(u.1 + fp_mul_s(n.y as int, cos), eta);
    let pz = fp_mul_s(u.2 + fp_mul_s(n.z as int, cos), eta);
    let ld = tdiv(px * px + py * py + pz * pz, SCALE as int);
    let k = if SCALE - ld < 0 { 0 } else { SCALE - ld };
    let sq = sqrt_i(k * SCALE);
    (px - fp_mul_s(n.x as int, sq), py - fp_mul_s(n.y as int, sq), pz - fp_mul_s(n.z as int, sq))
}

/// An index-matched boundary (refraction ratio exactly one) does not
/// bend a head-on ray: for a unit normal on the tick grid and the
/// incoming direction exactly opposite to it, the refracted direction
/// equals the incoming one, with no rounding at all. (At oblique
/// angles the equality holds only up to the tick grid: the square
/// root of the rounded `1 - cos^2` can land one tick short.)
pub proof fn lemma_index_matched_head_on(u: (int, int, int), n: Vec3)
    requires
        u.0 == -n.x,
        u.1 == -n.y,
        u.2 == -n.z,
        dot_s(n, n) == SCALE,
    ensures
        refract_s(u, n, SCALE as int) == u,
{
    let s = SCALE as int;
    let nn = crate::vec3::dot_raw(n, n);
    assert(u.0 * n.x + u.1 * n.y + u.2 * n.z == -nn) by (nonlinear_arith)
        requires
            u.0 == -n.x,
            u.1 == -n.y,
            u.2 == -n.z,
            nn == n.x * n.x + n.y * n.y + n.z * n.z,
    {}
    crate::vec3::lemma_dot_self_nonneg(n);
    assert(tdiv(-nn, s) == -tdiv(nn, s));
    crate::fixed::lemma_fp_mul_one(n.x as int);
    crate::fixed::lemma_fp_mul_one(n.y as int);
    crate::fixed::lemma_fp_mul_one(n.z as int);
    lemma_sqrt_unique_scale();
    let cos0 = -tdiv(u.0 * n.x + u.1 * n.y + u.2 * n.z, s);
    assert(cos0 == s);
    let cos = if cos0 > SCALE {
        SCALE as int
    } else {
        cos0
    };
    assert(cos == s);
    assert(u.0 + fp_mul_s(n.x as int, cos) == 0);
    assert(u.1 + fp_mul_s(n.y as int, cos) == 0);
    assert(u.2 + fp_mul_s(n.z as int, cos) == 0);
    let px = fp_mul_s(u.0 + fp_mul_s(n.x as int, cos), s);
    let py = fp_mul_s(u.1 + fp_mul_s(n.y as int, cos), s);
    let pz = fp_mul_s(u.2 + fp_mul_s(n.z as int, cos), s);
    assert(0 * s == 0) by (nonlinear_arith);
    assert(tdiv(0, s) == 0);
    assert(px == 0 && py == 0 && pz == 0);
    assert(px * px + py * py + pz * pz == 0) by (nonlinear_arith)
        requires
            px == 0 && py == 0 && pz == 0,
    {}
    let ld = tdiv(px * px + py * py + pz * pz, s);
    assert(ld == 0);
    let k = if SCALE - ld < 0 {
        0
    } else {
        SCALE - ld
    };
    assert(k == s);
    assert(k * (SCALE as int) == s * s);
    assert(sqrt_i(k * (SCALE as int)) == s);
    assert(refract_s(u, n, s).0 == px - fp_mul_s(n.x as int, sqrt_i(k * (SCALE as int))));
    assert(refract_s(u, n, s).0 == -n.x);
    assert(refract_s(u, n, s).1 == -n.y);
    assert(refract_s(u, n, s).2 == -n.z);
}

/// An index-matched boundary does not bend any non-grazing ray that
/// is unit on the tick grid: for the unit normal along the z axis and
/// an incoming direction whose downward component is exactly the grid
/// complement of its horizontal part (the on-grid form of unit
/// length), the refracted direction equals the incoming one. Incoming
/// directions off that grid can still shift by a tick or two, as the
/// example in the tests shows.
pub proof fn lemma_index_matched_axis(u: (int, int, int), n: Vec3)
    requires
        n.x == 0,
        n.y == 0,
        n.z == SCALE,
        tdiv(u.0 * u.0 + u.1 * u.1, SCALE as int) <= SCALE,
        u.2 == -sqrt_i((SCALE - tdiv(u.0 * u.0 + u.1 * u.1, SCALE as int)) * SCALE),
    ensures
        refract_s(u, n, SCALE as int) == u,
{
    let s = SCALE as int;
    let h = tdiv(u.0 * u.0 + u.1 * u.1, s);
    let sq0 = sqrt_i((s - h) * s);
    assert(h >= 0) by {
        assert(u.0 * u.0 >= 0 && u.1 * u.1 >= 0) by (nonlinear_arith);
        crate::fixed::lemma_tdiv(u.0 * u.0 + u.1 * u.1, s);
    }
    assert((s - h) * s <= s * s) by (nonlinear_arith)
        requires
            h >= 0,
            s > 0,
    {}
    crate::fixed::lemma_sqrt_i((s - h) * s);
    assert(sq0 <= s) by (nonlinear_arith)
        requires
            sq0 >= 0,
            sq0 * sq0 <= (s - h) * s,
            (s - h) * s <= s * s,
            s > 0,
    {}
    // cos comes out as the (nonnegative) upward component.
    crate::fixed::lemma_fp_mul_one(u.2);
    let cos0 = -tdiv(u.0 * n.x + u.1 * n.y + u.2 * n.z, s);
    assert(u.0 * n.x == 0 && u.1 * n.y == 0 && u.2 * n.z == u.2 * s) by (nonlinear_arith)
        requires
            n.x == 0 && n.y == 0 && n.z == s,
    {}
    assert(cos0 == -u.2);
    let cos = if cos0 > SCALE {
        SCALE as int
    } else {
        cos0
    };
    assert(cos == sq0);
    // The parallel part keeps the horizontal components and zeroes
    // the vertical one; eta == 1 rescales nothing.
    crate::fixed::lemma_fp_mul_one(cos);
    assert(fp_mul_s(0, cos) == 0) by {
        assert(0 * cos == 0) by (nonlinear_arith);
        assert(tdiv(0, s) == 0);
    }
    crate::fixed::lemma_fp_mul_one(u.0);
    crate::fixed::lemma_fp_mul_one(u.1);
    assert(fp_mul_s(0, s) == 0) by {
        assert(0 * s == 0) by (nonlinear_arith);
        assert(tdiv(0, s) == 0);
    }
    let px = fp_mul_s(u.0 + fp_mul_s(n.x as int, cos), s);
    let py = fp_mul_s(u.1 + fp_mul_s(n.y as int, cos), s);
    let pz = fp_mul_s(u.2 + fp_mul_s(n.z as int, cos), s);
    assert(px == u.0 && py == u.1 && pz == 0);
    // The radicand is exactly the grid complement, so the square root
    // restores the vertical component.
    assert(px * px + py * py + pz * pz == u.0 * u.0 + u.1 * u.1) by (nonlinear_arith)
        requires
            px == u.0 && py == u.1 && pz == 0,
    {}
    let ld = tdiv(px * px + py * py + pz * pz, s);
    assert(ld == h);
    crate::fixed::lemma_fp_mul_one(sq0);
    assert(refract_s(u, n, s).0 == u.0 && refract_s(u, n, s).1 == u.1 && refract_s(u, n, s).2
        == 0 - sq0);
}

/// `sqrt_i(SCALE * SCALE) == SCALE`.
proof fn lemma_sqrt_unique_scale()
    ensures
        sqrt_i((SCALE as int) * (SCALE as int)) == SCALE,
{
    let s = SCALE as int;
    assert(s * s < (s + 1) * (s + 1)) by (nonlinear_arith)
        requires
            s > 0,
    {}
    crate::fixed::lemma_sqrt_unique(s * s, s);
}

impl Dielectric {
    pub fn new(refractive_index: i64) -> (r: Dielectric)
        requires
            1024 <= refractive_index <= 0x10_0000,
        ensures
            r.refractive_index == refractive_index,
            dielectric_wf(r),
    {
        Dielectric { refractive_index }
    }

    /// The ratio of refractive indices along the ray: entering from
    /// outside uses `1 / index`, leaving from inside uses `index`.
    pub open spec fn eta_s(self, front_face: bool) -> int {
        if front_face {
            fp_div_s(SCALE as int, self.refractive_index as int)
        } else {
            self.refractive_index as int
        }
    }

    /// What scattering produces for a given incoming direction: the
    /// refracted direction below the total-internal-reflection
    /// threshold, the normalized reflected direction above it. A
    /// reflected direction under one tick of squared length cannot be
    /// normalized and is passed on as it is; such a path dies at the
    /// tracer's liveness guard. Glass never absorbs.
    pub open spec fn scatter_dir_s(self, dir: Vec3, n: Vec3, front: bool) -> (int, int, int) {
        let eta = self.eta_s(front);
        let l = len_s(dir);
        let u = (
            fp_div_s(dir.x as int, l),
            fp_div_s(dir.y as int, l),
            fp_div_s(dir.z as int, l),
        );
        let cos0 = -tdiv(u.0 * n.x + u.1 * n.y + u.2 * n.z, SCALE as int);
        let cos = if cos0 > SCALE { SCALE as int } else { cos0 };
        let c2 = fp_mul_s(cos, cos);
        let k1 = if SCALE - c2 < 0 { 0 } else { SCALE - c2 };
        let sin = sqrt_i(k1 * SCALE);
        if fp_mul_s(eta, sin) > SCALE {
            let rx = dir.x - fp_mul_s(2 * dot_s(dir, n), n.x as int);
            let ry = dir.y - fp_mul_s(2 * dot_s(dir, n), n.y as int);
            let rz = dir.z - fp_mul_s(2 * dot_s(dir, n), n.z as int);
            let rl = tdiv(rx * rx + ry * ry + rz * rz, SCALE as int);
            if rl < 1 {
                (rx, ry, rz)
            } else {
                let rlen = sqrt_i(rl * SCALE);
                (fp_div_s(rx, rlen), fp_div_s(ry, rlen), fp_div_s(rz, rlen))
            }
        } else {
            refract_s(u, n, eta)
        }
    }

    /// Snell refraction of a unit incoming direction.
    pub fn refract(&self, unit_ray_in_dir: Vec3, normal: Vec3, eta_in_over_out: i64) -> (r: Vec3)
        requires
            bounded(unit_ray_in_dir, 2 * SCALE),
            bounded(normal, nrm_lim()),
            0 < eta_in_over_out <= 0x40_0000,
        ensures
            r.x == refract_s(
                (unit_ray_in_dir.x as int, unit_ray_in_dir.y as int, unit_ray_in_dir.z as int),
                normal,
                eta_in_over_out as int,
            ).0,
            r.y == refract_s(
                (unit_ray_in_dir.x as int, unit_ray_in_dir.y as int, unit_ray_in_dir.z as int),
                normal,
                eta_in_over_out as int,
            ).1,
            r.z == refract_s(
                (unit_ray_in_dir.x as int, unit_ray_in_dir.y as int, unit_ray_in_dir.z as int),
                normal,
                eta_in_over_out as int,
            ).2,
            bounded(r, 0x8000_0000),
    {
        proof {
            lemma_dot_bound(unit_ray_in_dir, normal, 2 * SCALE, nrm_lim());
        }
        let d: i64 = Vec3::dot(unit_ray_in_dir, normal);
        let cos0: i64 = -d;
        let cos: i64 = if cos0 > 65536 {
            65536
        } else {
            cos0
        };
        proof {
            lemma_fp_mul_range(normal.x as int, cos as int, nrm_lim(), 0x20_0000);
            lemma_fp_mul_range(normal.y as int, cos as int, nrm_lim(), 0x20_0000);
            lemma_fp_mul_range(normal.z as int, cos as int, nrm_lim(), 0x20_0000);
        }
        let cn = normal.scale(cos);
        let w = unit_ray_in_dir.plus(cn);
        proof {
            lemma_fp_mul_range(w.x as int, eta_in_over_out as int, 0x100_0000, 0x40_0000);
            lemma_fp_mul_range(w.y as int, eta_in_over_out as int, 0x100_0000, 0x40_0000);
            lemma_fp_mul_range(w.z as int, eta_in_over_out as int, 0x100_0000, 0x40_0000);
        }
        let op = w.scale(eta_in_over_out);
        proof {
            lemma_dot_bound(op, op, 0x4000_0000_0000, 0x4000_0000_0000);
            crate::vec3::lemma_dot_self_nonneg(op);
        }
        let ld: i64 = op.length_double();
        let k: i64 = if 65536 - ld < 0 {
            0
        } else {
            65536 - ld
        };
        let sq: i64 = fp_sqrt(k);
        proof {
            assert(sq <= 65536) by (nonlinear_arith)
                requires
                    sq >= 0,
                    sq * sq <= k * 65536,
                    k <= 65536,
            {}
            lemma_fp_mul_range(normal.x as int, sq as int, nrm_lim(), 0x1_0000);
            lemma_fp_mul_range(normal.y as int, sq as int, nrm_lim(), 0x1_0000);
            lemma_fp_mul_range(normal.z as int, sq as int, nrm_lim(), 0x1_0000);
        }
        let sn = normal.scale(sq);
        op.minus(sn)
    }

    /// Scatters deterministically and always: refracts when Snell's
    /// law permits, reflects under total internal reflection. The
    /// attenuation is always white: glass never absorbs.
    pub fn scatter(&self, ray_in: &Ray, rec: &HitRecord) -> (r: Option<Scattered>)
        requires
            dielectric_wf(*self),
            rec_wf(*rec),
            ray_live(*ray_in),
        ensures
            r.is_some(),
            r matches Some(sc) ==> {
                &&& sc.attenuation.x == SCALE && sc.attenuation.y == SCALE && sc.attenuation.z
                    == SCALE
                &&& sc.ray.org == rec.p
                &&& bounded(sc.ray.dir, 0x8000_0000)
                &&& (sc.ray.dir.x as int, sc.ray.dir.y as int, sc.ray.dir.z as int)
                    == self.scatter_dir_s(ray_in.dir, rec.normal, rec.front_face)
            },
    {
        let attenuation = Vec3 { x: 65536, y: 65536, z: 65536 };
        let eta: i64 = if rec.front_face {
            proof {
                lemma_tdiv_bound(65536int * 65536, self.refractive_index as int, 0x1_0000_0000);
                vstd::arithmetic::div_mod::lemma_div_is_ordered_by_denominator(
                    0x1_0000_0000,
                    1024,
                    self.refractive_index as int,
                );
                vstd::arithmetic::div_mod::lemma_div_non_zero(
                    65536int * 65536,
                    self.refractive_index as int,
                );
            }
            fp_div(65536, self.refractive_index)
        } else {
            self.refractive_index
        };
        let u = ray_in.dir.unit_vector();
        proof {
            lemma_dot_bound(u, rec.normal, 2 * SCALE, nrm_lim());
        }
        let d: i64 = Vec3::dot(u, rec.normal);
        let cos0: i64 = -d;
        let cos: i64 = if cos0 > 65536 {
            65536
        } else {
            cos0
        };
        proof {
            lemma_fp_mul_range(cos as int, cos as int, 0x20_0000, 0x20_0000);
        }
        let c2: i64 = fp_mul(cos, cos);
        proof {
            assert((cos as int) * (cos as int) >= 0) by (nonlinear_arith);
            crate::fixed::lemma_tdiv((cos as int) * (cos as int), SCALE as int);
        }
        let k1: i64 = if 65536 - c2 < 0 {
            0
        } else {
            65536 - c2
        };
        let sin: i64 = fp_sqrt(k1);
        proof {
            assert(sin <= 65536) by (nonlinear_arith)
                requires
                    sin >= 0,
                    sin * sin <= k1 * 65536,
                    k1 <= 65536,
            {}
            lemma_fp_mul_range(eta as int, sin as int, 0x40_0000, 0x1_0000);
        }
        let es: i64 = fp_mul(eta, sin);
        if es > 65536 {
            let r0 = ray_in.dir.reflect(rec.normal);
            let rl: i64 = r0.length_double();
            if rl < 1 {
                // A reflection shorter than one tick cannot be
                // normalized: hand it on unscaled; the path ends at
                // the tracer's liveness guard.
                return Some(Scattered::new(Ray::new(rec.p, r0), attenuation));
            }
            let rdir = r0.unit_vector();
            return Some(Scattered::new(Ray::new(rec.p, rdir), attenuation));
        }
        let refr = self.refract(u, rec.normal, eta);
        Some(Scattered::new(Ray::new(rec.p, refr), attenuation))
    }
}

} // verus!
