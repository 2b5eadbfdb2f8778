//! The metal material: mirror reflection, roughened by a fuzz factor.
//!
//! The random draw is the only nondeterminism: `deflect` carries the
//! whole post-draw computation with an exact contract, and `scatter`
//! relates its outcome to an in-ball witness for the draw.

use vstd::prelude::*;
use crate::fixed::{fp_div_s, fp_mul_s, lemma_fp_mul_range, sqrt_i, tdiv, SCALE};
use crate::hittable::{rec_wf, HitRecord};
use crate::material::{scattered_dir, Scattered};
use crate::ray::{ray_live, Ray};
use crate::vec3::{bounded, clamp_s, color_wf, dot_s, Color, Vec3};

verus! {

/// The rounded mirror reflection of `dir` about `n`, component for
/// component as the executable `reflect` computes it.
pub open spec fn reflect_s3(dir: Vec3, n: Vec3) -> (int, int, int) {
    (
        dir.x - fp_mul_s(2 * dot_s(dir, n), n.x as int),
        dir.y - fp_mul_s(2 * dot_s(dir, n), n.y as int),
        dir.z - fp_mul_s(2 * dot_s(dir, n), n.z as int),
    )
}

/// The fixed-point squared length of that reflection. Below one tick
/// the reflection cannot be normalized and the metal absorbs the ray,
/// whatever the fuzz draw.
pub open spec fn reflection_l2(dir: Vec3, n: Vec3) -> int {
    let rfl = reflect_s3(dir, n);
    tdiv(rfl.0 * rfl.0 + rfl.1 * rfl.1 + rfl.2 * rfl.2, SCALE as int)
}

/// The exact outcome of a metal scatter once the ball point `ball`
/// has been drawn: the normalized reflection perturbed by
/// `fuzz * ball`, or absorption when the reflection is shorter than
/// one tick or the perturbed direction leaves the surface's upper
/// side or degenerates.
pub open spec fn deflect_s(fuzz: int, dir: Vec3, n: Vec3, ball: Vec3) -> Option<(int, int, int)> {
    let rfl = reflect_s3(dir, n);
    let rl = reflection_l2(dir, n);
    if rl < 1 {
        None
    } else {
        let len = sqrt_i(rl * SCALE);
        let u = (fp_div_s(rfl.0, len), fp_div_s(rfl.1, len), fp_div_s(rfl.2, len));
        let ox = u.0 + fp_mul_s(ball.x as int, fuzz);
        let oy = u.1 + fp_mul_s(ball.y as int, fuzz);
        let oz = u.2 + fp_mul_s(ball.z as int, fuzz);
        let d = tdiv(ox * n.x + oy * n.y + oz * n.z, SCALE as int);
        let l2 = tdiv(ox * ox + oy * oy + oz * oz, SCALE as int);
        if d > 0 && l2 >= 1 {
            Some((ox, oy, oz))
        } else {
            None
        }
    }
}

/// The exact outcome of a perfectly smooth (fuzz zero) metal scatter:
/// the incoming direction reflected about the normal and normalized,
/// or absorption when the reflection degenerates or lands on the
/// wrong side of the surface.
pub open spec fn mirror_s(dir: Vec3, n: Vec3) -> Option<(int, int, int)> {
    let rfl = reflect_s3(dir, n);
    let rl = reflection_l2(dir, n);
    if rl < 1 {
        None
    } else {
        let len = sqrt_i(rl * SCALE);
        let u = (fp_div_s(rfl.0, len), fp_div_s(rfl.1, len), fp_div_s(rfl.2, len));
        let d = tdiv(u.0 * n.x + u.1 * n.y + u.2 * n.z, SCALE as int);
        let l2 = tdiv(u.0 * u.0 + u.1 * u.1 + u.2 * u.2, SCALE as int);
        if d > 0 && l2 >= 1 {
            Some(u)
        } else {
            None
        }
    }
}

#[derive(Clone, Copy)]
pub struct Metal {
    pub albedo: Color,
    pub fuzz: i64,
}

/// Albedo channels in `[0, 1]` and fuzz in `[0, 1]`.
pub open spec fn metal_wf(m: Metal) -> bool {
    &&& color_wf(m.albedo)
    &&& 0 <= m.fuzz <= SCALE
}

impl Metal {
    /// The fuzz factor is clamped into `[0, 1]` at construction.
    pub fn new(albedo: Color, fuzz: i64) -> (r: Metal)
        requires
            color_wf(albedo),
        ensures
            r.albedo == albedo,
            r.fuzz == clamp_s(fuzz as int, 0, SCALE as int),
            metal_wf(r),
    {
        let clamped: i64 = if fuzz < 0 {
            0
        } else if fuzz > 65536 {
            65536
        } else {
            fuzz
        };
        Metal { albedo, fuzz: clamped }
    }

    /// The deterministic half of a metal scatter, taking the drawn
    /// ball point as an argument: reflects the incoming direction
    /// about the normal, normalizes, perturbs by `fuzz * ball`, and
    /// accepts exactly when the perturbed direction stays on the
    /// surface's upper side with at least one tick of squared length.
    pub fn deflect(&self, ray_in: &Ray, rec: &HitRecord, ball: Vec3) -> (r: Option<Scattered>)
        requires
            metal_wf(*self),
            rec_wf(*rec),
            ray_live(*ray_in),
            bounded(ball, SCALE as int),
        ensures
            scattered_dir(r) == deflect_s(self.fuzz as int, ray_in.dir, rec.normal, ball),
            r matches Some(sc) ==> {
                &&& sc.attenuation == self.albedo
                &&& sc.ray.org == rec.p
                &&& ray_live(sc.ray)
                &&& dot_s(sc.ray.dir, rec.normal) > 0
            },
            self.fuzz == 0 ==> scattered_dir(r) == mirror_s(ray_in.dir, rec.normal),
    {
        let refl0 = ray_in.dir.reflect(rec.normal);
        let ld: i64 = refl0.length_double();
        if ld < 1 {
            return None;
        }
        let refl = refl0.unit_vector();
        proof {
            lemma_fp_mul_range(ball.x as int, self.fuzz as int, SCALE as int, SCALE as int);
            lemma_fp_mul_range(ball.y as int, self.fuzz as int, SCALE as int, SCALE as int);
            lemma_fp_mul_range(ball.z as int, self.fuzz as int, SCALE as int, SCALE as int);
            assert((65536int * 65536int) / 65536int == 65536int) by (nonlinear_arith);
        }
        let pert = ball.scale(self.fuzz);
        proof {
            if self.fuzz == 0 {
                assert((ball.x as int) * 0 == 0 && (ball.y as int) * 0 == 0 && (ball.z as int) * 0
                    == 0) by (nonlinear_arith);
                assert(tdiv(0, SCALE as int) == 0);
            }
        }
        let dir = refl.plus(pert);
        let d: i64 = Vec3::dot(dir, rec.normal);
        let l2: i64 = dir.length_double();
        if d > 0 && l2 >= 1 {
            Some(Scattered::new(Ray::new(rec.p, dir), self.albedo))
        } else {
            None
        }
    }

    /// Draws one ball point and deflects: the outcome equals
    /// `deflect_s` for some in-ball draw, absorption comes before any
    /// draw when the reflection is shorter than one tick, and a
    /// smooth metal's outcome is the exact mirror reflection.
    pub fn scatter(&self, rng: &mut rand::rngs::StdRng, ray_in: &Ray, rec: &HitRecord) -> (r:
        Option<Scattered>)
        requires
            metal_wf(*self),
            rec_wf(*rec),
            ray_live(*ray_in),
        ensures
            r matches Some(sc) ==> {
                &&& sc.attenuation == self.albedo
                &&& sc.ray.org == rec.p
                &&& ray_live(sc.ray)
                &&& dot_s(sc.ray.dir, rec.normal) > 0
            },
            reflection_l2(ray_in.dir, rec.normal) < 1 ==> r is None,
            exists|b: Vec3|
                {
                    &&& bounded(b, SCALE as int)
                    &&& 256 <= dot_s(b, b) < SCALE
                    &&& scattered_dir(r) == #[trigger] deflect_s(
                        self.fuzz as int,
                        ray_in.dir,
                        rec.normal,
                        b,
                    )
                },
            self.fuzz == 0 ==> scattered_dir(r) == mirror_s(ray_in.dir, rec.normal),
    {
        let ball = Vec3::random_in_unit_sphere(rng);
        let r = self.deflect(ray_in, rec, ball);
        proof {
            assert(bounded(ball, SCALE as int) && 256 <= dot_s(ball, ball) < SCALE
                && scattered_dir(r) == deflect_s(self.fuzz as int, ray_in.dir, rec.normal, ball));
        }
        r
    }
}

} // verus!
