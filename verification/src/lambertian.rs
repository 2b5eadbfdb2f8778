//! The diffuse material: always scatters into the hemisphere around
//! the hit normal, attenuating by its albedo.

use vstd::prelude::*;
use crate::fixed::SCALE;
use crate::hittable::{rec_wf, HitRecord};
use crate::material::Scattered;
use crate::ray::{ray_live, Ray};
use crate::vec3::{color_wf, dot_s, Color, Vec3};

verus! {

#[derive(Clone, Copy)]
pub struct Lambertian {
    pub albedo: Color,
}

impl Lambertian {
    pub fn new(albedo: Color) -> (r: Lambertian)
        requires
            color_wf(albedo),
        ensures
            r.albedo == albedo,
    {
        Lambertian { albedo }
    }

    /// Always scatters: the outgoing ray leaves the hit point into the
    /// hemisphere around the normal, and the attenuation is the albedo.
    /// The direction is a point of the unit ball, not rescaled to unit
    /// length — the hemisphere generator's convention — with squared
    /// length between 1/256 and 1.
    pub fn scatter(&self, rng: &mut rand::rngs::StdRng, rec: &HitRecord) -> (r: Option<Scattered>)
        requires
            color_wf(self.albedo),
            rec_wf(*rec),
        ensures
            r matches Some(sc) ==> {
                &&& sc.attenuation == self.albedo
                &&& sc.ray.org == rec.p
                &&& ray_live(sc.ray)
                &&& dot_s(sc.ray.dir, rec.normal) >= 0
                &&& 256 <= dot_s(sc.ray.dir, sc.ray.dir) < SCALE
            },
            r.is_some(),
    {
        let dir = Vec3::random_in_hemisphere(rng, rec.normal);
        let ray = Ray::new(rec.p, dir);
        Some(Scattered::new(ray, self.albedo))
    }
}

} // verus!
