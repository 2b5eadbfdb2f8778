//! The material protocol: what a surface does with an incoming ray.
//!
//! The variants form a closed set, so dispatch is a match over a sum
//! type rather than a trait object.

use vstd::prelude::*;
use crate::dielectric::{dielectric_wf, Dielectric};
use crate::hittable::{rec_wf, HitRecord};
use crate::lambertian::Lambertian;
use crate::metal::{metal_wf, Metal};
use crate::ray::{ray_live, Ray};
use crate::vec3::{bounded, color_wf, Color};

verus! {

/// A scatter result: the outgoing ray and the per-channel attenuation.
#[derive(Clone, Copy)]
pub struct Scattered {
    pub ray: Ray,
    pub attenuation: Color,
}

impl Scattered {
    pub fn new(ray: Ray, attenuation: Color) -> (r: Scattered)
        ensures
            r.ray == ray,
            r.attenuation == attenuation,
    {
        Scattered { ray, attenuation }
    }
}

/// The outgoing direction of a scatter result, as exact components.
pub open spec fn scattered_dir(r: Option<Scattered>) -> Option<(int, int, int)> {
    match r {
        Some(sc) => Some((sc.ray.dir.x as int, sc.ray.dir.y as int, sc.ray.dir.z as int)),
        None => None,
    }
}

/// A surface material, one of the closed set of behaviors.
#[derive(Clone, Copy)]
pub enum Material {
    Lambertian(Lambertian),
    Metal(Metal),
    Dielectric(Dielectric),
}

/// The variant's own well-formedness.
pub open spec fn mat_wf(m: Material) -> bool {
    match m {
        Material::Lambertian(l) => color_wf(l.albedo),
        Material::Metal(mm) => metal_wf(mm),
        Material::Dielectric(d) => dielectric_wf(d),
    }
}

impl Material {
    /// Dispatches to the variant's scatter behavior. Whatever the
    /// material and whatever the random draws, a scattered ray leaves
    /// from the hit point, its attenuation is a well-formed color, and
    /// its direction is bounded; a diffuse surface always scatters.
    pub fn scatter(&self, rng: &mut rand::rngs::StdRng, ray_in: &Ray, record: &HitRecord) -> (r:
        Option<Scattered>)
        requires
            mat_wf(*self),
            rec_wf(*record),
            ray_live(*ray_in),
        ensures
            r matches Some(sc) ==> {
                &&& sc.ray.org == record.p
                &&& color_wf(sc.attenuation)
                &&& bounded(sc.ray.dir, 0x8000_0000)
            },
            self matches Material::Lambertian(_) ==> r.is_some(),
            self matches Material::Dielectric(_) ==> r.is_some(),
            self matches Material::Dielectric(d) ==> scattered_dir(r) == Some(
                d.scatter_dir_s(ray_in.dir, record.normal, record.front_face),
            ),
            self matches Material::Metal(_) ==> (crate::metal::reflection_l2(
                ray_in.dir,
                record.normal,
            ) < 1 ==> r is None),
            (self matches Material::Metal(m) && m.fuzz == 0) ==> scattered_dir(r)
                == crate::metal::mirror_s(ray_in.dir, record.normal),
    {
        match self {
            Material::Lambertian(l) => l.scatter(rng, record),
            Material::Metal(m) => m.scatter(rng, ray_in, record),
            Material::Dielectric(d) => d.scatter(ray_in, record),
        }
    }
}

} // verus!
