//! The intersection record a primitive reports for a ray.

use vstd::prelude::*;
use crate::material::Material;
use crate::ray::{nrm_lim, pos_lim, t_lim, Ray};
use crate::vec3::{bounded, dot_bnd, dot_s, Vec3};

verus! {

/// One intersection: where, how far along the ray, the surface normal
/// oriented against the ray, which side was struck, and the surface's
/// material.
#[derive(Clone, Copy)]
pub struct HitRecord {
    pub p: Vec3,
    pub normal: Vec3,
    pub t: i64,
    pub front_face: bool,
    pub material: Material,
}

/// A record the tracing pipeline can consume: position, normal and
/// parameter within the pipeline's limits.
pub open spec fn rec_wf(rec: HitRecord) -> bool {
    &&& bounded(rec.p, pos_lim())
    &&& bounded(rec.normal, nrm_lim())
    &&& 0 < rec.t <= t_lim()
}

impl HitRecord {
    pub fn new(p: Vec3, normal: Vec3, t: i64, front_face: bool, material: Material) -> (r:
        HitRecord)
        ensures
            r.p == p,
            r.normal == normal,
            r.t == t,
            r.front_face == front_face,
            r.material == material,
    {
        HitRecord { p, normal, t, front_face, material }
    }

    /// Whether a ray strikes the outward-facing side of a surface:
    /// true exactly when the ray direction opposes the outward normal.
    pub fn is_front_face(ray: &Ray, outward_normal: Vec3) -> (r: bool)
        requires
            bounded(ray.dir, dot_bnd()),
            bounded(outward_normal, dot_bnd()),
        ensures
            r == (dot_s(ray.dir, outward_normal) < 0),
    {
        Vec3::dot(ray.dir, outward_normal) < 0
    }
}

} // verus!
