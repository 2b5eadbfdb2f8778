//! The sphere primitive and its analytic ray intersection.
//!
//! The quadratic `|O + tD - C|^2 = r^2` is solved in fixed point; the
//! nearer root is preferred, the farther tried next, both against the
//! open interval `(t_min, t_max)`. The radius may be negative: the
//! reported outward normal `(p - center) / radius` then points inward
//! (see `outward_at`), flipping the face classification — the
//! intentional trick behind hollow glass shells.

use vstd::prelude::*;
use crate::fixed::{
    abs_i, fp_div, fp_div_s, fp_mul, fp_mul_s, fp_sqrt, lemma_fp_mul_range, lemma_sqrt_i,
    lemma_tdiv, lemma_tdiv_ordered, sqrt_i, tdiv, SCALE,
};
use crate::hittable::{rec_wf, HitRecord};
use crate::material::{mat_wf, Material};
use crate::ray::{dir_lim, nrm_lim, pos_lim, ray_live, ray_wf, t_lim, Ray};
use crate::vec3::{bounded, dot_s, lemma_dot_bound, lemma_dot_self_nonneg, Point, Vec3};

verus! {

/// Largest center component a scene sphere may have (1024 units).
pub open spec fn cen_lim() -> int {
    0x400_0000
}

pub struct Sphere {
    pub center: Point,
    pub radius: i64,
    pub material: Material,
}

/// A sphere the pipeline can intersect: center within the scene
/// limits, radius at least one tick in magnitude, material well formed.
pub open spec fn sphere_wf(s: Sphere) -> bool {
    &&& bounded(s.center, cen_lim())
    &&& 1 <= abs_i(s.radius as int) <= cen_lim()
    &&& mat_wf(s.material)
}

impl Sphere {
    pub fn new(center: Point, radius: i64, material: Material) -> (r: Sphere)
        requires
            bounded(center, cen_lim()),
            1 <= abs_i(radius as int) <= cen_lim(),
            mat_wf(material),
        ensures
            r.center == center,
            r.radius == radius,
            r.material == material,
            sphere_wf(r),
    {
        Sphere { center, radius, material }
    }

    /// Quadratic coefficient `a = dot(D, D)`.
    pub open spec fn quad_a(self, r: Ray) -> int {
        dot_s(r.dir, r.dir)
    }

    /// Quadratic coefficient `b = dot(D, O - C)`.
    pub open spec fn quad_b(self, r: Ray) -> int {
        tdiv(
            r.dir.x * (r.org.x - self.center.x) + r.dir.y * (r.org.y - self.center.y) + r.dir.z
                * (r.org.z - self.center.z),
            SCALE as int,
        )
    }

    /// Quadratic coefficient `c = dot(O - C, O - C) - r^2`.
    pub open spec fn quad_c(self, r: Ray) -> int {
        tdiv(
            (r.org.x - self.center.x) * (r.org.x - self.center.x) + (r.org.y - self.center.y) * (
            r.org.y - self.center.y) + (r.org.z - self.center.z) * (r.org.z - self.center.z),
            SCALE as int,
        ) - fp_mul_s(self.radius as int, self.radius as int)
    }

    /// The discriminant `b^2 - a * c`.
    pub open spec fn disc(self, r: Ray) -> int {
        fp_mul_s(self.quad_b(r), self.quad_b(r)) - fp_mul_s(self.quad_a(r), self.quad_c(r))
    }

    /// The ray parameter the intersection reports: the nearer root
    /// `(-b - sqrt(disc)) / a` if it lies strictly inside
    /// `(t_min, t_max)`, else the farther root, else nothing.
    pub open spec fn hit_root(self, r: Ray, t_min: int, t_max: int) -> Option<int> {
        if self.disc(r) > 0 {
            let sq = sqrt_i(self.disc(r) * SCALE);
            let t1 = fp_div_s(-self.quad_b(r) - sq, self.quad_a(r));
            if t_min < t1 < t_max {
                Some(t1)
            } else {
                let t2 = fp_div_s(-self.quad_b(r) + sq, self.quad_a(r));
                if t_min < t2 < t_max {
                    Some(t2)
                } else {
                    None
                }
            }
        } else {
            None
        }
    }

    /// The parameter the intersection accepts: the chosen root, if it
    /// also passes the numeric guard.
    pub open spec fn hit_t(self, r: Ray, t_min: int, t_max: int) -> Option<int> {
        match self.hit_root(r, t_min, t_max) {
            Some(t) => if self.hit_ok(r, t) {
                Some(t)
            } else {
                None
            },
            None => None,
        }
    }

    /// The outward normal `(p - center) / radius` at parameter `t`;
    /// for a negative radius it points toward the center.
    pub open spec fn outward_at(self, r: Ray, t: int) -> (int, int, int) {
        let p = r.at_s(t);
        (
            fp_div_s(p.0 - self.center.x, self.radius as int),
            fp_div_s(p.1 - self.center.y, self.radius as int),
            fp_div_s(p.2 - self.center.z, self.radius as int),
        )
    }

    /// Whether the ray strikes the outward-facing side at parameter `t`.
    pub open spec fn front_at(self, r: Ray, t: int) -> bool {
        let on = self.outward_at(r, t);
        tdiv(r.dir.x * on.0 + r.dir.y * on.1 + r.dir.z * on.2, SCALE as int) < 0
    }

    /// The stored normal: the outward normal, negated when the ray
    /// struck the back side, so it always points against the ray.
    pub open spec fn normal_at(self, r: Ray, t: int) -> (int, int, int) {
        let on = self.outward_at(r, t);
        if self.front_at(r, t) {
            on
        } else {
            (-on.0, -on.1, -on.2)
        }
    }

    /// The numeric guard a reported record must pass, which states
    /// the culled domain exactly: the hit point must lie within the
    /// position limits and the outward normal within the normal
    /// limits, with squared length within 1/16 of one. A root whose
    /// rounded point or normal strays outside — possible only when
    /// rounding of the quadratic amplifies near the limits or near
    /// tangency — is reported as no hit; hits on well-conditioned
    /// geometry pass, since their normals are exact to a few ticks.
    pub open spec fn hit_ok(self, r: Ray, t: int) -> bool {
        let p = r.at_s(t);
        let on = self.outward_at(r, t);
        &&& -pos_lim() <= p.0 <= pos_lim()
        &&& -pos_lim() <= p.1 <= pos_lim()
        &&& -pos_lim() <= p.2 <= pos_lim()
        &&& -nrm_lim() <= on.0 <= nrm_lim()
        &&& -nrm_lim() <= on.1 <= nrm_lim()
        &&& -nrm_lim() <= on.2 <= nrm_lim()
        &&& SCALE - 4096 <= tdiv(on.0 * on.0 + on.1 * on.1 + on.2 * on.2, SCALE as int) <= SCALE
            + 4096
    }

    /// Shrinking the upper bound of the search interval cannot create
    /// a hit: if the sphere reports nothing within `(t_min, c1)`, or
    /// only a parameter at or beyond `c2 <= c1`, it reports nothing
    /// within `(t_min, c2)`.
    pub proof fn lemma_hit_t_shrink(self, r: Ray, t_min: int, c1: int, c2: int)
        requires
            self.quad_a(r) >= 1,
            c2 <= c1,
            match self.hit_t(r, t_min, c1) {
                Some(t) => c2 <= t,
                None => true,
            },
        ensures
            self.hit_t(r, t_min, c2) is None,
    {
        if self.disc(r) > 0 {
            let s = SCALE as int;
            assert(self.disc(r) * s >= 0) by (nonlinear_arith)
                requires
                    self.disc(r) > 0,
                    s > 0,
            {}
            let sq = sqrt_i(self.disc(r) * s);
            lemma_sqrt_i(self.disc(r) * s);
            let nb = -self.quad_b(r);
            lemma_tdiv_ordered((nb - sq) * s, (nb + sq) * s, self.quad_a(r));
            assert(fp_div_s(nb - sq, self.quad_a(r)) <= fp_div_s(nb + sq, self.quad_a(r)));
        }
    }

    /// Builds the record for an accepted root, or culls it when the
    /// numeric guard fails.
    fn build_rec(&self, ray: &Ray, t: i64) -> (result: Option<HitRecord>)
        requires
            sphere_wf(*self),
            ray_live(*ray),
            0 < t <= t_lim(),
        ensures
            result is Some <==> self.hit_ok(*ray, t as int),
            result matches Some(rec) ==> {
                &&& rec.t == t
                &&& (rec.p.x as int, rec.p.y as int, rec.p.z as int) == ray.at_s(t as int)
                &&& (rec.normal.x as int, rec.normal.y as int, rec.normal.z as int)
                    == self.normal_at(*ray, t as int)
                &&& rec.front_face == self.front_at(*ray, t as int)
                &&& rec.material == self.material
                &&& rec_wf(rec)
                &&& dot_s(ray.dir, rec.normal) <= 0
                &&& SCALE - 4096 <= dot_s(rec.normal, rec.normal) <= SCALE + 4096
            },
    {
        let p = ray.at(t);
        if !(-0x800_0000 <= p.x && p.x <= 0x800_0000 && -0x800_0000 <= p.y && p.y <= 0x800_0000
            && -0x800_0000 <= p.z && p.z <= 0x800_0000) {
            return None;
        }
        let on = Vec3 {
            x: fp_div(p.x - self.center.x, self.radius),
            y: fp_div(p.y - self.center.y, self.radius),
            z: fp_div(p.z - self.center.z, self.radius),
        };
        if !(-0x4_0000 <= on.x && on.x <= 0x4_0000 && -0x4_0000 <= on.y && on.y <= 0x4_0000
            && -0x4_0000 <= on.z && on.z <= 0x4_0000) {
            return None;
        }
        let nl: i64 = on.length_double();
        if !(65536 - 4096 <= nl && nl <= 65536 + 4096) {
            return None;
        }
        let front_face: bool = HitRecord::is_front_face(ray, on);
        let normal = if front_face {
            on
        } else {
            let flipped = on.neg();
            proof {
                crate::vec3::lemma_neg_dot(on, flipped, ray.dir);
                crate::vec3::lemma_dot_comm(ray.dir, on);
                crate::vec3::lemma_dot_comm(ray.dir, flipped);
            }
            flipped
        };
        Some(HitRecord::new(p, normal, t, front_face, self.material))
    }

    /// The nearest intersection strictly inside `(t_min, t_max)`, if
    /// any root lies there and passes the numeric guard.
    pub fn hit(&self, ray: &Ray, t_min: i64, t_max: i64) -> (result: Option<HitRecord>)
        requires
            sphere_wf(*self),
            ray_live(*ray),
            0 <= t_min,
            t_max <= t_lim(),
        ensures
            result is None <==> (match self.hit_root(*ray, t_min as int, t_max as int) {
                Some(t) => !self.hit_ok(*ray, t),
                None => true,
            }),
            result is Some <==> self.hit_t(*ray, t_min as int, t_max as int) is Some,
            result matches Some(rec) ==> {
                &&& self.hit_t(*ray, t_min as int, t_max as int) == Some(rec.t as int)
                &&& self.hit_root(*ray, t_min as int, t_max as int) == Some(rec.t as int)
                &&& (rec.p.x as int, rec.p.y as int, rec.p.z as int) == ray.at_s(rec.t as int)
                &&& (rec.normal.x as int, rec.normal.y as int, rec.normal.z as int)
                    == self.normal_at(*ray, rec.t as int)
                &&& rec.front_face == self.front_at(*ray, rec.t as int)
                &&& rec.material == self.material
                &&& rec_wf(rec)
                &&& t_min < rec.t < t_max
                &&& dot_s(ray.dir, rec.normal) <= 0
                &&& SCALE - 4096 <= dot_s(rec.normal, rec.normal) <= SCALE + 4096
            },
    {
        let oc = ray.org.minus(self.center);
        proof {
            lemma_dot_bound(ray.dir, ray.dir, dir_lim(), dir_lim());
            lemma_dot_bound(ray.dir, oc, dir_lim(), 0x1000_0000);
            lemma_dot_bound(oc, oc, 0x1000_0000, 0x1000_0000);
            lemma_dot_self_nonneg(oc);
            lemma_fp_mul_range(self.radius as int, self.radius as int, cen_lim(), cen_lim());
            assert((self.radius as int) * (self.radius as int) >= 0) by (nonlinear_arith);
            lemma_tdiv((self.radius as int) * (self.radius as int), SCALE as int);
        }
        let a: i64 = Vec3::dot(ray.dir, ray.dir);
        let b: i64 = Vec3::dot(ray.dir, oc);
        let rr: i64 = fp_mul(self.radius, self.radius);
        let c: i64 = Vec3::dot(oc, oc) - rr;
        proof {
            lemma_fp_mul_range(b as int, b as int, 0x40_0000_0000, 0x40_0000_0000);
            lemma_fp_mul_range(a as int, c as int, 0x4_0000_0000, 0x800_0000_0000);
        }
        let d: i64 = fp_mul(b, b) - fp_mul(a, c);
        if d > 0 {
            let sq: i64 = fp_sqrt(d);
            proof {
                assert(sq < 0x100_0000_0000) by (nonlinear_arith)
                    requires
                        sq >= 0,
                        sq * sq <= d * 65536,
                        d <= 0x4000_0000_0000_0000,
                {}
            }
            let t1: i64 = fp_div(-b - sq, a);
            if t_min < t1 && t1 < t_max {
                return self.build_rec(ray, t1);
            }
            let t2: i64 = fp_div(-b + sq, a);
            if t_min < t2 && t2 < t_max {
                return self.build_rec(ray, t2);
            }
        }
        None
    }
}

} // verus!
