//! The scene aggregate: an ordered list of spheres, itself queried
//! like a single primitive. The nearest surface wins: each member is
//! queried against an upper bound shrunk to the best hit so far, so an
//! empty list never hits and insertion order cannot change the result
//! parameter.

use vstd::prelude::*;
use crate::hittable::{rec_wf, HitRecord};
use crate::ray::{ray_live, t_lim, Ray};
use crate::sphere::{sphere_wf, Sphere};
use crate::vec3::dot_s;

verus! {

pub struct HittableList {
    pub objects: Vec<Sphere>,
}

/// Every member is a sphere the pipeline can intersect.
pub open spec fn list_wf(l: HittableList) -> bool {
    forall|i: int| 0 <= i < l.objects@.len() ==> sphere_wf(#[trigger] l.objects@[i])
}

/// The best (index, parameter) pair among the first `n` members,
/// folding left while shrinking the upper bound to the best parameter
/// found so far.
pub open spec fn list_best(
    objs: Seq<Sphere>,
    n: int,
    ray: Ray,
    t_min: int,
    t_max: int,
) -> Option<(int, int)>
    decreases n,
{
    if n <= 0 {
        None
    } else {
        let prev = list_best(objs, n - 1, ray, t_min, t_max);
        let closest = match prev {
            Some(p) => p.1,
            None => t_max,
        };
        match objs[n - 1].hit_t(ray, t_min, closest) {
            Some(t) => Some((n - 1, t)),
            None => prev,
        }
    }
}

/// The fold selects the overall nearest surface: whatever parameter
/// it settles on, no member reports a hit strictly nearer, and if it
/// reports nothing, no member hits the interval at all.
pub proof fn lemma_list_best_nearest(objs: Seq<Sphere>, n: int, ray: Ray, t_min: int, t_max: int)
    requires
        0 <= n <= objs.len(),
        dot_s(ray.dir, ray.dir) >= 1,
    ensures
        match list_best(objs, n, ray, t_min, t_max) {
            Some(p) => {
                &&& 0 <= p.0 < n
                &&& t_min < p.1 < t_max
                &&& forall|k: int|
                    0 <= k < n ==> (#[trigger] objs[k].hit_t(ray, t_min, p.1)) is None
            },
            None => forall|k: int|
                0 <= k < n ==> (#[trigger] objs[k].hit_t(ray, t_min, t_max)) is None,
        },
    decreases n,
{
    if n > 0 {
        lemma_list_best_nearest(objs, n - 1, ray, t_min, t_max);
        let prev = list_best(objs, n - 1, ray, t_min, t_max);
        let closest = match prev {
            Some(p) => p.1,
            None => t_max,
        };
        let last = objs[n - 1].hit_t(ray, t_min, closest);
        if let Some(t) = last {
            assert forall|k: int|
                0 <= k < n implies (#[trigger] objs[k].hit_t(ray, t_min, t)) is None by {
                if k == n - 1 {
                    objs[k].lemma_hit_t_shrink(ray, t_min, closest, t);
                } else {
                    match prev {
                        Some(p) => objs[k].lemma_hit_t_shrink(ray, t_min, p.1, t),
                        None => objs[k].lemma_hit_t_shrink(ray, t_min, t_max, t),
                    }
                }
            }
        }
    }
}

impl HittableList {
    /// The empty scene.
    pub fn default() -> (r: HittableList)
        ensures
            r.objects@.len() == 0,
            list_wf(r),
    {
        HittableList { objects: Vec::new() }
    }

    /// Appends one sphere to the scene.
    pub fn add(&mut self, object: Sphere)
        requires
            sphere_wf(object),
            list_wf(*old(self)),
        ensures
            final(self).objects@ == old(self).objects@.push(object),
            list_wf(*final(self)),
    {
        self.objects.push(object);
    }

    /// The nearest intersection of the ray with any member, strictly
    /// inside `(t_min, t_max)`.
    pub fn hit(&self, ray: &Ray, t_min: i64, t_max: i64) -> (result: Option<HitRecord>)
        requires
            list_wf(*self),
            ray_live(*ray),
            0 <= t_min,
            t_max <= t_lim(),
        ensures
            result is Some <==> list_best(
                self.objects@,
                self.objects@.len() as int,
                *ray,
                t_min as int,
                t_max as int,
            ) is Some,
            result matches Some(rec) ==> {
                let pair = list_best(
                    self.objects@,
                    self.objects@.len() as int,
                    *ray,
                    t_min as int,
                    t_max as int,
                ).unwrap();
                let s = self.objects@[pair.0];
                &&& 0 <= pair.0 < self.objects@.len()
                &&& rec.t == pair.1
                &&& (rec.p.x as int, rec.p.y as int, rec.p.z as int) == ray.at_s(rec.t as int)
                &&& (rec.normal.x as int, rec.normal.y as int, rec.normal.z as int) == s.normal_at(
                    *ray,
                    rec.t as int,
                )
                &&& rec.front_face == s.front_at(*ray, rec.t as int)
                &&& rec.material == s.material
                &&& rec_wf(rec)
                &&& t_min < rec.t < t_max
                &&& dot_s(ray.dir, rec.normal) <= 0
                &&& crate::fixed::SCALE - 4096 <= dot_s(rec.normal, rec.normal)
                    <= crate::fixed::SCALE + 4096
            },
            result matches Some(rec) ==> forall|k: int|
                0 <= k < self.objects@.len() ==> (#[trigger] self.objects@[k].hit_t(
                    *ray,
                    t_min as int,
                    rec.t as int,
                )) is None,
            result is None ==> forall|k: int|
                0 <= k < self.objects@.len() ==> (#[trigger] self.objects@[k].hit_t(
                    *ray,
                    t_min as int,
                    t_max as int,
                )) is None,
    {
        let ghost n0 = self.objects@.len() as int;
        let mut closest_so_far: i64 = t_max;
        let mut record: Option<HitRecord> = None;
        let mut k: usize = 0;
        while k < self.objects.len()
            invariant
                list_wf(*self),
                ray_live(*ray),
                0 <= t_min,
                t_max <= t_lim(),
                k <= self.objects@.len(),
                t_min <= closest_so_far <= t_max || (record is None && closest_so_far == t_max),
                match record {
                    Some(rec) => {
                        let pair = list_best(
                            self.objects@,
                            k as int,
                            *ray,
                            t_min as int,
                            t_max as int,
                        ).unwrap();
                        let s = self.objects@[pair.0];
                        &&& list_best(
                            self.objects@,
                            k as int,
                            *ray,
                            t_min as int,
                            t_max as int,
                        ) is Some
                        &&& 0 <= pair.0 < k
                        &&& rec.t == pair.1
                        &&& closest_so_far == rec.t
                        &&& (rec.p.x as int, rec.p.y as int, rec.p.z as int) == ray.at_s(
                            rec.t as int,
                        )
                        &&& (rec.normal.x as int, rec.normal.y as int, rec.normal.z as int)
                            == s.normal_at(*ray, rec.t as int)
                        &&& rec.front_face == s.front_at(*ray, rec.t as int)
                        &&& rec.material == s.material
                        &&& rec_wf(rec)
                        &&& t_min < rec.t < t_max
                        &&& dot_s(ray.dir, rec.normal) <= 0
                        &&& crate::fixed::SCALE - 4096 <= dot_s(rec.normal, rec.normal)
                            <= crate::fixed::SCALE + 4096
                    },
                    None => {
                        &&& list_best(
                            self.objects@,
                            k as int,
                            *ray,
                            t_min as int,
                            t_max as int,
                        ) is None
                        &&& closest_so_far == t_max
                    },
                },
            decreases self.objects@.len() - k,
        {
            let result = self.objects[k].hit(ray, t_min, closest_so_far);
            if let Some(v) = result {
                closest_so_far = v.t;
                record = Some(v);
            }
            k = k + 1;
        }
        proof {
            lemma_list_best_nearest(self.objects@, n0, *ray, t_min as int, t_max as int);
        }
        record
    }
}

} // verus!
