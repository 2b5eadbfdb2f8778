//! Rays: an origin, a direction, and the points along the line.

use vstd::prelude::*;
use crate::fixed::{fp_mul, fp_mul_s, lemma_fp_mul_range, SCALE};
use crate::vec3::{bounded, dot_s, Vec3};

verus! {

/// Largest position component the tracing pipeline handles (2048 units).
pub open spec fn pos_lim() -> int {
    0x800_0000
}

/// Largest direction component the tracing pipeline handles (256 units).
pub open spec fn dir_lim() -> int {
    0x100_0000
}

/// Largest ray parameter the tracing pipeline handles (16384 units).
pub open spec fn t_lim() -> int {
    0x4000_0000
}

/// Largest surface-normal component a hit may report (4 units).
pub open spec fn nrm_lim() -> int {
    0x4_0000
}

#[derive(Clone, Copy, PartialEq, Eq, Structural, Debug)]
pub struct Ray {
    pub org: Vec3,
    pub dir: Vec3,
}

/// A ray whose components stay within the pipeline's limits.
pub open spec fn ray_wf(r: Ray) -> bool {
    &&& bounded(r.org, pos_lim())
    &&& bounded(r.dir, dir_lim())
}

/// A well-formed ray with a direction long enough to trace: at least
/// one tick of fixed-point squared length.
pub open spec fn ray_live(r: Ray) -> bool {
    &&& ray_wf(r)
    &&& dot_s(r.dir, r.dir) >= 1
}

impl Ray {
    /// The point reached after parameter `t`, as exact component values.
    pub open spec fn at_s(self, t: int) -> (int, int, int) {
        (
            self.org.x + fp_mul_s(t, self.dir.x as int),
            self.org.y + fp_mul_s(t, self.dir.y as int),
            self.org.z + fp_mul_s(t, self.dir.z as int),
        )
    }

    /// Evaluates `origin + t * direction`.
    pub fn at(&self, t: i64) -> (r: Vec3)
        requires
            ray_wf(*self),
            -t_lim() <= t <= t_lim(),
        ensures
            r.x == self.at_s(t as int).0,
            r.y == self.at_s(t as int).1,
            r.z == self.at_s(t as int).2,
            bounded(r, pos_lim() + (t_lim() * dir_lim()) / (SCALE as int)),
    {
        proof {
            lemma_fp_mul_range(t as int, self.dir.x as int, t_lim(), dir_lim());
            lemma_fp_mul_range(t as int, self.dir.y as int, t_lim(), dir_lim());
            lemma_fp_mul_range(t as int, self.dir.z as int, t_lim(), dir_lim());
        }
        Vec3 {
            x: self.org.x + fp_mul(t, self.dir.x),
            y: self.org.y + fp_mul(t, self.dir.y),
            z: self.org.z + fp_mul(t, self.dir.z),
        }
    }

    pub fn new(org: Vec3, dir: Vec3) -> (r: Ray)
        ensures
            r.org == org && r.dir == dir,
    {
        Ray { org, dir }
    }
}

} // verus!
