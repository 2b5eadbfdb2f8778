//! The camera: maps normalized image-plane coordinates to world rays.
//!
//! Built from an eye position, a look-at target, an up hint, the
//! tangent of half the vertical field of view (as a fixed-point
//! scalar), and the aspect ratio. The derived orthonormal-ish basis
//! and viewport rectangle are pinned exactly by the contract.

use vstd::prelude::*;
use crate::fixed::{abs_i, fp_mul, fp_mul_s, lemma_fp_mul_range, tdiv, SCALE};
use crate::ray::{ray_wf, Ray};
use crate::vec3::{bounded, unit3, Point, Vec3};

verus! {

/// The fixed-point squared distance between two points.
pub open spec fn diff_sq(a: Vec3, b: Vec3) -> int {
    tdiv(
        (a.x - b.x) * (a.x - b.x) + (a.y - b.y) * (a.y - b.y) + (a.z - b.z) * (a.z - b.z),
        SCALE as int,
    )
}

/// The backward basis vector: `unit(lookfrom - lookat)`.
pub open spec fn basis_w(lookfrom: Point, lookat: Point) -> (int, int, int) {
    unit3(lookfrom.x - lookat.x, lookfrom.y - lookat.y, lookfrom.z - lookat.z)
}

/// The cross product of the up hint with the backward vector, before
/// normalization.
pub open spec fn cross_uw(vup: Vec3, w: (int, int, int)) -> (int, int, int) {
    (
        fp_mul_s(vup.y as int, w.2) - fp_mul_s(vup.z as int, w.1),
        fp_mul_s(vup.z as int, w.0) - fp_mul_s(vup.x as int, w.2),
        fp_mul_s(vup.x as int, w.1) - fp_mul_s(vup.y as int, w.0),
    )
}

/// The right basis vector: `unit(cross(vup, w))`, or the x axis when
/// the up hint is (numerically) parallel to the view direction.
pub open spec fn basis_u(vup: Vec3, lookfrom: Point, lookat: Point) -> (int, int, int) {
    let w = basis_w(lookfrom, lookat);
    let c = cross_uw(vup, w);
    if tdiv(c.0 * c.0 + c.1 * c.1 + c.2 * c.2, SCALE as int) < 1 {
        (SCALE as int, 0, 0)
    } else {
        unit3(c.0, c.1, c.2)
    }
}

/// The up basis vector: `cross(w, u)`.
pub open spec fn basis_v(vup: Vec3, lookfrom: Point, lookat: Point) -> (int, int, int) {
    let w = basis_w(lookfrom, lookat);
    let u = basis_u(vup, lookfrom, lookat);
    (
        fp_mul_s(w.1, u.2) - fp_mul_s(w.2, u.1),
        fp_mul_s(w.2, u.0) - fp_mul_s(w.0, u.2),
        fp_mul_s(w.0, u.1) - fp_mul_s(w.1, u.0),
    )
}

pub struct Camera {
    pub origin: Point,
    pub lower_left_corner: Point,
    pub horizontal: Vec3,
    pub vertical: Vec3,
}

/// One component of the ray direction through normalized image
/// coordinates `(s, t)`.
pub open spec fn dir_x_at(c: Camera, s: int, t: int) -> int {
    c.lower_left_corner.x + fp_mul_s(c.horizontal.x as int, s) + fp_mul_s(c.vertical.x as int, t)
        - c.origin.x
}

pub open spec fn dir_y_at(c: Camera, s: int, t: int) -> int {
    c.lower_left_corner.y + fp_mul_s(c.horizontal.y as int, s) + fp_mul_s(c.vertical.y as int, t)
        - c.origin.y
}

pub open spec fn dir_z_at(c: Camera, s: int, t: int) -> int {
    c.lower_left_corner.z + fp_mul_s(c.horizontal.z as int, s) + fp_mul_s(c.vertical.z as int, t)
        - c.origin.z
}

/// The fixed-point squared length of that direction.
pub open spec fn dir_sq_at(c: Camera, s: int, t: int) -> int {
    let x = dir_x_at(c, s, t);
    let y = dir_y_at(c, s, t);
    let z = dir_z_at(c, s, t);
    tdiv(x * x + y * y + z * z, SCALE as int)
}

/// A live camera: every ray through the viewport has at least one
/// tick of squared direction length, so each can be traced.
pub open spec fn camera_live(c: Camera) -> bool {
    forall|s: int, t: int|
        0 <= s <= SCALE && 0 <= t <= SCALE ==> #[trigger] dir_sq_at(c, s, t) >= 1
}

/// A camera whose rays stay within the pipeline limits.
pub open spec fn camera_wf(c: Camera) -> bool {
    &&& bounded(c.origin, 0x400_0000)
    &&& bounded(c.horizontal, 0x40_0000)
    &&& bounded(c.vertical, 0x40_0000)
    &&& abs_i(c.lower_left_corner.x - c.origin.x) <= 0x48_0000
    &&& abs_i(c.lower_left_corner.y - c.origin.y) <= 0x48_0000
    &&& abs_i(c.lower_left_corner.z - c.origin.z) <= 0x48_0000
}

impl Camera {
    /// Derives the view basis and viewport rectangle.
    ///
    /// `tan_half_fov` is the tangent of half the vertical field of
    /// view as a fixed-point scalar (the caller converts from an
    /// angle); the viewport is `2 * tan_half_fov` high and
    /// `aspect_ratio` times as wide. The eye must be separated from
    /// the target by at least a quarter unit.
    #[verifier::rlimit(60)]
    pub fn new(lookfrom: Point, lookat: Point, vup: Vec3, tan_half_fov: i64, aspect_ratio: i64)
        -> (r: Camera)
        requires
            bounded(lookfrom, 0x400_0000),
            bounded(lookat, 0x400_0000),
            bounded(vup, 0x100_0000),
            1 <= tan_half_fov <= 0x4_0000,
            1024 <= aspect_ratio <= 0x4_0000,
            diff_sq(lookfrom, lookat) >= 1,
        ensures
            r.origin == lookfrom,
            camera_wf(r),
            ({
                let w = basis_w(lookfrom, lookat);
                let u = basis_u(vup, lookfrom, lookat);
                let v = basis_v(vup, lookfrom, lookat);
                let vh = 2 * tan_half_fov;
                let vw = fp_mul_s(vh, aspect_ratio as int);
                &&& (r.horizontal.x as int, r.horizontal.y as int, r.horizontal.z as int) == (
                    fp_mul_s(u.0, vw),
                    fp_mul_s(u.1, vw),
                    fp_mul_s(u.2, vw),
                )
                &&& (r.vertical.x as int, r.vertical.y as int, r.vertical.z as int) == (
                    fp_mul_s(v.0, vh),
                    fp_mul_s(v.1, vh),
                    fp_mul_s(v.2, vh),
                )
                &&& r.lower_left_corner.x == lookfrom.x - fp_mul_s(r.horizontal.x as int, 32768)
                    - fp_mul_s(r.vertical.x as int, 32768) - w.0
                &&& r.lower_left_corner.y == lookfrom.y - fp_mul_s(r.horizontal.y as int, 32768)
                    - fp_mul_s(r.vertical.y as int, 32768) - w.1
                &&& r.lower_left_corner.z == lookfrom.z - fp_mul_s(r.horizontal.z as int, 32768)
                    - fp_mul_s(r.vertical.z as int, 32768) - w.2
            }),
    {
        let vh: i64 = 2 * tan_half_fov;
        proof {
            lemma_fp_mul_range(vh as int, aspect_ratio as int, 0x8_0000, 0x4_0000);
        }
        let vw: i64 = fp_mul(vh, aspect_ratio);
        let diff = lookfrom.minus(lookat);
        let w = diff.unit_vector();
        let cu = Vec3::cross(vup, w);
        proof {
            lemma_fp_mul_range(vup.y as int, w.z as int, 0x100_0000, 0x2_0000);
            lemma_fp_mul_range(vup.z as int, w.y as int, 0x100_0000, 0x2_0000);
            lemma_fp_mul_range(vup.z as int, w.x as int, 0x100_0000, 0x2_0000);
            lemma_fp_mul_range(vup.x as int, w.z as int, 0x100_0000, 0x2_0000);
            lemma_fp_mul_range(vup.x as int, w.y as int, 0x100_0000, 0x2_0000);
            lemma_fp_mul_range(vup.y as int, w.x as int, 0x100_0000, 0x2_0000);
        }
        let cl2: i64 = cu.length_double();
        let u = if cl2 < 1 {
            Vec3 { x: 65536, y: 0, z: 0 }
        } else {
            cu.unit_vector()
        };
        let v = Vec3::cross(w, u);
        proof {
            lemma_fp_mul_range(w.y as int, u.z as int, 0x2_0000, 0x2_0000);
            lemma_fp_mul_range(w.z as int, u.y as int, 0x2_0000, 0x2_0000);
            lemma_fp_mul_range(w.z as int, u.x as int, 0x2_0000, 0x2_0000);
            lemma_fp_mul_range(w.x as int, u.z as int, 0x2_0000, 0x2_0000);
            lemma_fp_mul_range(w.x as int, u.y as int, 0x2_0000, 0x2_0000);
            lemma_fp_mul_range(w.y as int, u.x as int, 0x2_0000, 0x2_0000);
            lemma_fp_mul_range(u.x as int, vw as int, 0x2_0000, 0x20_0000);
            lemma_fp_mul_range(u.y as int, vw as int, 0x2_0000, 0x20_0000);
            lemma_fp_mul_range(u.z as int, vw as int, 0x2_0000, 0x20_0000);
        }
        let horizontal = u.scale(vw);
        proof {
            lemma_fp_mul_range(v.x as int, vh as int, 0x8_0000, 0x8_0000);
            lemma_fp_mul_range(v.y as int, vh as int, 0x8_0000, 0x8_0000);
            lemma_fp_mul_range(v.z as int, vh as int, 0x8_0000, 0x8_0000);
        }
        let vertical = v.scale(vh);
        proof {
            lemma_fp_mul_range(horizontal.x as int, 32768, 0x40_0000, 32768);
            lemma_fp_mul_range(horizontal.y as int, 32768, 0x40_0000, 32768);
            lemma_fp_mul_range(horizontal.z as int, 32768, 0x40_0000, 32768);
            lemma_fp_mul_range(vertical.x as int, 32768, 0x40_0000, 32768);
            lemma_fp_mul_range(vertical.y as int, 32768, 0x40_0000, 32768);
            lemma_fp_mul_range(vertical.z as int, 32768, 0x40_0000, 32768);
        }
        let hh = horizontal.scale(32768);
        let hv = vertical.scale(32768);
        let lower_left_corner = lookfrom.minus(hh).minus(hv).minus(w);
        Camera { origin: lookfrom, lower_left_corner, horizontal, vertical }
    }

    /// The ray from the eye through normalized image coordinates
    /// `(s, t)` in `[0, 1]^2`.
    pub fn get_ray(&self, s: i64, t: i64) -> (r: Ray)
        requires
            camera_wf(*self),
            0 <= s <= 65536,
            0 <= t <= 65536,
        ensures
            r.org == self.origin,
            r.dir.x == self.lower_left_corner.x + fp_mul_s(self.horizontal.x as int, s as int)
                + fp_mul_s(self.vertical.x as int, t as int) - self.origin.x,
            r.dir.y == self.lower_left_corner.y + fp_mul_s(self.horizontal.y as int, s as int)
                + fp_mul_s(self.vertical.y as int, t as int) - self.origin.y,
            r.dir.z == self.lower_left_corner.z + fp_mul_s(self.horizontal.z as int, s as int)
                + fp_mul_s(self.vertical.z as int, t as int) - self.origin.z,
            ray_wf(r),
            camera_live(*self) ==> crate::ray::ray_live(r),
    {
        proof {
            lemma_fp_mul_range(self.horizontal.x as int, s as int, 0x40_0000, 0x1_0000);
            lemma_fp_mul_range(self.horizontal.y as int, s as int, 0x40_0000, 0x1_0000);
            lemma_fp_mul_range(self.horizontal.z as int, s as int, 0x40_0000, 0x1_0000);
            lemma_fp_mul_range(self.vertical.x as int, t as int, 0x40_0000, 0x1_0000);
            lemma_fp_mul_range(self.vertical.y as int, t as int, 0x40_0000, 0x1_0000);
            lemma_fp_mul_range(self.vertical.z as int, t as int, 0x40_0000, 0x1_0000);
        }
        let sh = self.horizontal.scale(s);
        let tv = self.vertical.scale(t);
        let dir = self.lower_left_corner.plus(sh).plus(tv).minus(self.origin);
        proof {
            if camera_live(*self) {
                assert(dir_sq_at(*self, s as int, t as int) >= 1);
                assert(crate::vec3::dot_s(dir, dir) == dir_sq_at(*self, s as int, t as int));
            }
        }
        Ray::new(self.origin, dir)
    }
}

} // verus!
