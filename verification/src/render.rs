//! The recursive shading algorithm, written as a bounded loop, and
//! the per-pixel multi-sample render loop around it.

use vstd::prelude::*;
use crate::camera::{camera_live, camera_wf, Camera};
use crate::fixed::{
    fp_div, fp_mul, fp_mul_s, idiv, lemma_fp_mul_one, lemma_tdiv, lemma_tdiv_bound, tdiv, SCALE,
};
use crate::hittable_list::{list_best, list_wf, HittableList};
use crate::ray::{ray_live, t_lim, Ray};
use crate::rng::rand_in;
use crate::vec3::{bounded, clamp_s, color_wf, lemma_color_mul, unit3, Color, Vec3};

verus! {

/// The ray parameter below which an intersection is ignored, to avoid
/// re-hitting the surface a scattered ray leaves (about 1e-4 units).
pub open spec fn hit_eps() -> int {
    7
}

/// The background gradient for a ray that escapes the scene: a blend
/// from white to sky blue by the upward component of the unit
/// direction, `(1 - t) * white + t * blue` with
/// `t = (unit_dir.y + 1) / 2` clamped into `[0, 1]`.
pub open spec fn background_s(r: Ray) -> (int, int, int) {
    let u = unit3(r.dir.x as int, r.dir.y as int, r.dir.z as int);
    let t = clamp_s(tdiv(u.1 + SCALE, 2), 0, SCALE as int);
    (
        (SCALE - t) + fp_mul_s(t, 32768),
        (SCALE - t) + fp_mul_s(t, 45875),
        (SCALE - t) + fp_mul_s(t, SCALE as int),
    )
}

/// The background gradient, executable.
fn background(ray: &Ray) -> (r: Color)
    requires
        ray_live(*ray),
    ensures
        (r.x as int, r.y as int, r.z as int) == background_s(*ray),
        color_wf(r),
{
    let u = ray.dir.unit_vector();
    let t0: i64 = idiv(u.y + 65536, 2);
    let t: i64 = if t0 < 0 {
        0
    } else if t0 > 65536 {
        65536
    } else {
        t0
    };
    proof {
        lemma_channel_blend(t as int, 32768);
        lemma_channel_blend(t as int, 45875);
        lemma_channel_blend(t as int, SCALE as int);
    }
    Vec3 {
        x: (65536 - t) + fp_mul(t, 32768),
        y: (65536 - t) + fp_mul(t, 45875),
        z: (65536 - t) + fp_mul(t, 65536),
    }
}

/// The sky's blue channel is always full: whatever the direction, the
/// background gradient's third channel is exactly one.
pub proof fn lemma_background_blue(r: Ray)
    ensures
        background_s(r).2 == SCALE,
{
    let u = unit3(r.dir.x as int, r.dir.y as int, r.dir.z as int);
    let t = clamp_s(tdiv(u.1 + SCALE, 2), 0, SCALE as int);
    lemma_fp_mul_one(t);
}

/// One channel of the gradient stays within `[0, 1]`.
proof fn lemma_channel_blend(t: int, b: int)
    requires
        0 <= t <= SCALE,
        0 <= b <= SCALE,
    ensures
        crate::fixed::fp_mul_ok(t, b),
        0 <= fp_mul_s(t, b) <= t,
        0 <= (SCALE - t) + fp_mul_s(t, b) <= SCALE,
{
    assert(0 <= t * b && t * b <= t * 65536) by (nonlinear_arith)
        requires
            0 <= t,
            0 <= b <= 65536,
    {}
    lemma_tdiv(t * b, SCALE as int);
    lemma_tdiv_bound(t * b, SCALE as int, t * 65536);
    vstd::arithmetic::div_mod::lemma_div_by_multiple(t, 65536);
}

/// Traces one ray through the scene for up to `depth` bounces,
/// multiplying attenuations along the path.
///
/// The contract pins every deterministic outcome: zero depth yields
/// black; a degenerate ray (out of the pipeline's limits, or shorter
/// than one tick) yields black; a ray that misses the scene yields
/// exactly the background gradient. A path that bounces is a product
/// of attenuations, each step exact at its own contract, and the
/// result is always a well-formed color.
pub fn ray_color(ray: &Ray, world: &HittableList, depth: u32, rng: &mut rand::rngs::StdRng) -> (r:
    Color)
    requires
        list_wf(*world),
    ensures
        color_wf(r),
        depth == 0 ==> r.x == 0 && r.y == 0 && r.z == 0,
        depth > 0 && !ray_live(*ray) ==> r.x == 0 && r.y == 0 && r.z == 0,
        depth > 0 && ray_live(*ray) && list_best(
            world.objects@,
            world.objects@.len() as int,
            *ray,
            hit_eps(),
            t_lim(),
        ) is None ==> (r.x as int, r.y as int, r.z as int) == background_s(*ray),
{
    let mut cur: Ray = *ray;
    let mut acc: Color = Vec3 { x: 65536, y: 65536, z: 65536 };
    let mut d: u32 = depth;
    loop
        invariant
            list_wf(*world),
            color_wf(acc),
            d <= depth,
            d == depth ==> cur == *ray && acc.x == 65536 && acc.y == 65536 && acc.z == 65536,
            d < depth ==> depth > 0 && ray_live(*ray) && list_best(
                world.objects@,
                world.objects@.len() as int,
                *ray,
                hit_eps(),
                t_lim(),
            ) is Some,
        decreases d,
    {
        if d == 0 {
            return Vec3 { x: 0, y: 0, z: 0 };
        }
        let in_limits: bool = -0x800_0000 <= cur.org.x && cur.org.x <= 0x800_0000 && -0x800_0000
            <= cur.org.y && cur.org.y <= 0x800_0000 && -0x800_0000 <= cur.org.z && cur.org.z
            <= 0x800_0000 && -0x100_0000 <= cur.dir.x && cur.dir.x <= 0x100_0000 && -0x100_0000
            <= cur.dir.y && cur.dir.y <= 0x100_0000 && -0x100_0000 <= cur.dir.z && cur.dir.z
            <= 0x100_0000;
        if !in_limits {
            return Vec3 { x: 0, y: 0, z: 0 };
        }
        let dl: i64 = cur.dir.length_double();
        if dl < 1 {
            return Vec3 { x: 0, y: 0, z: 0 };
        }
        let found = world.hit(&cur, 7, 0x4000_0000);
        match found {
            Some(rec) => {
                match rec.material.scatter(rng, &cur, &rec) {
                    Some(sc) => {
                        proof {
                            lemma_color_mul(acc, sc.attenuation);
                        }
                        acc = acc.comp_mul(sc.attenuation);
                        cur = sc.ray;
                        d = d - 1;
                    },
                    None => {
                        return Vec3 { x: 0, y: 0, z: 0 };
                    },
                }
            },
            None => {
                let bg = background(&cur);
                proof {
                    lemma_color_mul(acc, bg);
                    lemma_fp_mul_one(bg.x as int);
                    lemma_fp_mul_one(bg.y as int);
                    lemma_fp_mul_one(bg.z as int);
                }
                return acc.comp_mul(bg);
            },
        }
    }
}

/// Sums `samples` jittered rays through one pixel. The sub-pixel
/// offsets are random; every outcome is a sum of well-formed sample
/// colors, so each channel lies in `[0, samples]` — and on a live
/// camera over an empty scene every sample is the background
/// gradient, whose blue channel is full, so the summed blue is
/// exactly the sample count.
pub fn pixel_color(
    camera: &Camera,
    world: &HittableList,
    col: u32,
    row: u32,
    width: u32,
    height: u32,
    samples: u32,
    depth: u32,
    rng: &mut rand::rngs::StdRng,
) -> (r: Color)
    requires
        camera_wf(*camera),
        list_wf(*world),
        2 <= width <= 0x1_0000,
        2 <= height <= 0x1_0000,
        col < width,
        row < height,
        1 <= samples <= 0x1_0000,
    ensures
        0 <= r.x <= samples * SCALE,
        0 <= r.y <= samples * SCALE,
        0 <= r.z <= samples * SCALE,
        camera_live(*camera) && world.objects@.len() == 0 && depth >= 1 ==> r.z == samples
            * SCALE,
{
    let mut sum: Color = Vec3 { x: 0, y: 0, z: 0 };
    let mut k: u32 = 0;
    while k < samples
        invariant
            camera_wf(*camera),
            list_wf(*world),
            2 <= width <= 0x1_0000,
            2 <= height <= 0x1_0000,
            col < width,
            row < height,
            samples <= 0x1_0000,
            k <= samples,
            0 <= sum.x <= k * SCALE,
            0 <= sum.y <= k * SCALE,
            0 <= sum.z <= k * SCALE,
            camera_live(*camera) && world.objects@.len() == 0 && depth >= 1 ==> sum.z == k
                * SCALE,
        decreases samples - k,
    {
        let ju: i64 = rand_in(rng, 0, 65536);
        let jv: i64 = rand_in(rng, 0, 65536);
        let s = pixel_coord(col, width, ju);
        let t = pixel_coord(row, height, jv);
        let ray = camera.get_ray(s, t);
        let c = ray_color(&ray, world, depth, rng);
        proof {
            if camera_live(*camera) && world.objects@.len() == 0 && depth >= 1 {
                assert(list_best(
                    world.objects@,
                    world.objects@.len() as int,
                    ray,
                    hit_eps(),
                    t_lim(),
                ) is None);
                lemma_background_blue(ray);
            }
        }
        sum = sum.plus(c);
        k = k + 1;
    }
    sum
}

/// The normalized image coordinate of a jittered sample:
/// `(index + jitter) / (extent - 1)`, clamped into `[0, 1]`.
fn pixel_coord(index: u32, extent: u32, jitter: i64) -> (r: i64)
    requires
        2 <= extent <= 0x1_0000,
        index < extent,
        0 <= jitter < 65536,
    ensures
        0 <= r <= 65536,
        r == clamp_s(
            crate::fixed::fp_div_s(
                index * (SCALE as int) + jitter,
                (extent - 1) * (SCALE as int),
            ),
            0,
            SCALE as int,
        ),
{
    let num: i64 = (index as i64) * 65536 + jitter;
    let den: i64 = ((extent - 1) as i64) * 65536;
    proof {
        lemma_tdiv((num as int) * (SCALE as int), den as int);
    }
    let q: i64 = fp_div(num, den);
    if q > 65536 {
        65536
    } else {
        q
    }
}

/// Renders the full image: rows from top to bottom, columns left to
/// right, one summed sample color per pixel; on a live camera over an
/// empty scene every pixel's blue channel is exactly the sample count.
pub fn render(
    camera: &Camera,
    world: &HittableList,
    width: u32,
    height: u32,
    samples: u32,
    depth: u32,
    rng: &mut rand::rngs::StdRng,
) -> (r: Vec<Color>)
    requires
        camera_wf(*camera),
        list_wf(*world),
        2 <= width <= 0x1_0000,
        2 <= height <= 0x1_0000,
        1 <= samples <= 0x1_0000,
    ensures
        r@.len() == width * height,
        forall|k: int|
            0 <= k < r@.len() ==> {
                &&& 0 <= (#[trigger] r@[k]).x <= samples * SCALE
                &&& 0 <= r@[k].y <= samples * SCALE
                &&& 0 <= r@[k].z <= samples * SCALE
            },
        camera_live(*camera) && world.objects@.len() == 0 && depth >= 1 ==> forall|k: int|
            0 <= k < r@.len() ==> (#[trigger] r@[k]).z == samples * SCALE,
{
    let mut out: Vec<Color> = Vec::new();
    let mut i: u32 = height;
    while i > 0
        invariant
            camera_wf(*camera),
            list_wf(*world),
            2 <= width <= 0x1_0000,
            2 <= height <= 0x1_0000,
            1 <= samples <= 0x1_0000,
            i <= height,
            out@.len() == (height - i) * width,
            forall|k: int|
                0 <= k < out@.len() ==> {
                    &&& 0 <= (#[trigger] out@[k]).x <= samples * SCALE
                    &&& 0 <= out@[k].y <= samples * SCALE
                    &&& 0 <= out@[k].z <= samples * SCALE
                },
            camera_live(*camera) && world.objects@.len() == 0 && depth >= 1 ==> forall|k: int|
                0 <= k < out@.len() ==> (#[trigger] out@[k]).z == samples * SCALE,
        decreases i,
    {
        i = i - 1;
        proof {
            assert(((height - i - 1) as int) * (width as int) + (width as int) == ((height
                - i) as int) * (width as int)) by (nonlinear_arith);
        }
        let mut j: u32 = 0;
        while j < width
            invariant
                camera_wf(*camera),
                list_wf(*world),
                2 <= width <= 0x1_0000,
                2 <= height <= 0x1_0000,
                1 <= samples <= 0x1_0000,
                i < height,
                j <= width,
                out@.len() == (height - i - 1) * width + j,
                forall|k: int|
                    0 <= k < out@.len() ==> {
                        &&& 0 <= (#[trigger] out@[k]).x <= samples * SCALE
                        &&& 0 <= out@[k].y <= samples * SCALE
                        &&& 0 <= out@[k].z <= samples * SCALE
                    },
                camera_live(*camera) && world.objects@.len() == 0 && depth >= 1
                    ==> forall|k: int|
                    0 <= k < out@.len() ==> (#[trigger] out@[k]).z == samples * SCALE,
            decreases width - j,
        {
            let c = pixel_color(camera, world, j, i, width, height, samples, depth, rng);
            out.push(c);
            j = j + 1;
        }
    }
    proof {
        assert((height as int) * (width as int) == (width as int) * (height as int))
            by (nonlinear_arith);
    }
    out
}

} // verus!
