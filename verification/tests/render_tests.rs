//! Shading, sampling and end-to-end rendering, in fixed-point ticks.

use rand::SeedableRng;
use raytrace::camera::Camera;
use raytrace::color::to_bytes;
use raytrace::dielectric::Dielectric;
use raytrace::hittable_list::HittableList;
use raytrace::lambertian::Lambertian;
use raytrace::material::Material;
use raytrace::metal::Metal;
use raytrace::ray::Ray;
use raytrace::render::{pixel_color, ray_color, render};
use raytrace::sphere::Sphere;
use raytrace::vec3::Vec3;

const S: i64 = 65536;

fn two_sphere_scene() -> HittableList {
    let mut world = HittableList::default();
    // Ground: a large sphere below the origin.
    world.add(Sphere::new(
        Vec3::new(0, -1000 * S, 0),
        1000 * S,
        Material::Lambertian(Lambertian::new(Vec3::new(S / 2, S / 2, S / 2))),
    ));
    world.add(Sphere::new(
        Vec3::new(0, 0, -S),
        S / 2,
        Material::Metal(Metal::new(Vec3::new(S, S, S), 0)),
    ));
    world
}

#[test]
fn ray_color_depth_zero_is_black() {
    let world = two_sphere_scene();
    let mut rng = rand::rngs::StdRng::seed_from_u64(1);
    // Even a ray aimed straight at a sphere contributes nothing at
    // depth zero.
    let ray = Ray::new(Vec3::new(0, 0, 0), Vec3::new(0, 0, -S));
    let c = ray_color(&ray, &world, 0, &mut rng);
    assert_eq!((c.x, c.y, c.z), (0, 0, 0));
}

#[test]
fn ray_color_background_gradient_exact() {
    let world = two_sphere_scene();
    let mut rng = rand::rngs::StdRng::seed_from_u64(2);
    // Straight up: misses both spheres; the unit direction has y == 1,
    // so t == 1 and the color is exactly the sky blue (0.5, 0.7, 1.0).
    let up = Ray::new(Vec3::new(0, 0, 0), Vec3::new(0, S, 0));
    let c = ray_color(&up, &world, 8, &mut rng);
    assert_eq!((c.x, c.y, c.z), (32768, 45875, S));

    // Horizontal along +x: unit y == 0, t == 1/2, so the color is
    // exactly ((1 - t) + t * blue) per channel.
    let level = Ray::new(Vec3::new(0, 2 * S, 0), Vec3::new(S, 0, 0));
    let c2 = ray_color(&level, &world, 8, &mut rng);
    let t = 32768;
    let expect = (
        (S - t) + t * 32768 / S,
        (S - t) + t * 45875 / S,
        (S - t) + t * S / S,
    );
    assert_eq!((c2.x, c2.y, c2.z), expect);
}

#[test]
fn ray_color_absorbs_degenerate_rays() {
    let world = two_sphere_scene();
    let mut rng = rand::rngs::StdRng::seed_from_u64(3);
    // A zero direction cannot be traced: defined black, not NaN.
    let stuck = Ray::new(Vec3::new(0, 0, 0), Vec3::new(0, 0, 0));
    let c = ray_color(&stuck, &world, 8, &mut rng);
    assert_eq!((c.x, c.y, c.z), (0, 0, 0));
}

#[test]
fn ray_color_bounces_attenuate() {
    let world = two_sphere_scene();
    let mut rng = rand::rngs::StdRng::seed_from_u64(4);
    // Hit the mirror sphere head on: the reflection goes back up and
    // samples the sky; the result is a valid color, not black.
    let ray = Ray::new(Vec3::new(0, 0, 0), Vec3::new(0, 0, -S));
    let c = ray_color(&ray, &world, 8, &mut rng);
    assert!(0 <= c.x && c.x <= S);
    assert!(0 <= c.y && c.y <= S);
    assert!(0 <= c.z && c.z <= S);
}

#[test]
fn glass_sphere_passes_light_through() {
    let mut world = HittableList::default();
    world.add(Sphere::new(
        Vec3::new(0, 0, -S),
        S / 2,
        Material::Dielectric(Dielectric::new(S)),
    ));
    let mut rng = rand::rngs::StdRng::seed_from_u64(5);
    // Index-matched glass bends nothing: the ray passes through and
    // exits downward... the path ends on the background gradient at
    // the same direction, attenuated by white only.
    let ray = Ray::new(Vec3::new(0, 0, S), Vec3::new(0, 0, -S));
    let c = ray_color(&ray, &world, 8, &mut rng);
    // Straight along -z: unit y == 0, t == 1/2: exact mid gradient.
    let t = 32768;
    assert_eq!((c.x, c.y, c.z), ((S - t) + t * 32768 / S, (S - t) + t * 45875 / S, S));
}

#[test]
fn camera_center_ray_points_at_target() {
    let camera = Camera::new(
        Vec3::new(0, 0, 0),
        Vec3::new(0, 0, -S),
        Vec3::new(0, S, 0),
        S,
        S,
    );
    let r = camera.get_ray(S / 2, S / 2);
    assert_eq!((r.org.x, r.org.y, r.org.z), (0, 0, 0));
    assert_eq!((r.dir.x, r.dir.y, r.dir.z), (0, 0, -S));

    // Corner rays span the viewport: at (0, 0) the ray points toward
    // the lower left corner.
    let c = camera.get_ray(0, 0);
    assert_eq!((c.dir.x, c.dir.y, c.dir.z), (-S, -S, -S));
}

#[test]
fn pixel_color_sums_bounded_samples() {
    let camera = Camera::new(
        Vec3::new(0, 0, 0),
        Vec3::new(0, 0, -S),
        Vec3::new(0, S, 0),
        S,
        S,
    );
    let world = two_sphere_scene();
    let mut rng = rand::rngs::StdRng::seed_from_u64(6);
    let c = pixel_color(&camera, &world, 3, 2, 8, 6, 16, 8, &mut rng);
    assert!(0 <= c.x && c.x <= 16 * S);
    assert!(0 <= c.y && c.y <= 16 * S);
    assert!(0 <= c.z && c.z <= 16 * S);
}

#[test]
fn render_is_deterministic_under_a_fixed_seed() {
    let camera = Camera::new(
        Vec3::new(13 * S, 2 * S, 3 * S),
        Vec3::new(0, 0, 0),
        Vec3::new(0, S, 0),
        11556,  // tan of half a 20-degree field of view
        116508, // 16:9
    );
    let world = two_sphere_scene();

    let mut rng1 = rand::rngs::StdRng::seed_from_u64(42);
    let img1 = render(&camera, &world, 16, 9, 4, 8, &mut rng1);

    let mut rng2 = rand::rngs::StdRng::seed_from_u64(42);
    let img2 = render(&camera, &world, 16, 9, 4, 8, &mut rng2);

    assert_eq!(img1.len(), 16 * 9);
    assert_eq!(img1.len(), img2.len());
    for (a, b) in img1.iter().zip(img2.iter()) {
        assert_eq!((a.x, a.y, a.z), (b.x, b.y, b.z));
    }

    // A different seed produces a different image (with overwhelming
    // probability for this scene).
    let mut rng3 = rand::rngs::StdRng::seed_from_u64(43);
    let img3 = render(&camera, &world, 16, 9, 4, 8, &mut rng3);
    assert!(img1.iter().zip(img3.iter()).any(|(a, b)| (a.x, a.y, a.z) != (b.x, b.y, b.z)));
}

#[test]
fn empty_scene_pixel_is_fully_blue() {
    // With no geometry, every jittered sample lands on the background
    // gradient, whose blue channel is always full: the summed blue is
    // exactly the sample count.
    let camera = Camera::new(
        Vec3::new(0, 0, 0),
        Vec3::new(0, 0, -S),
        Vec3::new(0, S, 0),
        S,
        S,
    );
    let world = HittableList::default();
    let mut rng = rand::rngs::StdRng::seed_from_u64(21);
    let c = pixel_color(&camera, &world, 1, 1, 4, 4, 8, 5, &mut rng);
    assert_eq!(c.z, 8 * S);
    assert!(0 <= c.x && c.x <= 8 * S);

    let img = render(&camera, &world, 4, 4, 3, 5, &mut rng);
    assert_eq!(img.len(), 16);
    for p in img.iter() {
        assert_eq!(p.z, 3 * S);
    }
}

#[test]
fn to_bytes_averages_gammas_and_scales() {
    // Averages of 1.0, 0.0 and 0.25 gamma-correct to 1.0, 0.0, 0.5,
    // scale by 256 with rounding, and cap at 255: 255, 0, 128.
    let sum = Vec3::new(4 * S, 0, S);
    let (r, g, b) = to_bytes(sum, 4);
    assert_eq!((r, g, b), (255, 0, 128));
}

#[test]
fn to_bytes_gamma_of_half_rounds_to_nearest() {
    // Average 0.5 gamma-corrects to sqrt(0.5) = 46340/65536 ticks and
    // scales to round(256 * 46340 / 65536) = round(181.015...) = 181.
    let sum = Vec3::new(2 * S, 0, 0);
    let (r, g, b) = to_bytes(sum, 4);
    assert_eq!((r, g, b), (181, 0, 0));
}

#[test]
fn to_bytes_clamps_overbright_channels() {
    // A summed channel above the representable range clamps to 255.
    let (r, g, b) = to_bytes(Vec3::new(40 * S, 2 * S, 0), 2);
    assert_eq!(r, 255);
    assert_eq!(g, 255);
    assert_eq!(b, 0);
}
