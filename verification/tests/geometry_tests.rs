//! Ray, sphere and scene-list behavior, in fixed-point ticks.

use raytrace::hittable_list::HittableList;
use raytrace::lambertian::Lambertian;
use raytrace::material::Material;
use raytrace::ray::Ray;
use raytrace::sphere::Sphere;
use raytrace::vec3::Vec3;

const S: i64 = 65536;

fn gray() -> Material {
    Material::Lambertian(Lambertian::new(Vec3::new(S / 2, S / 2, S / 2)))
}

#[test]
fn test_at() {
    let o = Vec3::new(S, S, S);
    let d = Vec3::new(S, 2 * S, 3 * S);
    let r = Ray::new(o, d);

    let sut = r.at(2 * S);

    assert_eq!(sut.x, 3 * S);
    assert_eq!(sut.y, 5 * S);
    assert_eq!(sut.z, 7 * S);
}

#[test]
fn sphere_hit_head_on() {
    // Sphere at (0, 0, -1) with radius 0.5, ray from the origin along
    // (0, 0, -1): hit at t = 0.5, normal (0, 0, 1), front face.
    let sphere = Sphere::new(Vec3::new(0, 0, -S), S / 2, gray());
    let ray = Ray::new(Vec3::new(0, 0, 0), Vec3::new(0, 0, -S));

    let rec = sphere.hit(&ray, 0, 0x4000_0000).expect("must hit");

    assert_eq!(rec.t, S / 2);
    assert_eq!((rec.normal.x, rec.normal.y, rec.normal.z), (0, 0, S));
    assert!(rec.front_face);
    assert_eq!((rec.p.x, rec.p.y, rec.p.z), (0, 0, -S / 2));
}

#[test]
fn sphere_hit_open_interval_at_t_max() {
    // The surface lies at parameter exactly 0.5: with t_max == 0.5 the
    // open interval excludes it; any larger bound admits it.
    let sphere = Sphere::new(Vec3::new(0, 0, -S), S / 2, gray());
    let ray = Ray::new(Vec3::new(0, 0, 0), Vec3::new(0, 0, -S));

    assert!(sphere.hit(&ray, 0, S / 2).is_none());
    assert!(sphere.hit(&ray, 0, S / 2 + 1).is_some());
}

#[test]
fn sphere_hit_open_interval_at_t_min() {
    let sphere = Sphere::new(Vec3::new(0, 0, -S), S / 2, gray());
    let ray = Ray::new(Vec3::new(0, 0, 0), Vec3::new(0, 0, -S));

    // The near root is at 0.5, the far root at 1.5.
    let rec = sphere.hit(&ray, S / 2, 0x4000_0000).expect("far root");
    assert_eq!(rec.t, 3 * S / 2);
}

#[test]
fn negative_radius_reports_far_root_and_inward_normal() {
    // A negative radius flips the reported outward normal, which flips
    // the face classification: the hollow-shell trick.
    let inside = Vec3::new(0, 0, -S);
    let dir = Vec3::new(0, 0, -S);

    let hollow = Sphere::new(inside, -S / 2, gray());
    let rec = hollow.hit(&Ray::new(inside, dir), 0, 0x4000_0000).expect("must hit");
    // Far root: the near root is behind the origin.
    assert_eq!(rec.t, S / 2);
    // The reported normal points back toward the ray origin (inward
    // relative to the geometric outward normal at the south pole).
    assert_eq!((rec.normal.x, rec.normal.y, rec.normal.z), (0, 0, S));
    assert!(rec.front_face);

    // The same geometry with a positive radius classifies the hit as a
    // back face and stores the same ray-opposing normal.
    let solid = Sphere::new(inside, S / 2, gray());
    let rec2 = solid.hit(&Ray::new(inside, dir), 0, 0x4000_0000).expect("must hit");
    assert_eq!(rec2.t, S / 2);
    assert_eq!((rec2.normal.x, rec2.normal.y, rec2.normal.z), (0, 0, S));
    assert!(!rec2.front_face);
}

#[test]
fn empty_list_never_hits() {
    let world = HittableList::default();
    let ray = Ray::new(Vec3::new(0, 0, 0), Vec3::new(0, 0, -S));
    assert!(world.hit(&ray, 0, 0x4000_0000).is_none());
}

#[test]
fn list_returns_nearest_hit() {
    let mut world = HittableList::default();
    // Farther sphere first: insertion order must not matter.
    world.add(Sphere::new(Vec3::new(0, 0, -4 * S), S / 2, gray()));
    world.add(Sphere::new(Vec3::new(0, 0, -S), S / 2, gray()));
    let ray = Ray::new(Vec3::new(0, 0, 0), Vec3::new(0, 0, -S));

    let rec = world.hit(&ray, 0, 0x4000_0000).expect("must hit");
    assert_eq!(rec.t, S / 2);

    let mut world2 = HittableList::default();
    world2.add(Sphere::new(Vec3::new(0, 0, -S), S / 2, gray()));
    world2.add(Sphere::new(Vec3::new(0, 0, -4 * S), S / 2, gray()));
    let rec2 = world2.hit(&ray, 0, 0x4000_0000).expect("must hit");
    assert_eq!(rec2.t, S / 2);
}

#[test]
fn shrinking_interval_skips_shadow_acne() {
    // With a small positive t_min, a hit exactly at the origin of a
    // scattered ray is ignored.
    let sphere = Sphere::new(Vec3::new(0, 0, -S), S / 2, gray());
    // Origin on the sphere surface, ray leaving the surface.
    let ray = Ray::new(Vec3::new(0, 0, -S / 2), Vec3::new(0, 0, S));
    let rec = sphere.hit(&ray, 7, 0x4000_0000);
    assert!(rec.is_none());
}
