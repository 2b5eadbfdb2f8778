//! Vector algebra behavior, in fixed-point ticks (65536 per unit).

use rand::SeedableRng;
use raytrace::fixed::{fp_mul, fp_sqrt, SCALE};
use raytrace::vec3::Vec3;

const S: i64 = 65536;

#[test]
fn test_length() {
    let v1 = Vec3::new(S, 2 * S, 3 * S);
    let v2 = Vec3::new(-S, -2 * S, -3 * S);

    // length^2 must bracket 14 exactly: l*l <= 14 < (l+1)*(l+1) in ticks^2.
    let l1 = v1.length();
    assert!(l1 * l1 <= 14 * S * S);
    assert!(14 * S * S < (l1 + 1) * (l1 + 1));
    let l2 = v2.length();
    assert!(l2 * l2 <= 14 * S * S);
    assert!(14 * S * S < (l2 + 1) * (l2 + 1));
}

#[test]
fn test_dot() {
    let v1 = Vec3::new(S, 2 * S, 3 * S);
    let v2 = Vec3::new(2 * S, 3 * S, 4 * S);

    assert!(Vec3::dot(v1, v2) - 20 * S <= 1);
    assert_eq!(Vec3::dot(v1, v2), 20 * S);
}

#[test]
fn test_cross() {
    let v1 = Vec3::new(S, 0, 0);
    let v2 = Vec3::new(0, S, 0);

    let ans = Vec3::cross(v1, v2);

    assert!(ans.x <= 1);
    assert!(ans.y <= 1);
    assert!(ans.z - S <= 1);
    assert_eq!((ans.x, ans.y, ans.z), (0, 0, S));
}

#[test]
fn test_unit_vector() {
    let v1 = Vec3::new(2 * S, 0, 0);

    let ans = v1.unit_vector();

    assert!(ans.x - S <= 1);
    assert!(ans.y <= 1);
    assert!(ans.z <= 1);
    assert_eq!((ans.x, ans.y, ans.z), (S, 0, 0));
}

#[test]
fn test_add() {
    // 1.1, 2.2, 3.3 and 4.4, 5.5, 6.6 rounded to the tick grid.
    let v1 = Vec3::new(72090, 144179, 216269);
    let v2 = Vec3::new(288358, 360448, 432538);

    let ans = v1.plus(v2);
    assert!((ans.x - 360448).abs() <= 1);
    assert!((ans.y - 504627).abs() <= 1);
    assert!((ans.z - 648807).abs() <= 1);
}

#[test]
fn test_sub() {
    let v1 = Vec3::new(72090, 144179, 432538);
    let v2 = Vec3::new(288358, 144179, 144179);

    let ans1 = v1.minus(v2);
    assert!((ans1.x + 216268).abs() <= 1);
    assert!((ans1.y).abs() <= 1);
    assert!((ans1.z - 288359).abs() <= 1);

    let ans2 = v2.minus(v1);
    assert!((ans2.x - 216268).abs() <= 1);
    assert!((ans2.y).abs() <= 1);
    assert!((ans2.z + 288359).abs() <= 1);
}

#[test]
fn test_mul() {
    let v1 = Vec3::new(72090, 144179, 216269);

    let ans1 = v1.comp_mul(Vec3::new(2 * S, 2 * S, 2 * S));
    assert!((ans1.x - 144180).abs() <= 1);
    assert!((ans1.y - 288358).abs() <= 1);
    assert!((ans1.z - 432538).abs() <= 1);

    let ans2 = v1.scale(2 * S);
    assert!((ans2.x - 144180).abs() <= 1);
    assert!((ans2.y - 288358).abs() <= 1);
    assert!((ans2.z - 432538).abs() <= 1);
}

#[test]
fn test_div() {
    let v1 = Vec3::new(72090, 144179, 216269);

    let ans1 = v1.scale_div(2 * S);
    assert!((ans1.x - 36045).abs() <= 1);
    assert!((ans1.y - 72089).abs() <= 1);
    assert!((ans1.z - 108134).abs() <= 1);
}

#[test]
fn test_add_assign() {
    let v1 = Vec3::new(S, 2 * S, 3 * S);
    let mut ans = Vec3::new(4 * S, 5 * S, 6 * S);

    ans = ans.plus(v1);
    assert!((ans.x - 5 * S) <= 1);
    assert!((ans.y - 7 * S) <= 1);
    assert!((ans.z - 9 * S) <= 1);
}

#[test]
fn test_sub_assign() {
    let v1 = Vec3::new(72090, 144179, 432538);
    let mut ans = Vec3::new(288358, 144179, 144179);

    ans = ans.minus(v1);

    assert!((ans.x - 216268) <= 1);
    assert!((ans.y) <= 1);
    assert!((ans.z + 288359) <= 1);
}

#[test]
fn test_mul_assign() {
    let mut ans = Vec3::new(72090, 144179, 216269);

    ans = ans.scale(2 * S);

    assert!((ans.x - 144180) <= 1);
    assert!((ans.y - 288358) <= 1);
    assert!((ans.z - 432538) <= 1);
}

#[test]
fn test_div_assign() {
    let mut ans = Vec3::new(72090, 144179, 216269);

    ans = ans.scale_div(2 * S);

    assert!((ans.x - 36045) <= 1);
    assert!((ans.y - 72089) <= 1);
    assert!((ans.z - 108134) <= 1);
}

#[test]
fn test_div_reflect() {
    let v1 = Vec3::new(2 * S, 3 * S, 4 * S);
    let n = Vec3::new(S, S, S);
    let ans = v1.reflect(n);

    assert!((ans.x + 2 * S) <= 1);
    assert!((ans.y + 3 * S) <= 1);
    assert!((ans.z + 4 * S) <= 1);
    // v - 2 * dot(v, n) * n with dot = 9: exactly (-16, -15, -14).
    assert_eq!((ans.x, ans.y, ans.z), (-16 * S, -15 * S, -14 * S));
}

#[test]
fn unit_vector_length_near_one() {
    // Normalizing any nonzero vector gives length 1 up to the tick grid.
    let cases = [
        Vec3::new(S, 2 * S, 3 * S),
        Vec3::new(-7 * S, 5 * S, 11 * S / 10),
        Vec3::new(100 * S, -1, 2),
        Vec3::new(-S / 2, S / 3, -S / 7),
    ];
    for v in cases {
        let u = v.unit_vector();
        let len = u.length();
        assert!(
            (len - SCALE).abs() <= 8,
            "length of unit vector off by {} ticks",
            (len - SCALE).abs()
        );
    }
}

#[test]
fn cross_orthogonal_within_rounding() {
    // dot(cross(a, b), a) and dot(cross(a, b), b) vanish up to rounding.
    let pairs = [
        (Vec3::new(S, 2 * S, 3 * S), Vec3::new(-2 * S, S, 4 * S)),
        (Vec3::new(5 * S, -7 * S, 11 * S), Vec3::new(13 * S, 17 * S, -19 * S)),
        (Vec3::new(S / 3, S / 5, -S / 7), Vec3::new(-S / 2, S, S / 9)),
    ];
    for (a, b) in pairs {
        let c = Vec3::cross(a, b);
        let da = Vec3::dot(c, a);
        let db = Vec3::dot(c, b);
        // The proved bound: |dot| <= 2 * (|x| + |y| + |z|) / SCALE + 1 per factor.
        let bound_a = 2 * (a.x.abs() + a.y.abs() + a.z.abs()) / 65536 + 2;
        let bound_b = 2 * (b.x.abs() + b.y.abs() + b.z.abs()) / 65536 + 2;
        assert!(da.abs() <= bound_a, "dot(cross, a) = {da}");
        assert!(db.abs() <= bound_b, "dot(cross, b) = {db}");
    }
}

#[test]
fn reflect_flips_normal_component() {
    // For a unit normal, dot(reflect(v, n), n) == -dot(v, n) up to rounding.
    let n = Vec3::new(0, 0, S);
    let vs = [
        Vec3::new(3 * S, -2 * S, -5 * S),
        Vec3::new(-S, S / 2, -S / 3),
        Vec3::new(7, -13, -2 * S),
    ];
    for v in vs {
        let r = v.reflect(n);
        let lhs = Vec3::dot(r, n);
        let rhs = -Vec3::dot(v, n);
        assert!((lhs - rhs).abs() <= 2, "reflect defect {}", (lhs - rhs).abs());
    }
}

#[test]
fn random_samples_stay_in_range() {
    let mut rng = rand::rngs::StdRng::seed_from_u64(7);
    let mut seen = std::collections::HashSet::new();
    for _ in 0..200 {
        let v = Vec3::random(&mut rng, -3, 3);
        assert!(-3 <= v.x && v.x < 3);
        assert!(-3 <= v.y && v.y < 3);
        assert!(-3 <= v.z && v.z < 3);
        seen.insert((v.x, v.y, v.z));
    }
    // A generator that ignored its range or returned a constant would fail.
    assert!(seen.len() > 1);
}

#[test]
fn random_in_unit_sphere_is_normalizable_interior() {
    let mut rng = rand::rngs::StdRng::seed_from_u64(11);
    for _ in 0..100 {
        let p = Vec3::random_in_unit_sphere(&mut rng);
        let d = p.length_double();
        assert!(256 <= d && d < 65536);
    }
}

#[test]
fn random_unit_vector_has_near_unit_length() {
    let mut rng = rand::rngs::StdRng::seed_from_u64(17);
    for _ in 0..100 {
        let u = Vec3::random_unit_vector(&mut rng);
        let d = u.length_double();
        assert!(65536 - 12 <= d && d <= 65536 + 317, "unit sample squared length {d}");
    }
}

#[test]
fn random_in_hemisphere_respects_normal() {
    let mut rng = rand::rngs::StdRng::seed_from_u64(13);
    let n = Vec3::new(0, 0, 65536);
    for _ in 0..100 {
        let p = Vec3::random_in_hemisphere(&mut rng, n);
        assert!(Vec3::dot(p, n) >= 0);
        let d = p.length_double();
        assert!(256 <= d && d < 65536);
    }
}

#[test]
fn sqrt_and_clamp_components() {
    let v = Vec3::new(4 * S, 0, S / 4);
    let r = v.sqrt();
    assert_eq!((r.x, r.y, r.z), (2 * S, 0, S / 2));

    let c = Vec3::new(-5, 70000, 30000).clamp(0, S);
    assert_eq!((c.x, c.y, c.z), (0, S, 30000));

    let two = fp_mul(fp_sqrt(2 * S), fp_sqrt(2 * S));
    assert!((two - 2 * S).abs() <= 8);
}
