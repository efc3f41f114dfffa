//! Vector arithmetic, products, normalization, and reflection.

use path_tracer::fixed::ONE;
use path_tracer::utils::Rng;
use path_tracer::ray::Ray;
use path_tracer::vec3::{
    cross, dot, random_in_unit_disk, random_in_unit_sphere, random_on_hemisphere,
    random_unit_vector, reflect, refract, unit_vector, Vec3,
};

#[test]
fn componentwise_arithmetic_is_exact() {
    let u = Vec3::from(ONE, 2 * ONE, 3 * ONE);
    let v = Vec3::from(4 * ONE, 5 * ONE, 6 * ONE);
    let s = u.add(&v);
    assert_eq!((s.x(), s.y(), s.z()), (5 * ONE, 7 * ONE, 9 * ONE));
    let d = v.sub(&u);
    assert_eq!((d.x(), d.y(), d.z()), (3 * ONE, 3 * ONE, 3 * ONE));
    let n = u.neg();
    assert_eq!((n.x(), n.y(), n.z()), (-ONE, -2 * ONE, -3 * ONE));
    let m = u.mul(&v);
    assert_eq!((m.x(), m.y(), m.z()), (4 * ONE, 10 * ONE, 18 * ONE));
    let sc = u.scale(500_000);
    assert_eq!((sc.x(), sc.y(), sc.z()), (500_000, ONE, 1_500_000));
    let dv = u.div(2 * ONE);
    assert_eq!((dv.x(), dv.y(), dv.z()), (500_000, ONE, 1_500_000));
}

#[test]
fn dot_and_cross_products_are_exact_on_whole_units() {
    let u = Vec3::from(ONE, 2 * ONE, 3 * ONE);
    let v = Vec3::from(4 * ONE, 5 * ONE, 6 * ONE);
    assert_eq!(dot(&u, &v), 32 * ONE);
    let e1 = Vec3::from(ONE, 0, 0);
    let e2 = Vec3::from(0, ONE, 0);
    let c = cross(&e1, &e2);
    assert_eq!((c.x(), c.y(), c.z()), (0, 0, ONE));
}

#[test]
fn length_and_normalization_follow_the_euclidean_formulas() {
    let v = Vec3::from(3 * ONE, 4 * ONE, 0);
    assert_eq!(v.length_squared(), 25 * ONE);
    assert_eq!(v.length(), 5 * ONE);
    let u = unit_vector(v);
    assert_eq!((u.x(), u.y(), u.z()), (600_000, 800_000, 0));
    assert_eq!(u.length(), ONE);
}

#[test]
fn a_unit_vector_normalizes_to_itself() {
    let v = Vec3::from(0, 0, ONE);
    let u = unit_vector(v);
    assert_eq!((u.x(), u.y(), u.z()), (0, 0, ONE));
    assert_eq!(u.length(), ONE);
}

#[test]
fn near_zero_accepts_only_the_zero_vector() {
    assert!(Vec3::new().near_zero());
    assert!(!Vec3::from(1, 0, 0).near_zero());
    assert!(!Vec3::from(0, -1, 0).near_zero());
}

#[test]
fn reflection_reverses_the_normal_component() {
    let v = Vec3::from(ONE, -ONE, 0);
    let n = Vec3::from(0, ONE, 0);
    let r = reflect(&v, &n);
    assert_eq!((r.x(), r.y(), r.z()), (ONE, ONE, 0));
    assert_eq!(dot(&r, &n), -dot(&v, &n));
}

#[test]
fn cross_products_stay_orthogonal_to_both_factors() {
    let u = Vec3::from(1_500_000, 2_250_000, -500_000);
    let v = Vec3::from(300_000, -1_200_000, 2 * ONE);
    let c = cross(&u, &v);
    assert!(dot(&c, &u).abs() <= 6_003);
    assert!(dot(&c, &v).abs() <= 6_003);
}

#[test]
fn refraction_passes_straight_through_a_matched_medium() {
    let uv = Vec3::from(0, -ONE, 0);
    let n = Vec3::from(0, ONE, 0);
    let r = refract(&uv, &n, ONE);
    assert_eq!((r.x(), r.y(), r.z()), (0, -ONE, 0));
}

#[test]
fn rejection_samplers_respect_their_bounds() {
    let mut rng = Rng::from_seed(42);
    for _ in 0..50 {
        let p = random_in_unit_sphere(&mut rng);
        assert!(p.length_squared() < ONE);
        // Samples below the resolution floor are rejected too.
        assert!(p.length_squared() >= 10_000);
        let q = random_in_unit_disk(&mut rng);
        assert!(q.length_squared() < ONE);
        assert_eq!(q.z(), 0);
        let u = random_unit_vector(&mut rng);
        assert!((u.length() - ONE).abs() <= 167, "length {}", u.length());
    }
}

#[test]
fn hemisphere_samples_never_oppose_the_normal() {
    let mut rng = Rng::from_seed(13);
    let n = Vec3::from(0, ONE, 0);
    for _ in 0..50 {
        let p = random_on_hemisphere(&mut rng, &n);
        assert!(dot(&p, &n) >= 0);
        assert!(p.length_squared() < ONE);
    }
}

#[test]
fn a_ray_evaluates_its_position_along_the_parameter() {
    let r = Ray::from(Vec3::from(ONE, 0, 0), Vec3::from(0, ONE, 0));
    let p = r.at(2 * ONE);
    assert_eq!((p.x(), p.y(), p.z()), (ONE, 2 * ONE, 0));
    let o = r.origin();
    let d = r.direction();
    assert_eq!((o.x(), o.y(), o.z()), (ONE, 0, 0));
    assert_eq!((d.x(), d.y(), d.z()), (0, ONE, 0));
}

#[test]
fn normalization_lands_within_a_few_millionths_of_unit_length() {
    let v = Vec3::from(1_500_000, 2_000_000, -2_500_000);
    let u = unit_vector(v);
    assert!((u.length_squared() - ONE).abs() <= 17);
    assert!((u.length() - ONE).abs() <= 9);
}

#[test]
fn reflection_nearly_negates_the_normal_component_off_axis() {
    // A unit normal not aligned with any axis: the three-four-five
    // triangle's direction has squared length exactly one.
    let n = Vec3::from(600_000, 800_000, 0);
    assert_eq!(n.length_squared(), ONE);
    let v = Vec3::from(123 * ONE, -456 * ONE, 789 * ONE);
    let r = reflect(&v, &n);
    assert!((dot(&r, &n) + dot(&v, &n)).abs() <= 19_900);
}

#[test]
fn refraction_exits_on_the_far_side() {
    // A slanted unit direction entering glass: the refraction bends
    // toward the surface but never rises back above it.
    let uv = unit_vector(Vec3::from(ONE, -ONE, 0));
    let n = Vec3::from(0, ONE, 0);
    let r = refract(&uv, &n, 1_500_000);
    assert_eq!((r.x(), r.y(), r.z()), (1_060_660, -353_551, 0));
    assert!(dot(&r, &n) <= 150);
}
