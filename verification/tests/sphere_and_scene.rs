//! Ray-sphere intersection and closest-hit scene aggregation.

use path_tracer::fixed::{FX_MAX, ONE};
use path_tracer::hittable::{HittableList, Interval};
use path_tracer::material::{Lambertian, Material};
use path_tracer::ray::Ray;
use path_tracer::sphere::Sphere;
use path_tracer::vec3::{Color, Point3, Vec3};

fn gray() -> Material {
    Material::Lambertian(Lambertian::from(Color::from(500_000, 500_000, 500_000)))
}

#[test]
fn a_head_on_ray_hits_at_distance_minus_radius() {
    // The sphere's center is two units away and its radius is one, so
    // the hit parameter is exactly one.
    let s = Sphere::from(Point3::from(0, 0, -2 * ONE), ONE, gray());
    let r = Ray::from(Point3::from(0, 0, 0), Vec3::from(0, 0, -ONE));
    let rec = s.hit(&r, Interval::from(1_000, FX_MAX)).expect("the ray aims at the center");
    assert_eq!(rec.t, ONE);
    assert!(rec.front_face);
    assert_eq!((rec.normal.x(), rec.normal.y(), rec.normal.z()), (0, 0, ONE));
    assert_eq!((rec.p.x(), rec.p.y(), rec.p.z()), (0, 0, -ONE));
}

#[test]
fn a_perpendicular_offset_ray_misses() {
    // The ray runs along the first axis; the center sits two units up
    // the second, beyond the unit radius.
    let s = Sphere::from(Point3::from(0, 2 * ONE, 0), ONE, gray());
    let r = Ray::from(Point3::from(0, 0, 0), Vec3::from(ONE, 0, 0));
    assert!(s.hit(&r, Interval::from(1_000, FX_MAX)).is_none());
}

#[test]
fn a_ray_from_inside_accepts_the_far_root_on_the_back_face() {
    let s = Sphere::from(Point3::from(0, 0, 0), ONE, gray());
    let r = Ray::from(Point3::from(0, 0, 0), Vec3::from(0, 0, -ONE));
    let rec = s.hit(&r, Interval::from(1_000, FX_MAX)).expect("the origin is inside");
    assert_eq!(rec.t, ONE);
    assert!(!rec.front_face);
    // The stored normal opposes the ray, so it points back up the axis.
    assert_eq!((rec.normal.x(), rec.normal.y(), rec.normal.z()), (0, 0, ONE));
}

#[test]
fn hits_outside_the_interval_are_rejected() {
    let s = Sphere::from(Point3::from(0, 0, -2 * ONE), ONE, gray());
    let r = Ray::from(Point3::from(0, 0, 0), Vec3::from(0, 0, -ONE));
    assert!(s.hit(&r, Interval::from(1_000, 500_000)).is_none());
    // With both roots on or outside the window, nothing is accepted.
    assert!(s.hit(&r, Interval::from(ONE, 3 * ONE)).is_none());
    // A boundary near root is excluded, but the far root still counts.
    let far = s.hit(&r, Interval::from(ONE, FX_MAX)).expect("the far root is inside");
    assert_eq!(far.t, 3 * ONE);
}

#[test]
fn the_scene_returns_the_nearer_of_two_overlapping_hits() {
    let near = Sphere::from(Point3::from(0, 0, -2 * ONE), 500_000, gray());
    let far = Sphere::from(Point3::from(0, 0, -3 * ONE), ONE, gray());
    let r = Ray::from(Point3::from(0, 0, 0), Vec3::from(0, 0, -ONE));
    let window = Interval::from(1_000, FX_MAX);

    let mut world = HittableList::new();
    world.add(near);
    world.add(far);
    let rec = world.hit(&r, window).expect("both spheres sit on the ray");
    assert_eq!(rec.t, 1_500_000);

    // Member order never changes the answer.
    let mut reversed = HittableList::new();
    reversed.add(far);
    reversed.add(near);
    let rec2 = reversed.hit(&r, window).expect("both spheres sit on the ray");
    assert_eq!(rec2.t, 1_500_000);
}

#[test]
fn an_empty_scene_reports_no_hit() {
    let world = HittableList::new();
    let r = Ray::from(Point3::from(0, 0, 0), Vec3::from(0, 0, -ONE));
    assert!(world.hit(&r, Interval::universe()).is_none());
}

#[test]
fn a_single_member_scene_reports_its_member_hit() {
    let s = Sphere::from(Point3::from(0, 0, -2 * ONE), ONE, gray());
    let world = HittableList::from(s);
    let r = Ray::from(Point3::from(0, 0, 0), Vec3::from(0, 0, -ONE));
    let rec = world.hit(&r, Interval::from(1_000, FX_MAX)).expect("the member is hit");
    assert_eq!(rec.t, ONE);
}

#[test]
fn an_off_axis_hit_normal_is_near_unit_length() {
    // The ground sphere struck slightly off its pole: the stored normal
    // is within the model's rounding of unit length.
    let ground = Sphere::from(Point3::from(0, -100_500_000, -ONE), 100 * ONE, gray());
    let r = Ray::from(Point3::from(0, 0, 0), Vec3::from(0, -ONE, 0));
    let rec = ground.hit(&r, Interval::from(1_000, FX_MAX)).expect("the ray strikes the ground");
    assert_eq!(
        (rec.normal.x(), rec.normal.y(), rec.normal.z()),
        (0, 999_949, 10_000),
    );
    assert!((rec.normal.length_squared() - ONE).abs() <= 1_500);
    assert!((rec.normal.length() - ONE).abs() <= 751);
}
