//! Material scattering rules and the recursive transport evaluator.

use path_tracer::camera::Camera;
use path_tracer::fixed::ONE;
use path_tracer::hittable::{HitRecord, HittableList};
use path_tracer::material::{Dielectric, Lambertian, Material, Metal};
use path_tracer::ray::Ray;
use path_tracer::sphere::Sphere;
use path_tracer::utils::Rng;
use path_tracer::vec3::{Color, Point3, Vec3};

fn upward_hit() -> HitRecord {
    let mut rec = HitRecord::new();
    rec.p = Point3::from(0, ONE, 0);
    rec.normal = Vec3::from(0, ONE, 0);
    rec.t = ONE;
    rec.front_face = true;
    rec
}

#[test]
fn lambertian_always_scatters_with_its_albedo() {
    let albedo = Color::from(100_000, 200_000, 300_000);
    let m = Lambertian::from(albedo);
    let rec = upward_hit();
    let r_in = Ray::from(Point3::from(0, 2 * ONE, 0), Vec3::from(0, -ONE, 0));
    let mut rng = Rng::from_seed(3);
    for _ in 0..20 {
        let (attenuation, scattered) = m.scatter(&r_in, &rec, &mut rng).expect("diffuse always scatters");
        assert_eq!(
            (attenuation.x(), attenuation.y(), attenuation.z()),
            (100_000, 200_000, 300_000),
        );
        let o = scattered.origin();
        assert_eq!((o.x(), o.y(), o.z()), (0, ONE, 0));
        // The direction is the normal plus a unit sample: never zero.
        assert!(!scattered.direction().near_zero());
    }
}

#[test]
fn metal_mirrors_the_incoming_direction() {
    let albedo = Color::from(800_000, 800_000, 800_000);
    let m = Metal::from(albedo, 0);
    let rec = upward_hit();
    // Incoming along (1, -1, 0): the reflection flips the normal part.
    let r_in = Ray::from(Point3::from(-ONE, 2 * ONE, 0), Vec3::from(ONE, -ONE, 0));
    let (attenuation, scattered) = m.scatter(&r_in, &rec).expect("the reflection leaves the surface");
    assert_eq!((attenuation.x(), attenuation.y(), attenuation.z()), (800_000, 800_000, 800_000));
    let d = scattered.direction();
    assert_eq!((d.x(), d.y(), d.z()), (707_107, 707_107, 0));
}

#[test]
fn metal_absorbs_a_reflection_into_the_surface() {
    let m = Metal::from(Color::from(800_000, 800_000, 800_000), 0);
    let mut rec = upward_hit();
    // A normal pointing away from the reflected direction absorbs it.
    rec.normal = Vec3::from(0, -ONE, 0);
    let r_in = Ray::from(Point3::from(-ONE, 2 * ONE, 0), Vec3::from(ONE, -ONE, 0));
    assert!(m.scatter(&r_in, &rec).is_none());
}

#[test]
fn metal_clamps_its_fuzz_factor_into_the_unit_range() {
    let albedo = Color::from(ONE, ONE, ONE);
    assert_eq!(Metal::from(albedo, 5 * ONE).fuzz, ONE);
    assert_eq!(Metal::from(albedo, -ONE).fuzz, 0);
    assert_eq!(Metal::from(albedo, 300_000).fuzz, 300_000);
}

#[test]
fn a_matched_dielectric_transmits_head_on_whatever_the_draw() {
    let m = Dielectric::from(ONE);
    let rec = upward_hit();
    let r_in = Ray::from(Point3::from(0, 2 * ONE, 0), Vec3::from(0, -ONE, 0));
    let mut rng = Rng::from_seed(9);
    for _ in 0..20 {
        let (attenuation, scattered) = m.scatter(&r_in, &rec, &mut rng).expect("glass always scatters");
        // The attenuation is opaque white and the ray passes straight on.
        assert_eq!((attenuation.x(), attenuation.y(), attenuation.z()), (ONE, ONE, ONE));
        let d = scattered.direction();
        assert_eq!((d.x(), d.y(), d.z()), (0, -ONE, 0));
    }
}

#[test]
fn the_material_enum_dispatches_to_its_variant() {
    let rec = upward_hit();
    let r_in = Ray::from(Point3::from(-ONE, 2 * ONE, 0), Vec3::from(ONE, -ONE, 0));
    let mut rng = Rng::from_seed(11);
    let metal = Material::Metal(Metal::from(Color::from(800_000, 800_000, 800_000), 0));
    let (_, scattered) = metal.scatter(&r_in, &rec, &mut rng).expect("the mirror reflects");
    let d = scattered.direction();
    assert_eq!((d.x(), d.y(), d.z()), (707_107, 707_107, 0));
}

#[test]
fn zero_recursion_depth_yields_black_regardless_of_the_scene() {
    let mut cam = Camera::new();
    cam.initialize();
    let mut world = HittableList::new();
    world.add(Sphere::from(
        Point3::from(0, 0, -2 * ONE),
        ONE,
        Material::Lambertian(Lambertian::from(Color::from(900_000, 100_000, 100_000))),
    ));
    let r = Ray::from(Point3::from(0, 0, 0), Vec3::from(0, 0, -ONE));
    let mut rng = Rng::from_seed(5);
    let c = cam.ray_color(&r, 0, &world, &mut rng);
    assert_eq!((c.x(), c.y(), c.z()), (0, 0, 0));
    let c2 = cam.ray_color(&r, -3, &world, &mut rng);
    assert_eq!((c2.x(), c2.y(), c2.z()), (0, 0, 0));
}

#[test]
fn a_missed_ray_gathers_the_sky_gradient() {
    let cam = Camera::new();
    let world = HittableList::new();
    let mut rng = Rng::from_seed(6);
    // Straight up: the gradient parameter is one, giving pure sky blue.
    let up = Ray::from(Point3::from(0, 0, 0), Vec3::from(0, ONE, 0));
    let c = cam.ray_color(&up, 10, &world, &mut rng);
    assert_eq!((c.x(), c.y(), c.z()), (500_000, 700_000, ONE));
    // Straight down: the parameter is zero, giving pure white.
    let down = Ray::from(Point3::from(0, 0, 0), Vec3::from(0, -ONE, 0));
    let c2 = cam.ray_color(&down, 10, &world, &mut rng);
    assert_eq!((c2.x(), c2.y(), c2.z()), (ONE, ONE, ONE));
}

#[test]
fn a_hit_without_a_material_shows_the_normal_fallback() {
    // A material-less sphere two units down the axis: the hit's normal
    // is the unit axis vector, so the fallback is half of it plus white.
    let cam = Camera::new();
    let mut world = HittableList::new();
    world.add(Sphere {
        center: Point3::from(0, 0, -2 * ONE),
        radius: ONE,
        mat: None,
    });
    let r = Ray::from(Point3::from(0, 0, 0), Vec3::from(0, 0, -ONE));
    let mut rng = Rng::from_seed(7);
    let c = cam.ray_color(&r, 10, &world, &mut rng);
    assert_eq!((c.x(), c.y(), c.z()), (500_000, 500_000, ONE));
}

#[test]
fn the_ground_scene_without_a_material_shows_a_near_white_band() {
    // The classic ground sphere with no material attached: a ray aimed
    // straight down strikes it and gathers the normal-visualization
    // fallback, a near-white gray-green.
    let cam = Camera::new();
    let mut world = HittableList::new();
    world.add(Sphere {
        center: Point3::from(0, -100_500_000, -ONE),
        radius: 100 * ONE,
        mat: None,
    });
    let r = Ray::from(Point3::from(0, 0, 0), Vec3::from(0, -ONE, 0));
    let mut rng = Rng::from_seed(15);
    let c = cam.ray_color(&r, 5, &world, &mut rng);
    assert_eq!((c.x(), c.y(), c.z()), (500_000, 999_974, 505_000));
}

#[test]
fn transport_through_a_mirror_sees_the_sky_with_tinted_energy() {
    // A ray reflecting off perfect metal keeps bouncing until it leaves
    // the scene, so the result is the albedo-tinted sky.
    let cam = Camera::new();
    let mut world = HittableList::new();
    world.add(Sphere::from(
        Point3::from(0, -1000 * ONE, 0),
        999 * ONE,
        Material::Metal(Metal::from(Color::from(ONE, ONE, ONE), 0)),
    ));
    let r = Ray::from(Point3::from(0, 2 * ONE, 0), Vec3::from(0, -ONE, 0));
    let mut rng = Rng::from_seed(8);
    let c = cam.ray_color(&r, 10, &world, &mut rng);
    // Hits the top of the mirror sphere head on and bounces straight up
    // into pure sky blue, tinted by the white albedo.
    assert_eq!((c.x(), c.y(), c.z()), (500_000, 700_000, ONE));
}
