//! The camera derivation and an end-to-end low-resolution render.

use path_tracer::camera::Camera;
use path_tracer::fixed::{fxdiv, ONE};
use path_tracer::hittable::HittableList;
use path_tracer::material::{Lambertian, Material};
use path_tracer::sphere::Sphere;
use path_tracer::utils::Rng;
use path_tracer::vec3::{Color, Point3, Vec3};

#[test]
fn the_default_camera_derives_a_matching_image_height() {
    let mut cam = Camera::new();
    cam.initialize();
    assert_eq!(cam.image_width, 400);
    assert_eq!(cam.image_height, 225);
    // Without a defocus angle the disk basis vanishes.
    assert_eq!(cam.defocus_angle, 0);
    let du = cam.defocus_disk_u;
    let dv = cam.defocus_disk_v;
    assert_eq!((du.x(), du.y(), du.z()), (0, 0, 0));
    assert_eq!((dv.x(), dv.y(), dv.z()), (0, 0, 0));
}

#[test]
fn the_image_height_never_drops_below_one() {
    let mut cam = Camera::new();
    cam.image_width = 1;
    cam.aspect_ratio = 100 * ONE;
    cam.initialize();
    assert_eq!(cam.image_height, 1);
}

fn ground_scene() -> HittableList {
    let mut world = HittableList::new();
    world.add(Sphere::from(
        Point3::from(0, -100_500_000, -ONE),
        100 * ONE,
        Material::Lambertian(Lambertian::from(Color::from(500_000, 500_000, 500_000))),
    ));
    world
}

fn tiny_camera() -> Camera {
    let mut cam = Camera::new();
    cam.aspect_ratio = fxdiv(4 * ONE, 3 * ONE);
    cam.image_width = 4;
    cam.samples_per_pixel = 1;
    cam.max_depth = 5;
    cam.vfov = 90 * ONE;
    cam.lookfrom = Point3::from(0, 0, 0);
    cam.lookat = Point3::from(0, 0, -ONE);
    cam.vup = Vec3::from(0, ONE, 0);
    cam.defocus_angle = 0;
    cam.focus_dist = ONE;
    cam
}

#[test]
fn a_tiny_render_emits_a_well_formed_image() {
    let world = ground_scene();
    let mut cam = tiny_camera();
    let mut rng = Rng::from_seed(1);
    let out = cam.render(&world, &mut rng);
    let text = String::from_utf8(out).expect("the image is plain text");
    let lines: Vec<&str> = text.split('\n').collect();
    assert_eq!(lines[0], "P3");
    assert_eq!(lines[1], "4 3");
    assert_eq!(lines[2], "255");
    // Twelve pixel records, each of three channels in range, then the
    // empty remainder after the final newline.
    assert_eq!(lines.len(), 3 + 12 + 1);
    assert_eq!(lines[15], "");
    for row in 0..3 {
        for col in 0..4 {
            let line = lines[3 + row * 4 + col];
            let fields: Vec<&str> = line.split(' ').collect();
            assert_eq!(fields.len(), 4, "record: {line:?}");
            assert_eq!(fields[3], "");
            let channels: Vec<i64> = fields[..3]
                .iter()
                .map(|f| f.parse().expect("a decimal channel"))
                .collect();
            for c in &channels {
                assert!(0 <= *c && *c <= 255);
            }
            if row == 0 {
                // The top row looks up into the sky: the gradient runs
                // from white toward blue, so red never exceeds green,
                // nor green blue.
                assert!(channels[0] <= channels[1] && channels[1] <= channels[2], "sky: {line:?}");
            }
        }
    }
}

#[test]
fn renders_with_the_same_seed_are_identical() {
    let world = ground_scene();
    let mut cam1 = tiny_camera();
    let mut rng1 = Rng::from_seed(77);
    let out1 = cam1.render(&world, &mut rng1);
    let mut cam2 = tiny_camera();
    let mut rng2 = Rng::from_seed(77);
    let out2 = cam2.render(&world, &mut rng2);
    assert_eq!(out1, out2);
}

#[test]
fn the_derived_camera_frame_is_nearly_orthonormal() {
    let mut cam = Camera::new();
    cam.lookfrom = Point3::from(10 * ONE, 10 * ONE, ONE);
    cam.lookat = Point3::from(0, 0, -ONE);
    cam.vup = Vec3::from(0, ONE, 0);
    cam.initialize();
    assert!((cam.w.length() - ONE).abs() <= 167);
    assert!((cam.u.length() - ONE).abs() <= 167);
    assert!(path_tracer::vec3::dot(&cam.v, &cam.w).abs() <= 6_003);
    assert!(path_tracer::vec3::dot(&cam.v, &cam.u).abs() <= 6_003);
}
