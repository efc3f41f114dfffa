//! A Monte Carlo path tracer over a fixed-point scalar model.
//!
//! Scalars are 64-bit signed integers counting millionths of a unit, so
//! every arithmetic step has an exact mathematical description.  The
//! renderer casts per-pixel sample rays, intersects them with a scene of
//! spheres, follows material scattering recursively, and encodes the
//! accumulated colors as a plain-text pixel stream.

pub mod camera;
pub mod fixed;
pub mod hittable;
pub mod material;
pub mod ray;
pub mod sphere;
pub mod utils;
pub mod vec3;

use vstd::prelude::*;

use crate::camera::{spec_initialize, spec_rendered_image, spec_valid_ppm, Camera};
use crate::fixed::{fxadd, fxdiv, fxmul, lemma_tdiv_eval, ONE};
use crate::hittable::{lemma_world_wf_push, spec_world_wf, HittableList};
use crate::material::{Dielectric, Lambertian, Material, Metal};
use crate::sphere::Sphere;
use crate::utils::{random_double, random_double_range, Rng};
use crate::vec3::{Color, Point3, Vec3, HALF};

verus! {

/// The showcase scene's large ground sphere.
pub open spec fn spec_ground_sphere() -> Sphere {
    Sphere {
        center: Vec3 { x: 0i64, y: -1_000_000_000i64, z: 0i64 },
        radius: 1_000_000_000i64,
        mat: Some(
            Material::Lambertian(
                Lambertian { albedo: Vec3 { x: 500_000i64, y: 500_000i64, z: 500_000i64 } },
            ),
        ),
    }
}

/// The showcase scene's large glass sphere.
pub open spec fn spec_glass_sphere() -> Sphere {
    Sphere {
        center: Vec3 { x: 0i64, y: 1_000_000i64, z: 0i64 },
        radius: 1_000_000i64,
        mat: Some(Material::Dielectric(Dielectric { ir: 1_900_000i64 })),
    }
}

/// The showcase scene's large diffuse sphere.
pub open spec fn spec_diffuse_sphere() -> Sphere {
    Sphere {
        center: Vec3 { x: -4_000_000i64, y: 1_000_000i64, z: 0i64 },
        radius: 1_000_000i64,
        mat: Some(
            Material::Lambertian(
                Lambertian { albedo: Vec3 { x: 400_000i64, y: 200_000i64, z: 100_000i64 } },
            ),
        ),
    }
}

/// The showcase scene's large metal sphere.
pub open spec fn spec_metal_sphere() -> Sphere {
    Sphere {
        center: Vec3 { x: 4_000_000i64, y: 1_000_000i64, z: 0i64 },
        radius: 1_000_000i64,
        mat: Some(
            Material::Metal(
                Metal {
                    albedo: Vec3 { x: 700_000i64, y: 600_000i64, z: 500_000i64 },
                    fuzz: 0i64,
                },
            ),
        ),
    }
}

/// The showcase scene's camera, as configured before the render derives
/// its viewport (the trailing fields hold the defaults).
pub open spec fn spec_final_scene_camera() -> Camera {
    Camera {
        aspect_ratio: 1_777_777i64,
        image_width: 1200i32,
        samples_per_pixel: 1000i32,
        max_depth: 50i32,
        vfov: 20_000_000i64,
        lookfrom: Vec3 { x: 15_000_000i64, y: 2_000_000i64, z: 6_000_000i64 },
        lookat: Vec3 { x: 0i64, y: 0i64, z: 0i64 },
        vup: Vec3 { x: 0i64, y: 1_000_000i64, z: 0i64 },
        defocus_angle: 600_000i64,
        focus_dist: 10_000_000i64,
        image_height: 225i32,
        pixel00_loc: Vec3 { x: 0i64, y: 0i64, z: 0i64 },
        pixel_delta_u: Vec3 { x: 0i64, y: 0i64, z: 0i64 },
        pixel_delta_v: Vec3 { x: 0i64, y: 0i64, z: 0i64 },
        center: Vec3 { x: 0i64, y: 0i64, z: 0i64 },
        defocus_disk_u: Vec3 { x: 0i64, y: 0i64, z: 0i64 },
        defocus_disk_v: Vec3 { x: 0i64, y: 0i64, z: 0i64 },
        u: Vec3 { x: 0i64, y: 0i64, z: 0i64 },
        v: Vec3 { x: 0i64, y: 0i64, z: 0i64 },
        w: Vec3 { x: 0i64, y: 0i64, z: 0i64 },
    }
}

/// Render the showcase scene: the ground sphere, a field of small
/// randomly placed and randomly shaded spheres, and three large ones,
/// seen from a distance with a slight defocus blur.  The result is a
/// full rendered image of that scene: a well-formed world holding the
/// four pinned spheres, rendered pixel by pixel from accumulated
/// transport samples under the showcase camera.
pub fn final_scene() -> (r: Vec<u8>)
    ensures
        spec_valid_ppm(r@, 1200, 675),
        exists|objects: Seq<Sphere>|
            {
                &&& spec_world_wf(objects)
                &&& objects.len() >= 4
                &&& objects[0] == spec_ground_sphere()
                &&& objects[objects.len() - 3] == spec_glass_sphere()
                &&& objects[objects.len() - 2] == spec_diffuse_sphere()
                &&& objects[objects.len() - 1] == spec_metal_sphere()
                &&& #[trigger] spec_rendered_image(
                    r@,
                    spec_initialize(spec_final_scene_camera()),
                    objects,
                )
            },
{
    let mut rng = Rng::from_entropy();
    let mut world: HittableList = HittableList::new();

    let ground_material = Material::Lambertian(Lambertian::from(Color::from(HALF, HALF, HALF)));
    world.add(Sphere::from(Point3::from(0, -1000 * ONE, 0), 1000 * ONE, ground_material));
    proof {
        assert(spec_world_wf(Seq::<Sphere>::empty()));
        lemma_world_wf_push(Seq::<Sphere>::empty(), spec_ground_sphere());
        assert(world.objects@ =~= Seq::<Sphere>::empty().push(spec_ground_sphere()));
    }

    let mut a: i32 = -11;
    while a < 11
        invariant
            spec_world_wf(world.objects@),
            world.objects@.len() >= 1,
            world.objects@[0] == spec_ground_sphere(),
        decreases 11 - a,
    {
        let mut b: i32 = -11;
        while b < 11
            invariant
                spec_world_wf(world.objects@),
                world.objects@.len() >= 1,
                world.objects@[0] == spec_ground_sphere(),
            decreases 11 - b,
        {
            let choose_mat = random_double(&mut rng);
            let center = Point3::from(
                fxadd((a as i64) * ONE, fxmul(900_000, random_double(&mut rng))),
                200_000,
                fxadd((b as i64) * ONE, fxmul(900_000, random_double(&mut rng))),
            );
            if center.sub(&Point3::from(4 * ONE, 200_000, 0)).length() > 900_000 {
                if choose_mat < 800_000 {
                    // Diffuse
                    let tint1 = Color::random(&mut rng);
                    let tint2 = Color::random(&mut rng);
                    let albedo = tint1.mul(&tint2);
                    let sphere_material = Material::Lambertian(Lambertian::from(albedo));
                    let s = Sphere::from(center, 200_000, sphere_material);
                    proof {
                        crate::fixed::lemma_fx_mul_unit_range(tint1.x as int, tint2.x as int);
                        crate::fixed::lemma_fx_mul_unit_range(tint1.y as int, tint2.y as int);
                        crate::fixed::lemma_fx_mul_unit_range(tint1.z as int, tint2.z as int);
                        lemma_world_wf_push(world.objects@, s);
                    }
                    world.add(s);
                } else if choose_mat < 950_000 {
                    // Metal
                    let albedo = Color::random_in(&mut rng, HALF, ONE);
                    let fuzz = random_double_range(&mut rng, 0, HALF);
                    let sphere_material = Material::Metal(Metal::from(albedo, fuzz));
                    let s = Sphere::from(center, 200_000, sphere_material);
                    proof {
                        lemma_world_wf_push(world.objects@, s);
                    }
                    world.add(s);
                }
            }
            b = b + 1;
        }
        a = a + 1;
    }

    let material1 = Material::Dielectric(Dielectric::from(1_900_000));
    let sphere1 = Sphere::from(Point3::from(0, ONE, 0), ONE, material1);
    proof {
        assert(sphere1 == spec_glass_sphere());
        lemma_world_wf_push(world.objects@, sphere1);
    }
    world.add(sphere1);

    let material2 = Material::Lambertian(Lambertian::from(Color::from(400_000, 200_000, 100_000)));
    let sphere2 = Sphere::from(Point3::from(-4 * ONE, ONE, 0), ONE, material2);
    proof {
        assert(sphere2 == spec_diffuse_sphere());
        lemma_world_wf_push(world.objects@, sphere2);
    }
    world.add(sphere2);

    let material3 = Material::Metal(Metal::from(Color::from(700_000, 600_000, HALF), 0));
    let sphere3 = Sphere::from(Point3::from(4 * ONE, ONE, 0), ONE, material3);
    proof {
        assert(sphere3 == spec_metal_sphere());
        lemma_world_wf_push(world.objects@, sphere3);
    }
    world.add(sphere3);

    let mut cam = Camera::new();

    cam.aspect_ratio = fxdiv(16 * ONE, 9 * ONE);
    cam.image_width = 1200;
    cam.samples_per_pixel = 1000;
    cam.max_depth = 50;

    cam.vfov = 20 * ONE;
    cam.lookfrom = Point3::from(15 * ONE, 2 * ONE, 6 * ONE);
    cam.lookat = Point3::from(0, 0, 0);
    cam.vup = Vec3::from(0, ONE, 0);

    cam.defocus_angle = 600_000;
    cam.focus_dist = 10 * ONE;

    proof {
        lemma_tdiv_eval(16_000_000_000_000, 9_000_000, 1_777_777);
        assert(cam == spec_final_scene_camera());
    }
    let ghost objects = world.objects@;
    let out = cam.render(&world, &mut rng);
    proof {
        lemma_tdiv_eval(1_200_000_000_000_000, 1_777_777, 675_000_295);
        lemma_tdiv_eval(675_000_295, 1_000_000, 675);
        assert(spec_rendered_image(out@, spec_initialize(spec_final_scene_camera()), objects));
    }
    out
}

/// The four-sphere scene, member by member: the diffuse center sphere,
/// the ground sphere, the metal sphere, and the hollow glass sphere
/// (its radius negative).
pub open spec fn spec_run_world() -> Seq<Sphere> {
    seq![
        Sphere {
            center: Vec3 { x: 0i64, y: 0i64, z: -1_000_000i64 },
            radius: 500_000i64,
            mat: Some(
                Material::Lambertian(
                    Lambertian { albedo: Vec3 { x: 100_000i64, y: 200_000i64, z: 500_000i64 } },
                ),
            ),
        },
        Sphere {
            center: Vec3 { x: 0i64, y: -100_500_000i64, z: -1_000_000i64 },
            radius: 100_000_000i64,
            mat: Some(
                Material::Lambertian(
                    Lambertian { albedo: Vec3 { x: 800_000i64, y: 800_000i64, z: 0i64 } },
                ),
            ),
        },
        Sphere {
            center: Vec3 { x: -1_000_000i64, y: 0i64, z: -1_000_000i64 },
            radius: 500_000i64,
            mat: Some(
                Material::Metal(
                    Metal {
                        albedo: Vec3 { x: 800_000i64, y: 600_000i64, z: 200_000i64 },
                        fuzz: 1_000_000i64,
                    },
                ),
            ),
        },
        Sphere {
            center: Vec3 { x: 1_000_000i64, y: 0i64, z: -1_000_000i64 },
            radius: -500_000i64,
            mat: Some(Material::Dielectric(Dielectric { ir: 1_500_000i64 })),
        },
    ]
}

/// The four-sphere scene's camera, as configured before the render
/// derives its viewport (the trailing fields hold the defaults).
pub open spec fn spec_run_camera() -> Camera {
    Camera {
        aspect_ratio: 1_777_777i64,
        image_width: 400i32,
        samples_per_pixel: 20i32,
        max_depth: 50i32,
        vfov: 20_000_000i64,
        lookfrom: Vec3 { x: 10_000_000i64, y: 10_000_000i64, z: 1_000_000i64 },
        lookat: Vec3 { x: 0i64, y: 0i64, z: -1_000_000i64 },
        vup: Vec3 { x: 0i64, y: 1_000_000i64, z: 0i64 },
        defocus_angle: 10_000_000i64,
        focus_dist: 3_400_000i64,
        image_height: 225i32,
        pixel00_loc: Vec3 { x: 0i64, y: 0i64, z: 0i64 },
        pixel_delta_u: Vec3 { x: 0i64, y: 0i64, z: 0i64 },
        pixel_delta_v: Vec3 { x: 0i64, y: 0i64, z: 0i64 },
        center: Vec3 { x: 0i64, y: 0i64, z: 0i64 },
        defocus_disk_u: Vec3 { x: 0i64, y: 0i64, z: 0i64 },
        defocus_disk_v: Vec3 { x: 0i64, y: 0i64, z: 0i64 },
        u: Vec3 { x: 0i64, y: 0i64, z: 0i64 },
        v: Vec3 { x: 0i64, y: 0i64, z: 0i64 },
        w: Vec3 { x: 0i64, y: 0i64, z: 0i64 },
    }
}

/// Render the four-sphere scene from a raised viewpoint with a wide
/// defocus angle.  The result is a full rendered image of exactly that
/// scene under exactly that camera: one record per pixel, each encoding
/// a color accumulated from the configured transport samples.
pub fn run() -> (r: Vec<u8>)
    ensures
        spec_valid_ppm(r@, 400, 225),
        spec_rendered_image(r@, spec_initialize(spec_run_camera()), spec_run_world()),
{
    let mut rng = Rng::from_entropy();

    // Materials
    let material_ground = Material::Lambertian(Lambertian::from(Color::from(800_000, 800_000, 0)));
    let material_center = Material::Lambertian(
        Lambertian::from(Color::from(100_000, 200_000, HALF)),
    );

    let material_right = Material::Dielectric(Dielectric::from(1_500_000));
    let material_left = Material::Metal(Metal::from(Color::from(800_000, 600_000, 200_000), ONE));

    // World
    let mut world: HittableList = HittableList::new();
    world.add(Sphere::from(Point3::from(0, 0, -ONE), HALF, material_center));
    world.add(Sphere::from(Point3::from(0, -100_500_000, -ONE), 100 * ONE, material_ground));

    world.add(Sphere::from(Point3::from(-ONE, 0, -ONE), HALF, material_left));
    world.add(Sphere::from(Point3::from(ONE, 0, -ONE), -HALF, material_right));
    proof {
        assert(world.objects@ =~= spec_run_world());
    }

    // Camera
    let mut cam = Camera::new();
    cam.aspect_ratio = fxdiv(16 * ONE, 9 * ONE);
    cam.samples_per_pixel = 20;
    cam.max_depth = 50;

    cam.vfov = 20 * ONE;
    cam.lookfrom = Point3::from(10 * ONE, 10 * ONE, ONE);
    cam.lookat = Point3::from(0, 0, -ONE);
    cam.vup = Vec3::from(0, ONE, 0);

    cam.defocus_angle = 10 * ONE;
    cam.focus_dist = 3_400_000;

    proof {
        lemma_tdiv_eval(16_000_000_000_000, 9_000_000, 1_777_777);
        assert(cam == spec_run_camera());
    }
    let out = cam.render(&world, &mut rng);
    proof {
        lemma_tdiv_eval(400_000_000_000_000, 1_777_777, 225_000_098);
        lemma_tdiv_eval(225_000_098, 1_000_000, 225);
    }
    out
}

} // verus!
