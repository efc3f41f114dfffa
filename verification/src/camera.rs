//! The camera: viewport derivation, per-pixel sampling, recursive light
//! transport, and the render loop.

use vstd::prelude::*;

use crate::fixed::{
    fx_div, fx_mul, fx_neg, fx_tan, fxadd, fxdiv, fxmul, fxneg, fxsub, fxtan, fxtrunc, tdiv,
    FX_MAX, ONE,
};
use crate::hittable::{spec_sphere_wf, spec_world_wf, HitRecord, HittableList, Interval};
use crate::ray::Ray;
use crate::material::spec_scatter_ok;
use crate::sphere::{spec_sphere_hit, Sphere};
use crate::utils::{degrees_to_radians, random_double, spec_degrees_to_radians, Rng};
use crate::fixed::abs_int;
use crate::vec3::{
    cross, push_dec, random_in_unit_disk, spec_add, spec_color_record, spec_color_wf, spec_cross,
    spec_dec, spec_div, spec_len_sq, spec_mul, spec_neg, spec_scale, spec_sub, spec_unit,
    unit_vector, write_color, Color, Point3, Vec3, HALF, TWO,
};

verus! {

/// The lower end of the transport hit window: a small offset excluding
/// self-intersections at a scattered ray's origin.
pub const SHADOW_ACNE_EPS: i64 = 1_000;

/// The camera: public configuration, and per-render state derived from
/// it when a render starts (invalid before that).
pub struct Camera {
    pub aspect_ratio: i64,
    pub image_width: i32,
    pub samples_per_pixel: i32,
    pub max_depth: i32,
    pub vfov: i64,
    pub lookfrom: Point3,
    pub lookat: Point3,
    pub vup: Vec3,
    pub defocus_angle: i64,
    pub focus_dist: i64,
    pub image_height: i32,
    pub pixel00_loc: Point3,
    pub pixel_delta_u: Vec3,
    pub pixel_delta_v: Vec3,
    pub center: Point3,
    pub defocus_disk_u: Vec3,
    pub defocus_disk_v: Vec3,
    pub u: Vec3,
    pub v: Vec3,
    pub w: Vec3,
}

/// The derived image height: the width over the aspect ratio, truncated
/// to a whole number, capped at the width type's top, and at least one.
pub open spec fn spec_image_height(c: Camera) -> int {
    let q = tdiv(fx_div(c.image_width as int * (ONE as int), c.aspect_ratio as int), ONE as int);
    let capped = if q > 0x7fff_ffff {
        0x7fff_ffff
    } else {
        q
    };
    if capped < 1 {
        1
    } else {
        capped
    }
}

/// Everything `initialize` derives from the configuration: image
/// height, the orthonormal camera frame, the viewport's pixel grid, and
/// the defocus disk basis.
pub open spec fn spec_initialize(c: Camera) -> Camera {
    let image_height = spec_image_height(c);
    let center = c.lookfrom;
    let theta = spec_degrees_to_radians(c.vfov as int);
    let h = fx_tan(fx_div(theta, TWO as int));
    let viewport_height = fx_mul(fx_mul(TWO as int, h), c.focus_dist as int);
    let viewport_width = fx_mul(
        viewport_height,
        fx_div(c.image_width as int * (ONE as int), image_height * (ONE as int)),
    );
    let w = spec_unit(spec_sub(c.lookfrom, c.lookat));
    let u = spec_unit(spec_cross(w, c.vup));
    let v = spec_cross(w, u);
    let viewport_u = spec_scale(u, viewport_width);
    let viewport_v = spec_scale(spec_neg(v), fx_neg(viewport_height));
    let pixel_delta_u = spec_div(viewport_u, c.image_width as int * (ONE as int));
    let pixel_delta_v = spec_div(viewport_v, image_height * (ONE as int));
    let viewport_upper_left = spec_sub(
        spec_sub(spec_sub(center, spec_scale(w, c.focus_dist as int)), spec_div(viewport_u, TWO as int)),
        spec_div(viewport_v, TWO as int),
    );
    let pixel00_loc = spec_add(
        viewport_upper_left,
        spec_scale(spec_add(pixel_delta_u, pixel_delta_v), HALF as int),
    );
    let defocus_radius = fx_mul(
        c.focus_dist as int,
        fx_tan(spec_degrees_to_radians(fx_div(c.defocus_angle as int, TWO as int))),
    );
    let defocus_disk_u = spec_scale(u, defocus_radius);
    let defocus_disk_v = spec_scale(v, defocus_radius);
    Camera {
        image_height: image_height as i32,
        pixel00_loc,
        pixel_delta_u,
        pixel_delta_v,
        center,
        defocus_disk_u,
        defocus_disk_v,
        u,
        v,
        w,
        ..c
    }
}

/// The jitter offset within one pixel cell, from two fractions.
pub open spec fn spec_pixel_sample_square(c: Camera, px: int, py: int) -> Vec3 {
    spec_add(spec_scale(c.pixel_delta_u, px), spec_scale(c.pixel_delta_v, py))
}

/// A ray origin on the defocus disk, from a unit-disk point.
pub open spec fn spec_defocus_disk_sample(c: Camera, p: Vec3) -> Point3 {
    spec_add(
        spec_add(c.center, spec_scale(c.defocus_disk_u, p.x as int)),
        spec_scale(c.defocus_disk_v, p.y as int),
    )
}

/// The sample ray for pixel (i, j), given the jitter fractions and the
/// defocus-disk point the camera drew.
pub open spec fn spec_get_ray(c: Camera, i: int, j: int, px: int, py: int, p: Vec3) -> Ray {
    let pixel_center = spec_add(
        spec_add(c.pixel00_loc, spec_scale(c.pixel_delta_u, i * (ONE as int))),
        spec_scale(c.pixel_delta_v, j * (ONE as int)),
    );
    let pixel_sample = spec_add(pixel_center, spec_pixel_sample_square(c, px, py));
    let ray_origin = if c.defocus_angle <= 0 {
        c.center
    } else {
        spec_defocus_disk_sample(c, p)
    };
    Ray { orig: ray_origin, dir: spec_sub(pixel_sample, ray_origin) }
}

/// The sky gradient's blend parameter: half of one plus the unit
/// direction's height, pulled into [0, 1].  For a genuine unit
/// direction the pull never acts; it only tames directions below the
/// scale's resolution, whose normalization degenerates.
pub open spec fn spec_sky_blend(dir: Vec3) -> int {
    let unit_direction = spec_unit(dir);
    let raw = fx_mul(HALF as int, crate::fixed::fx_add(unit_direction.y as int, ONE as int));
    if raw < 0 {
        0
    } else if raw > ONE as int {
        ONE as int
    } else {
        raw
    }
}

/// The sky gradient, the scene's only light: white blended toward sky
/// blue by the unit direction's height.
pub open spec fn spec_sky_color(dir: Vec3) -> Color {
    let a = spec_sky_blend(dir);
    spec_add(
        spec_scale(Vec3 { x: ONE, y: ONE, z: ONE }, crate::fixed::fx_sub(ONE as int, a)),
        spec_scale(Vec3 { x: HALF, y: 700_000i64, z: ONE }, a),
    )
}

/// The sky gradient is a well-formed color, whatever the direction.
pub proof fn lemma_sky_color_wf(dir: Vec3)
    ensures
        spec_color_wf(spec_sky_color(dir)),
{
    let a = spec_sky_blend(dir);
    assert(0 <= a <= ONE as int);
    crate::fixed::lemma_fx_mul_one(ONE as int - a);
    crate::fixed::lemma_fx_mul_one(a);
    // Scaling the blend by a factor at most one keeps it at most itself.
    assert(abs_int(1_000_000 * a) == 1_000_000 * a && 500_000 * a <= 1_000_000 * a && 700_000 * a
        <= 1_000_000 * a && 0 <= 500_000 * a && 0 <= 700_000 * a);
    vstd::arithmetic::div_mod::lemma_div_multiples_vanish(a, 1_000_000);
    crate::fixed::lemma_tdiv_monotone(500_000 * a, 1_000_000 * a, 1_000_000);
    crate::fixed::lemma_tdiv_monotone(700_000 * a, 1_000_000 * a, 1_000_000);
    crate::fixed::lemma_tdiv_nonneg(500_000 * a, 1_000_000);
    crate::fixed::lemma_tdiv_nonneg(700_000 * a, 1_000_000);
}

/// Whether no scene member blocks the ray inside the transport window.
pub open spec fn spec_ray_misses(objects: Seq<Sphere>, ray: Ray) -> bool {
    forall|k: int|
        0 <= k < objects.len() ==> spec_sphere_hit(
            objects[k],
            ray,
            Interval { min: SHADOW_ACNE_EPS, max: FX_MAX },
        ) is None
}

/// Whether `rec` is a closest hit of the ray in the transport window:
/// it is some member's own hit, and no member hits nearer.
pub open spec fn spec_closest_hit(objects: Seq<Sphere>, ray: Ray, rec: HitRecord) -> bool {
    &&& exists|k: int|
        0 <= k < objects.len() && #[trigger] spec_sphere_hit(
            objects[k],
            ray,
            Interval { min: SHADOW_ACNE_EPS, max: FX_MAX },
        ) == Some(rec)
    &&& forall|k: int|
        0 <= k < objects.len() ==> match #[trigger] spec_sphere_hit(
            objects[k],
            ray,
            Interval { min: SHADOW_ACNE_EPS, max: FX_MAX },
        ) {
            Some(h) => rec.t <= h.t,
            None => true,
        }
}

/// The light-transport relation: the radiances the recursive evaluator
/// may return for a ray and depth budget.  A spent budget gives black; a
/// miss gives exactly the sky gradient; a hit on a surface without a
/// material shows the normal-visualization fallback (half of the normal
/// plus white); otherwise the material's scatter rule gives either black
/// on absorption or the attenuation times a radiance the scattered ray
/// may gather with one bounce less.
pub open spec fn spec_transport(objects: Seq<Sphere>, ray: Ray, depth: int, res: Color) -> bool
    decreases depth,
{
    if depth <= 0 {
        res == (Vec3 { x: 0i64, y: 0i64, z: 0i64 })
    } else if spec_ray_misses(objects, ray) {
        res == spec_sky_color(ray.dir)
    } else {
        exists|rec: HitRecord|
            #![trigger spec_closest_hit(objects, ray, rec)]
            {
                &&& spec_closest_hit(objects, ray, rec)
                &&& match rec.mat {
                    None => res == spec_scale(
                        spec_add(rec.normal, Vec3 { x: ONE, y: ONE, z: ONE }),
                        HALF as int,
                    ),
                    Some(m) => exists|outcome: Option<(Color, Ray)>|
                        #![trigger spec_scatter_ok(m, ray, rec, outcome)]
                        {
                            &&& spec_scatter_ok(m, ray, rec, outcome)
                            &&& match outcome {
                                None => res == (Vec3 { x: 0i64, y: 0i64, z: 0i64 }),
                                Some(pair) => exists|bounce: Color|
                                    #![trigger spec_mul(pair.0, bounce)]
                                    {
                                        &&& spec_transport(objects, pair.1, depth - 1, bounce)
                                        &&& res == spec_mul(pair.0, bounce)
                                    },
                            }
                        },
                }
            }
    }
}

/// The digits of a number, with a leading minus sign if negative.
pub open spec fn spec_dec_i(n: int) -> Seq<u8> {
    if n < 0 {
        seq![45u8] + spec_dec(-n)
    } else {
        spec_dec(n)
    }
}

/// Append the decimal form of `v`, sign included.
fn push_dec_i32(out: &mut Vec<u8>, v: i32)
    ensures
        final(out)@ == old(out)@ + spec_dec_i(v as int),
{
    if v < 0 {
        out.push(45);
        let m: u64 = (-(v as i64)) as u64;
        push_dec(out, m);
        proof {
            assert(out@ =~= old(out)@ + spec_dec_i(v as int));
        }
    } else {
        push_dec(out, v as u64);
    }
}

/// The fixed two-line output header: the format tag, the image
/// dimensions, and the top channel value.
pub open spec fn spec_ppm_header(w: int, h: int) -> Seq<u8> {
    seq![80u8, 51u8, 10u8] + spec_dec_i(w) + seq![32u8] + spec_dec_i(h) + seq![
        10u8,
        50u8,
        53u8,
        53u8,
        10u8,
    ]
}

/// The byte stream a sequence of records flattens to, in order.
pub open spec fn spec_records_concat(recs: Seq<Seq<u8>>) -> Seq<u8>
    decreases recs.len(),
{
    if recs.len() == 0 {
        Seq::empty()
    } else {
        spec_records_concat(recs.drop_last()) + recs.last()
    }
}

/// Whether the bytes are the text record of some pixel and sample count.
pub open spec fn spec_is_record(s: Seq<u8>) -> bool {
    exists|pixel: Vec3, samples: int| s == #[trigger] spec_color_record(pixel, samples)
}

/// Every entry is a pixel's text record.
pub open spec fn spec_all_records(recs: Seq<Seq<u8>>) -> bool {
    forall|k: int| 0 <= k < recs.len() ==> #[trigger] spec_is_record(recs[k])
}

/// How many pixel records an image of the given dimensions emits.
pub open spec fn spec_pixel_count(w: int, h: int) -> int {
    h * (if w > 0 {
        w
    } else {
        0
    })
}

/// A whole rendered image: the header for the given dimensions,
/// followed by one pixel record per image position.
pub open spec fn spec_valid_ppm(s: Seq<u8>, w: int, h: int) -> bool {
    exists|recs: Seq<Seq<u8>>|
        {
            &&& recs.len() == spec_pixel_count(w, h)
            &&& spec_all_records(recs)
            &&& s == spec_ppm_header(w, h) + #[trigger] spec_records_concat(recs)
        }
}

/// An admissible camera ray for pixel (i, j): built by the sampling
/// rule from some jitter fractions and some defocus-disk point.
pub open spec fn spec_camera_ray(cam: Camera, i: int, j: int, r: Ray) -> bool {
    exists|px: int, py: int, p: Vec3|
        #![trigger spec_get_ray(cam, i, j, px, py, p)]
        {
            &&& -(HALF as int) <= px < HALF as int
            &&& -(HALF as int) <= py < HALF as int
            &&& spec_len_sq(p) < ONE as int
            &&& p.z == 0
            &&& r == spec_get_ray(cam, i, j, px, py, p)
        }
}

/// One admissible sample for pixel (i, j): the radiance some admissible
/// camera ray gathers under the transport relation at the configured
/// depth budget.
pub open spec fn spec_sample_ok(cam: Camera, objects: Seq<Sphere>, i: int, j: int, c: Color) -> bool {
    exists|ray: Ray|
        #![trigger spec_transport(objects, ray, cam.max_depth as int, c)]
        spec_camera_ray(cam, i, j, ray) && spec_transport(objects, ray, cam.max_depth as int, c)
}

/// The sum of a sequence of sample colors, in order.
pub open spec fn spec_sum_colors(samples: Seq<Color>) -> Color
    decreases samples.len(),
{
    if samples.len() == 0 {
        Vec3 { x: 0i64, y: 0i64, z: 0i64 }
    } else {
        spec_add(spec_sum_colors(samples.drop_last()), samples.last())
    }
}

/// An admissible accumulated pixel color for (i, j): the sum of one
/// admissible sample per configured sample.
pub open spec fn spec_pixel_color_ok(
    cam: Camera,
    objects: Seq<Sphere>,
    i: int,
    j: int,
    pc: Color,
) -> bool {
    exists|samples: Seq<Color>|
        #![trigger spec_sum_colors(samples)]
        {
            &&& samples.len() == if cam.samples_per_pixel > 0 {
                cam.samples_per_pixel as int
            } else {
                0
            }
            &&& (forall|t: int|
                0 <= t < samples.len() ==> spec_sample_ok(cam, objects, i, j, #[trigger] samples[t]))
            &&& pc == spec_sum_colors(samples)
        }
}

/// The column the k-th row-major record shows.
pub open spec fn spec_rec_col(k: int, w: int) -> int {
    k % w
}

/// The row the k-th row-major record shows.
pub open spec fn spec_rec_row(k: int, w: int) -> int {
    k / w
}

/// Each record encodes its pixel color at the configured sample count.
pub open spec fn spec_records_encode(recs: Seq<Seq<u8>>, pcs: Seq<Color>, samples: int) -> bool {
    &&& pcs.len() == recs.len()
    &&& forall|k: int|
        0 <= k < recs.len() ==> recs[k] == spec_color_record(#[trigger] pcs[k], samples)
}

/// Every pixel color is an admissible accumulation for its row-major
/// position.
pub open spec fn spec_pixels_ok(cam: Camera, objects: Seq<Sphere>, pcs: Seq<Color>) -> bool {
    forall|k: int|
        0 <= k < pcs.len() ==> spec_pixel_color_ok(
            cam,
            objects,
            spec_rec_col(k, cam.image_width as int),
            spec_rec_row(k, cam.image_width as int),
            #[trigger] pcs[k],
        )
}

/// The record and pixel-color sequences of a full render.
pub open spec fn spec_image_body(
    cam: Camera,
    objects: Seq<Sphere>,
    recs: Seq<Seq<u8>>,
    pcs: Seq<Color>,
) -> bool {
    &&& recs.len() == spec_pixel_count(cam.image_width as int, cam.image_height as int)
    &&& spec_records_encode(recs, pcs, cam.samples_per_pixel as int)
    &&& spec_pixels_ok(cam, objects, pcs)
}

/// A fully rendered image for an initialized camera and a scene: the
/// header for the camera's dimensions, then one record per pixel in
/// row-major order, each the encoding of a pixel color accumulated from
/// the configured number of admissible transport samples.
pub open spec fn spec_rendered_image(s: Seq<u8>, cam: Camera, objects: Seq<Sphere>) -> bool {
    exists|recs: Seq<Seq<u8>>, pcs: Seq<Color>|
        {
            &&& s == spec_ppm_header(cam.image_width as int, cam.image_height as int)
                + spec_records_concat(recs)
            &&& #[trigger] spec_image_body(cam, objects, recs, pcs)
        }
}

/// The derived camera frame is nearly orthonormal, as far as the
/// scalar model states it directly: the forward and right axes have
/// near-unit length, and the upward axis -- the cross of the other two
/// -- is nearly orthogonal to both.  The premises are the model's
/// resolution floors: the view offset and the right axis' unnormalized
/// cross are each at least a tenth of a unit long, with the offset's
/// components within a million units and the up hint's within a
/// thousand.  (Near-orthogonality of the right and forward axes, and
/// the upward axis' near-unit length, are not stated: they rest on the
/// division's rounding and on the Lagrange identity, which the model's
/// lemmas do not cover.)
#[verifier::rlimit(100)]
pub proof fn lemma_camera_frame_near_orthonormal(c: Camera)
    requires
        abs_int(spec_sub(c.lookfrom, c.lookat).x as int) <= 1_000_000_000_000,
        abs_int(spec_sub(c.lookfrom, c.lookat).y as int) <= 1_000_000_000_000,
        abs_int(spec_sub(c.lookfrom, c.lookat).z as int) <= 1_000_000_000_000,
        100_000 <= crate::vec3::spec_length(spec_sub(c.lookfrom, c.lookat)),
        abs_int(c.vup.x as int) <= 1_000_000_000,
        abs_int(c.vup.y as int) <= 1_000_000_000,
        abs_int(c.vup.z as int) <= 1_000_000_000,
        100_000 <= crate::vec3::spec_length(
            spec_cross(spec_unit(spec_sub(c.lookfrom, c.lookat)), c.vup),
        ),
    ensures
        abs_int(crate::vec3::spec_length(spec_initialize(c).w) - ONE as int) <= 167,
        abs_int(crate::vec3::spec_length(spec_initialize(c).u) - ONE as int) <= 167,
        abs_int(crate::vec3::spec_dot(spec_initialize(c).v, spec_initialize(c).w)) <= 6_003,
        abs_int(crate::vec3::spec_dot(spec_initialize(c).v, spec_initialize(c).u)) <= 6_003,
{
    let s = 1_000_000int;
    let w = spec_unit(spec_sub(c.lookfrom, c.lookat));
    crate::vec3::lemma_normalization_near_unit(spec_sub(c.lookfrom, c.lookat));

    // The unnormalized right axis stays within range for normalization.
    let wx = w.x as int;
    let wy = w.y as int;
    let wz = w.z as int;
    let vx = c.vup.x as int;
    let vy = c.vup.y as int;
    let vz = c.vup.z as int;
    assert(abs_int(wy * vz) <= 1_000_701_000_000_000 && abs_int(wz * vy)
        <= 1_000_701_000_000_000 && abs_int(wz * vx) <= 1_000_701_000_000_000 && abs_int(
        wx * vz,
    ) <= 1_000_701_000_000_000 && abs_int(wx * vy) <= 1_000_701_000_000_000 && abs_int(wy * vx)
        <= 1_000_701_000_000_000) by (nonlinear_arith)
        requires
            abs_int(wx) <= 1_000_701,
            abs_int(wy) <= 1_000_701,
            abs_int(wz) <= 1_000_701,
            abs_int(vx) <= 1_000_000_000,
            abs_int(vy) <= 1_000_000_000,
            abs_int(vz) <= 1_000_000_000,
    ;
    crate::fixed::lemma_tdiv_err(wy * vz, s);
    crate::fixed::lemma_tdiv_err(wz * vy, s);
    crate::fixed::lemma_tdiv_err(wz * vx, s);
    crate::fixed::lemma_tdiv_err(wx * vz, s);
    crate::fixed::lemma_tdiv_err(wx * vy, s);
    crate::fixed::lemma_tdiv_err(wy * vx, s);
    let cr = spec_cross(w, c.vup);
    assert(abs_int(cr.x as int) <= 1_000_000_000_000 && abs_int(cr.y as int)
        <= 1_000_000_000_000 && abs_int(cr.z as int) <= 1_000_000_000_000);

    // The right axis normalizes to near-unit length, and the upward
    // axis is a cross of two near-unit vectors.
    crate::vec3::lemma_normalization_near_unit(cr);
    let u = spec_unit(cr);
    crate::vec3::lemma_cross_orthogonal(w, u);
    assert(spec_initialize(c).w == w && spec_initialize(c).u == u && spec_initialize(c).v
        == spec_cross(w, u));
}

impl Camera {
    /// A camera with the default configuration.
    pub fn new() -> (r: Self)
        ensures
            r.aspect_ratio as int == fx_div(16 * ONE as int, 9 * ONE as int),
            r.image_width == 400i32,
            r.samples_per_pixel == 100i32,
            r.max_depth == 10i32,
            r.vfov == 90_000_000i64,
            r.image_height == 225i32,
            r.defocus_angle == 0i64,
            r.focus_dist == 10_000_000i64,
            r.lookfrom == (Vec3 { x: 0i64, y: 0i64, z: (-ONE) as i64 }),
            r.lookat == (Vec3 { x: 0i64, y: 0i64, z: 0i64 }),
            r.vup == (Vec3 { x: 0i64, y: ONE, z: 0i64 }),
            r.pixel00_loc == (Vec3 { x: 0i64, y: 0i64, z: 0i64 }),
            r.pixel_delta_u == (Vec3 { x: 0i64, y: 0i64, z: 0i64 }),
            r.pixel_delta_v == (Vec3 { x: 0i64, y: 0i64, z: 0i64 }),
            r.center == (Vec3 { x: 0i64, y: 0i64, z: 0i64 }),
            r.defocus_disk_u == (Vec3 { x: 0i64, y: 0i64, z: 0i64 }),
            r.defocus_disk_v == (Vec3 { x: 0i64, y: 0i64, z: 0i64 }),
            r.u == (Vec3 { x: 0i64, y: 0i64, z: 0i64 }),
            r.v == (Vec3 { x: 0i64, y: 0i64, z: 0i64 }),
            r.w == (Vec3 { x: 0i64, y: 0i64, z: 0i64 }),
    {
        Self {
            aspect_ratio: fxdiv(16 * ONE, 9 * ONE),
            image_width: 400,
            samples_per_pixel: 100,
            max_depth: 10,
            vfov: 90_000_000,
            image_height: 225,

            defocus_angle: 0,
            focus_dist: 10_000_000,

            lookfrom: Point3 { x: 0, y: 0, z: -ONE },
            lookat: Point3 { x: 0, y: 0, z: 0 },
            vup: Point3 { x: 0, y: ONE, z: 0 },

            pixel00_loc: Point3 { x: 0, y: 0, z: 0 },
            pixel_delta_u: Vec3 { x: 0, y: 0, z: 0 },
            pixel_delta_v: Vec3 { x: 0, y: 0, z: 0 },
            center: Point3 { x: 0, y: 0, z: 0 },

            u: Vec3 { x: 0, y: 0, z: 0 },
            v: Vec3 { x: 0, y: 0, z: 0 },
            w: Vec3 { x: 0, y: 0, z: 0 },

            defocus_disk_u: Vec3 { x: 0, y: 0, z: 0 },
            defocus_disk_v: Vec3 { x: 0, y: 0, z: 0 },
        }
    }

    /// Derive the per-render state from the configuration.
    pub fn initialize(&mut self)
        ensures
            *final(self) == spec_initialize(*old(self)),
    {
        let wf: i64 = (self.image_width as i64) * ONE;
        let q = fxtrunc(fxdiv(wf, self.aspect_ratio));
        let capped: i64 = if q > 2_147_483_647 {
            2_147_483_647
        } else {
            q
        };
        self.image_height = if capped < 1 {
            1
        } else {
            capped as i32
        };
        self.center = self.lookfrom;

        let theta = degrees_to_radians(self.vfov);
        let h = fxtan(fxdiv(theta, TWO));
        let viewport_height = fxmul(fxmul(TWO, h), self.focus_dist);
        let hf: i64 = (self.image_height as i64) * ONE;
        let viewport_width = fxmul(viewport_height, fxdiv(wf, hf));

        self.w = unit_vector(self.lookfrom.sub(&self.lookat));
        self.u = unit_vector(cross(&self.w, &self.vup));
        self.v = cross(&self.w, &self.u);

        let viewport_u = self.u.scale(viewport_width);
        let viewport_v = self.v.neg().scale(fxneg(viewport_height));

        self.pixel_delta_u = viewport_u.div(wf);
        self.pixel_delta_v = viewport_v.div(hf);

        let viewport_upper_left = self
            .center
            .sub(&self.w.scale(self.focus_dist))
            .sub(&viewport_u.div(TWO))
            .sub(&viewport_v.div(TWO));

        self.pixel00_loc = viewport_upper_left.add(
            &self.pixel_delta_u.add(&self.pixel_delta_v).scale(HALF),
        );

        let defocus_radius = fxmul(
            self.focus_dist,
            fxtan(degrees_to_radians(fxdiv(self.defocus_angle, TWO))),
        );
        self.defocus_disk_u = self.u.scale(defocus_radius);
        self.defocus_disk_v = self.v.scale(defocus_radius);
    }

    /// The jitter offset within one pixel cell.
    fn pixel_sample_square(&self, rng: &mut Rng) -> (r: Vec3)
        ensures
            exists|px: int, py: int|
                -(HALF as int) <= px < HALF as int && -(HALF as int) <= py < HALF as int && r
                    == #[trigger] spec_pixel_sample_square(*self, px, py),
    {
        let px = -HALF + random_double(rng);
        let py = -HALF + random_double(rng);
        let r = self.pixel_delta_u.scale(px).add(&self.pixel_delta_v.scale(py));
        proof {
            assert(r == spec_pixel_sample_square(*self, px as int, py as int));
        }
        r
    }

    /// A random ray origin on the camera's defocus disk.
    fn defocus_disk_sample(&self, rng: &mut Rng) -> (r: Point3)
        ensures
            exists|p: Vec3|
                spec_len_sq(p) < ONE as int && p.z == 0 && r == #[trigger] spec_defocus_disk_sample(
                    *self,
                    p,
                ),
    {
        let p = random_in_unit_disk(rng);
        let r = self
            .center
            .add(&self.defocus_disk_u.scale(p.x()))
            .add(&self.defocus_disk_v.scale(p.y()));
        proof {
            assert(r == spec_defocus_disk_sample(*self, p));
        }
        r
    }

    /// A randomly jittered sample ray for pixel (i, j), originating
    /// from the camera center or its defocus disk.
    fn get_ray(&self, i: i32, j: i32, rng: &mut Rng) -> (r: Ray)
        ensures
            spec_camera_ray(*self, i as int, j as int, r),
    {
        let pixel_center = self
            .pixel00_loc
            .add(&self.pixel_delta_u.scale((i as i64) * ONE))
            .add(&self.pixel_delta_v.scale((j as i64) * ONE));

        let sample_sq = self.pixel_sample_square(rng);
        let pixel_sample = pixel_center.add(&sample_sq);
        let ghost (gpx, gpy) = choose|px: int, py: int|
            -(HALF as int) <= px < HALF as int && -(HALF as int) <= py < HALF as int && sample_sq
                == #[trigger] spec_pixel_sample_square(*self, px, py);

        let ray_origin = if self.defocus_angle <= 0 {
            self.center
        } else {
            self.defocus_disk_sample(rng)
        };
        let ghost gp: Vec3 = if self.defocus_angle <= 0 {
            Vec3 { x: 0i64, y: 0i64, z: 0i64 }
        } else {
            choose|p: Vec3|
                spec_len_sq(p) < ONE as int && p.z == 0 && ray_origin
                    == #[trigger] spec_defocus_disk_sample(*self, p)
        };
        let ray_direction = pixel_sample.sub(&ray_origin);
        let r = Ray::from(ray_origin, ray_direction);
        proof {
            crate::fixed::lemma_tdiv_eval(0, ONE as int, 0);
            assert(spec_len_sq(Vec3 { x: 0i64, y: 0i64, z: 0i64 }) == 0);
            assert(r == spec_get_ray(*self, i as int, j as int, gpx, gpy, gp));
            assert(spec_camera_ray(*self, i as int, j as int, r));
        }
        r
    }

    /// The radiance a ray gathers: black once the recursion budget is
    /// spent, the sky gradient on a miss, the normal-visualization
    /// fallback on a hit without a material, and otherwise the
    /// material's attenuation times the scattered ray's radiance (black
    /// on absorption) -- exactly the transport relation.  In a
    /// well-formed scene the result is a well-formed color.
    pub fn ray_color(&self, ray: &Ray, depth: i32, world: &HittableList, rng: &mut Rng) -> (res: Color)
        ensures
            spec_transport(world.objects@, *ray, depth as int, res),
            depth <= 0 ==> res == (Vec3 { x: 0i64, y: 0i64, z: 0i64 }),
            depth > 0 && spec_ray_misses(world.objects@, *ray) ==> res == spec_sky_color(ray.dir),
            spec_world_wf(world.objects@) ==> spec_color_wf(res),
        decreases depth,
    {
        if depth <= 0 {
            return Color::new();
        }

        let ghost objs = world.objects@;
        let ghost window = Interval { min: SHADOW_ACNE_EPS, max: FX_MAX };
        match world.hit(ray, Interval::from(SHADOW_ACNE_EPS, FX_MAX)) {
            Some(rec) => {
                proof {
                    let k = choose|k: int|
                        0 <= k < objs.len() && spec_sphere_hit(objs[k], *ray, window) == Some(rec);
                    assert(spec_sphere_hit(objs[k], *ray, window) is Some);
                    assert(!spec_ray_misses(objs, *ray));
                    assert(spec_closest_hit(objs, *ray, rec));
                    if spec_world_wf(objs) {
                        assert(spec_sphere_wf(objs[k]));
                        assert(rec.mat == objs[k].mat);
                    }
                }
                match rec.mat {
                    Some(material) => {
                        let scatter_res = material.scatter(ray, &rec, rng);
                        match scatter_res {
                            Some((attenuation, scattered)) => {
                                let bounce = self.ray_color(&scattered, depth - 1, world, rng);
                                let res = attenuation.mul(&bounce);
                                proof {
                                    assert(spec_scatter_ok(material, *ray, rec, scatter_res));
                                    assert(spec_transport(objs, scattered, depth - 1, bounce)
                                        && res == spec_mul(attenuation, bounce));
                                    assert(spec_transport(objs, *ray, depth as int, res));
                                    if spec_world_wf(objs) {
                                        crate::material::lemma_scatter_attenuation_wf(
                                            material,
                                            *ray,
                                            rec,
                                            scatter_res,
                                        );
                                        crate::fixed::lemma_fx_mul_unit_range(
                                            attenuation.x as int,
                                            bounce.x as int,
                                        );
                                        crate::fixed::lemma_fx_mul_unit_range(
                                            attenuation.y as int,
                                            bounce.y as int,
                                        );
                                        crate::fixed::lemma_fx_mul_unit_range(
                                            attenuation.z as int,
                                            bounce.z as int,
                                        );
                                    }
                                }
                                res
                            },
                            None => {
                                proof {
                                    assert(spec_scatter_ok(material, *ray, rec, scatter_res));
                                    assert(spec_transport(
                                        objs,
                                        *ray,
                                        depth as int,
                                        Vec3 { x: 0i64, y: 0i64, z: 0i64 },
                                    ));
                                }
                                Color::new()
                            },
                        }
                    },
                    None => {
                        let res = rec.normal.add(&Color::from(ONE, ONE, ONE)).scale(HALF);
                        proof {
                            assert(spec_transport(objs, *ray, depth as int, res));
                            if spec_world_wf(objs) {
                                let k = choose|k: int|
                                    0 <= k < objs.len() && spec_sphere_hit(objs[k], *ray, window)
                                        == Some(rec);
                                assert(spec_sphere_wf(objs[k]));
                            }
                        }
                        res
                    },
                }
            },
            None => {
                let unit_direction = unit_vector(ray.direction());
                let raw = fxmul(HALF, fxadd(unit_direction.y(), ONE));
                let a = if raw < 0 {
                    0
                } else if raw > ONE {
                    ONE
                } else {
                    raw
                };
                let res = Color::from(ONE, ONE, ONE).scale(fxsub(ONE, a)).add(
                    &Color::from(HALF, 700_000, ONE).scale(a),
                );
                proof {
                    assert(a as int == spec_sky_blend(ray.dir));
                    assert(res == spec_sky_color(ray.dir));
                    lemma_sky_color_wf(ray.dir);
                }
                res
            },
        }
    }

    /// Render the scene: derive the viewport, then emit the header and
    /// one tone-mapped record per pixel, row by row, each accumulated
    /// over the configured number of sample rays.
    #[verifier::rlimit(100)]
    pub fn render(&mut self, world: &HittableList, rng: &mut Rng) -> (res: Vec<u8>)
        ensures
            *final(self) == spec_initialize(*old(self)),
            spec_valid_ppm(
                res@,
                final(self).image_width as int,
                final(self).image_height as int,
            ),
            spec_rendered_image(res@, *final(self), world.objects@),
    {
        self.initialize();

        let mut out: Vec<u8> = Vec::new();
        out.push(80);
        out.push(51);
        out.push(10);
        push_dec_i32(&mut out, self.image_width);
        out.push(32);
        push_dec_i32(&mut out, self.image_height);
        out.push(10);
        out.push(50);
        out.push(53);
        out.push(53);
        out.push(10);
        proof {
            assert(out@ =~= spec_ppm_header(
                self.image_width as int,
                self.image_height as int,
            ));
        }

        let ghost cam = *self;
        let ghost header = out@;
        let ghost mut recs: Seq<Seq<u8>> = Seq::empty();
        let w: i32 = self.image_width;
        let h: i32 = self.image_height;
        let ghost wn: int = if w > 0 {
            w as int
        } else {
            0
        };

        let ghost objs = world.objects@;
        let ghost mut pcs: Seq<Color> = Seq::empty();

        let mut j: i32 = 0;
        while j < h
            invariant
                *self == cam,
                0 <= j <= h,
                w == cam.image_width,
                h == cam.image_height,
                objs == world.objects@,
                wn == if w > 0 {
                    w as int
                } else {
                    0
                },
                out@ == header + spec_records_concat(recs),
                spec_all_records(recs),
                recs.len() == j * wn,
                spec_records_encode(recs, pcs, cam.samples_per_pixel as int),
                spec_pixels_ok(cam, objs, pcs),
            decreases h - j,
        {
            let mut i: i32 = 0;
            while i < w
                invariant
                    *self == cam,
                    0 <= j < h,
                    0 <= i,
                    i <= wn,
                    w == cam.image_width,
                    objs == world.objects@,
                    wn == if w > 0 {
                        w as int
                    } else {
                        0
                    },
                    out@ == header + spec_records_concat(recs),
                    spec_all_records(recs),
                    recs.len() == j * wn + i,
                    spec_records_encode(recs, pcs, cam.samples_per_pixel as int),
                    spec_pixels_ok(cam, objs, pcs),
                decreases w - i,
            {
                let mut pixel_color = Color::new();
                let ghost mut samples: Seq<Color> = Seq::empty();
                let mut s: i32 = 0;
                while s < self.samples_per_pixel
                    invariant
                        *self == cam,
                        objs == world.objects@,
                        0 <= s,
                        s == 0 || s <= self.samples_per_pixel,
                        samples.len() == s,
                        forall|t: int|
                            0 <= t < samples.len() ==> spec_sample_ok(
                                cam,
                                objs,
                                i as int,
                                j as int,
                                #[trigger] samples[t],
                            ),
                        pixel_color == spec_sum_colors(samples),
                    decreases self.samples_per_pixel - s,
                {
                    let ray = self.get_ray(i, j, rng);
                    let sample_color = self.ray_color(&ray, self.max_depth, world, rng);
                    pixel_color = pixel_color.add(&sample_color);
                    proof {
                        assert(spec_camera_ray(cam, i as int, j as int, ray) && spec_transport(
                            objs,
                            ray,
                            cam.max_depth as int,
                            sample_color,
                        ));
                        assert(spec_sample_ok(cam, objs, i as int, j as int, sample_color));
                        let new_samples = samples.push(sample_color);
                        assert(new_samples.drop_last() =~= samples);
                        assert(spec_sum_colors(new_samples) == spec_add(
                            spec_sum_colors(samples),
                            sample_color,
                        ));
                        assert forall|t: int| 0 <= t < new_samples.len() implies spec_sample_ok(
                            cam,
                            objs,
                            i as int,
                            j as int,
                            #[trigger] new_samples[t],
                        ) by {
                            if t < samples.len() {
                                assert(new_samples[t] == samples[t]);
                            } else {
                                assert(new_samples[t] == sample_color);
                            }
                        }
                        samples = new_samples;
                    }
                    s = s + 1;
                }
                write_color(&mut out, &pixel_color, self.samples_per_pixel);
                proof {
                    assert(samples.len() == if cam.samples_per_pixel > 0 {
                        cam.samples_per_pixel as int
                    } else {
                        0
                    });
                    assert(spec_pixel_color_ok(cam, objs, i as int, j as int, pixel_color));
                    let rec_bytes = spec_color_record(pixel_color, self.samples_per_pixel as int);
                    let new_recs = recs.push(rec_bytes);
                    let new_pcs = pcs.push(pixel_color);
                    assert(new_recs.drop_last() =~= recs);
                    assert(spec_records_concat(new_recs) == spec_records_concat(recs) + rec_bytes);
                    assert(spec_is_record(rec_bytes));
                    assert forall|k: int| 0 <= k < new_recs.len() implies #[trigger] spec_is_record(
                        new_recs[k],
                    ) by {
                        if k < recs.len() {
                            assert(new_recs[k] == recs[k]);
                        } else {
                            assert(new_recs[k] == rec_bytes);
                        }
                    }
                    assert forall|k: int| 0 <= k < new_recs.len() implies new_recs[k]
                        == spec_color_record(#[trigger] new_pcs[k], cam.samples_per_pixel as int) by {
                        if k < recs.len() {
                            assert(new_recs[k] == recs[k] && new_pcs[k] == pcs[k]);
                        } else {
                            assert(new_recs[k] == rec_bytes && new_pcs[k] == pixel_color);
                        }
                    }
                    vstd::arithmetic::div_mod::lemma_fundamental_div_mod_converse(
                        j * wn + i,
                        wn,
                        j as int,
                        i as int,
                    );
                    assert(spec_rec_col(j * wn + i, cam.image_width as int) == i as int
                        && spec_rec_row(j * wn + i, cam.image_width as int) == j as int);
                    assert forall|k: int| 0 <= k < new_pcs.len() implies spec_pixel_color_ok(
                        cam,
                        objs,
                        spec_rec_col(k, cam.image_width as int),
                        spec_rec_row(k, cam.image_width as int),
                        #[trigger] new_pcs[k],
                    ) by {
                        if k < pcs.len() {
                            assert(new_pcs[k] == pcs[k]);
                        } else {
                            assert(new_pcs[k] == pixel_color && k == j * wn + i);
                        }
                    }
                    recs = new_recs;
                    pcs = new_pcs;
                    assert(out@ =~= header + spec_records_concat(recs));
                }
                i = i + 1;
            }
            proof {
                assert(j * wn + wn == (j + 1) * wn) by (nonlinear_arith);
            }
            j = j + 1;
        }
        proof {
            assert(recs.len() == spec_pixel_count(
                cam.image_width as int,
                cam.image_height as int,
            ));
            assert(out@ == spec_ppm_header(cam.image_width as int, cam.image_height as int)
                + spec_records_concat(recs));
            assert(spec_valid_ppm(out@, cam.image_width as int, cam.image_height as int));
            assert(spec_image_body(cam, objs, recs, pcs));
            assert(spec_rendered_image(out@, cam, objs));
        }
        out
    }
}

} // verus!
