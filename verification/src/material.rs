//! Surface materials and their scattering rules.
//!
//! The three materials form a closed set of variants dispatched through
//! the `Material` enum: diffuse (`Lambertian`), specular (`Metal`) and
//! transmissive (`Dielectric`).  A material is immutable configuration;
//! scattering is a function of the incoming ray, the hit record and the
//! random draws it consumes.

use vstd::prelude::*;

use crate::fixed::{fx_add, fx_div, fx_mul, fx_sqrt, fx_sub, fxdiv, fxmul, fxsub, ONE};
use crate::hittable::HitRecord;
use crate::ray::Ray;
use crate::utils::{random_double, Rng};
use crate::vec3::{
    dot, random_unit_vector, reflect, refract, spec_ball_sample, spec_dot, spec_near_zero,
    spec_neg, spec_reflect, spec_refract, spec_unit, unit_vector, Color, Vec3,
};

verus! {

/// A diffuse surface that always scatters about the normal.
#[derive(Clone, Copy, Debug)]
pub struct Lambertian {
    pub albedo: Color,
}

impl Lambertian {
    /// A diffuse material with the given albedo.
    pub fn from(albedo: Color) -> (r: Self)
        ensures
            r.albedo == albedo,
    {
        Self { albedo }
    }
}

/// A specular surface that mirrors the incoming direction.
#[derive(Clone, Copy, Debug)]
pub struct Metal {
    pub albedo: Color,
    pub fuzz: i64,
}

impl Metal {
    /// A specular material with the given albedo and fuzz factor; the
    /// fuzz is clamped into [0, 1].  The stored fuzz is configuration
    /// only: the reflected ray is not perturbed by it.
    pub fn from(albedo: Color, fuzz: i64) -> (r: Self)
        ensures
            r.albedo == albedo,
            r.fuzz == if fuzz < 0 {
                0i64
            } else if fuzz < ONE {
                fuzz
            } else {
                ONE
            },
    {
        let f = if fuzz < 0 {
            0
        } else if fuzz < ONE {
            fuzz
        } else {
            ONE
        };
        Self { albedo, fuzz: f }
    }
}

/// A transmissive surface with Fresnel-weighted reflection.
#[derive(Clone, Copy, Debug)]
pub struct Dielectric {
    pub ir: i64,
}

impl Dielectric {
    /// A transmissive material with the given index of refraction.
    pub fn from(ir: i64) -> (r: Self)
        ensures
            r.ir == ir,
    {
        Self { ir }
    }
}

/// The diffuse scatter direction: the normal plus a unit sample, with
/// the normal itself replacing a vanishing sum.
pub open spec fn spec_lambertian_direction(normal: Vec3, u: Vec3) -> Vec3 {
    let d = crate::vec3::spec_add(normal, u);
    if spec_near_zero(d) {
        normal
    } else {
        d
    }
}

/// What diffuse scattering promises: some outcome, attenuated by the
/// albedo, leaving the hit point along the normal plus a unit sample.
pub open spec fn lambertian_scatter_ok(
    m: Lambertian,
    rec: HitRecord,
    res: Option<(Color, Ray)>,
) -> bool {
    &&& res is Some
    &&& (res matches Some((attenuation, scattered)) ==> {
        &&& attenuation == m.albedo
        &&& scattered.orig == rec.p
        &&& exists|p: Vec3|
            spec_ball_sample(p) && scattered.dir == spec_lambertian_direction(
                rec.normal,
                spec_unit(p),
            )
    })
}

impl Lambertian {
    /// Diffuse scatter: always scatters from the hit point about the
    /// normal, attenuated by the albedo.
    pub fn scatter(&self, _r_in: &Ray, rec: &HitRecord, rng: &mut Rng) -> (res: Option<
        (Color, Ray),
    >)
        ensures
            lambertian_scatter_ok(*self, *rec, res),
    {
        let ruv = random_unit_vector(rng);
        let ghost sample = choose|p: Vec3| spec_ball_sample(p) && ruv == spec_unit(p);
        let mut scatter_direction = rec.normal.add(&ruv);

        if scatter_direction.near_zero() {
            scatter_direction = rec.normal;
        }

        let scattered = Ray::from(rec.p, scatter_direction);
        let attenuation = self.albedo;
        proof {
            assert(spec_ball_sample(sample) && scattered.dir == spec_lambertian_direction(
                rec.normal,
                spec_unit(sample),
            ));
        }
        Some((attenuation, scattered))
    }
}

/// What specular scattering returns: the incoming direction mirrored
/// about the normal, kept only when it leaves the surface.
pub open spec fn spec_metal_scatter(m: Metal, r_in: Ray, rec: HitRecord) -> Option<(Color, Ray)> {
    let reflected = spec_reflect(spec_unit(r_in.dir), rec.normal);
    if spec_dot(reflected, rec.normal) > 0 {
        Some((m.albedo, Ray { orig: rec.p, dir: reflected }))
    } else {
        None
    }
}

impl Metal {
    /// Specular scatter: mirror the incoming direction; absorb the ray
    /// when the reflection would enter the surface.
    pub fn scatter(&self, r_in: &Ray, rec: &HitRecord) -> (res: Option<(Color, Ray)>)
        ensures
            res == spec_metal_scatter(*self, *r_in, *rec),
    {
        let reflected = reflect(&unit_vector(r_in.direction()), &rec.normal);
        let scattered = Ray::from(rec.p, reflected);
        let attenuation = self.albedo;
        if dot(&scattered.direction(), &rec.normal) > 0 {
            Some((attenuation, scattered))
        } else {
            None
        }
    }
}

/// The fifth power of a scalar, by repeated squaring.
pub open spec fn spec_pow5(x: int) -> int {
    let x2 = fx_mul(x, x);
    let x4 = fx_mul(x2, x2);
    fx_mul(x4, x)
}

/// Schlick's approximation of the Fresnel reflectance coefficient.
pub open spec fn spec_reflectance(cosine: int, ref_idx: int) -> int {
    let r0 = fx_div(fx_sub(ONE as int, ref_idx), fx_add(ONE as int, ref_idx));
    let r0sq = fx_mul(r0, r0);
    fx_add(r0sq, fx_mul(fx_sub(ONE as int, r0sq), spec_pow5(fx_sub(ONE as int, cosine))))
}

/// The ratio of refractive indices at the struck face: entering the
/// surface divides one by the index, leaving multiplies by it.
pub open spec fn spec_refraction_ratio(d: Dielectric, front_face: bool) -> int {
    if front_face {
        fx_div(ONE as int, d.ir as int)
    } else {
        d.ir as int
    }
}

/// The incidence cosine: the dot of the reversed unit direction with
/// the normal, capped at one against numerical overshoot.
pub open spec fn spec_cos_theta(unit_direction: Vec3, normal: Vec3) -> int {
    if spec_dot(spec_neg(unit_direction), normal) <= ONE as int {
        spec_dot(spec_neg(unit_direction), normal)
    } else {
        ONE as int
    }
}

/// The incidence sine from its cosine (a negative square maps to zero).
pub open spec fn spec_sin_theta(cos_theta: int) -> int {
    fx_sqrt(fx_sub(ONE as int, fx_mul(cos_theta, cos_theta)))
}

/// Total internal reflection: Snell's law has no solution.
pub open spec fn spec_cannot_refract(refraction_ratio: int, sin_theta: int) -> bool {
    fx_mul(refraction_ratio, sin_theta) > ONE as int
}

/// Whether the dielectric reflects: either refraction is impossible or
/// the Fresnel reflectance exceeds the random draw.
pub open spec fn spec_dielectric_reflects(d: Dielectric, r_in: Ray, rec: HitRecord, draw: int) -> bool {
    let refraction_ratio = spec_refraction_ratio(d, rec.front_face);
    let unit_direction = spec_unit(r_in.dir);
    let cos_theta = spec_cos_theta(unit_direction, rec.normal);
    let sin_theta = spec_sin_theta(cos_theta);
    spec_cannot_refract(refraction_ratio, sin_theta) || spec_reflectance(cos_theta, refraction_ratio)
        > draw
}

/// What transmissive scattering returns for a given random draw: a
/// white attenuation and the reflected or refracted direction.
pub open spec fn spec_dielectric_scatter(d: Dielectric, r_in: Ray, rec: HitRecord, draw: int) -> (
    Color,
    Ray,
) {
    let refraction_ratio = spec_refraction_ratio(d, rec.front_face);
    let unit_direction = spec_unit(r_in.dir);
    let direction = if spec_dielectric_reflects(d, r_in, rec, draw) {
        spec_reflect(unit_direction, rec.normal)
    } else {
        spec_refract(unit_direction, rec.normal, refraction_ratio)
    };
    (Vec3 { x: ONE, y: ONE, z: ONE }, Ray { orig: rec.p, dir: direction })
}

/// What transmissive scattering promises: some outcome, and one that
/// the scatter rule produces for a random draw from [0, 1).
pub open spec fn dielectric_scatter_ok(
    d: Dielectric,
    r_in: Ray,
    rec: HitRecord,
    res: Option<(Color, Ray)>,
) -> bool {
    exists|draw: int|
        0 <= draw < ONE as int && res == Some(spec_dielectric_scatter(d, r_in, rec, draw))
}

/// A dielectric whose index of refraction matches the ambient medium
/// never reflects by total internal reflection: its refraction ratio is
/// one, so Snell's law always has a solution.  At head-on incidence
/// (cosine one) its Schlick reflectance is zero, so it refracts
/// whatever the random draw.
pub proof fn lemma_dielectric_matched_medium(d: Dielectric, r_in: Ray, rec: HitRecord, draw: int)
    requires
        d.ir == ONE,
        0 <= draw,
    ensures
        spec_refraction_ratio(d, rec.front_face) == ONE as int,
        !spec_cannot_refract(
            spec_refraction_ratio(d, rec.front_face),
            spec_sin_theta(spec_cos_theta(spec_unit(r_in.dir), rec.normal)),
        ),
        spec_cos_theta(spec_unit(r_in.dir), rec.normal) == ONE as int
            ==> !spec_dielectric_reflects(d, r_in, rec, draw),
{
    crate::fixed::lemma_fx_div_one(ONE as int);
    let cos = spec_cos_theta(spec_unit(r_in.dir), rec.normal);
    let sq = fx_mul(cos, cos);
    crate::fixed::lemma_fx_mul_square_nonneg(cos);
    let y = fx_sub(ONE as int, sq);
    let sin = spec_sin_theta(cos);
    crate::fixed::lemma_fx_sqrt_le_one(y);
    crate::fixed::lemma_fx_sqrt_nonneg(y);
    crate::fixed::lemma_fx_mul_one(sin);
    // Schlick's coefficient at a matched index: the base reflectance is
    // zero, so only the fifth power of one minus the cosine remains.
    crate::fixed::lemma_tdiv_eval(0, 2_000_000, 0);
    crate::fixed::lemma_tdiv_eval(0, 1_000_000, 0);
    if cos == ONE as int {
        let p5 = spec_pow5(fx_sub(ONE as int, cos));
        assert(p5 == 0);
        crate::fixed::lemma_fx_mul_one(p5);
        assert(spec_reflectance(cos, ONE as int) == 0);
    }
}

impl Dielectric {
    /// Schlick's approximation of the Fresnel reflectance coefficient.
    fn reflectance(&self, cosine: i64, ref_idx: i64) -> (r: i64)
        ensures
            r as int == spec_reflectance(cosine as int, ref_idx as int),
    {
        let mut r0 = fxdiv(fxsub(ONE, ref_idx), crate::fixed::fxadd(ONE, ref_idx));
        r0 = fxmul(r0, r0);
        let p1 = fxsub(ONE, cosine);
        let p2 = fxmul(p1, p1);
        let p4 = fxmul(p2, p2);
        let p5 = fxmul(p4, p1);
        crate::fixed::fxadd(r0, fxmul(fxsub(ONE, r0), p5))
    }

    /// Transmissive scatter: always scatters with white attenuation,
    /// reflecting on total internal reflection or a Fresnel-weighted
    /// coin flip, refracting otherwise.
    pub fn scatter(&self, ray: &Ray, rec: &HitRecord, rng: &mut Rng) -> (res: Option<(Color, Ray)>)
        ensures
            res is Some,
            dielectric_scatter_ok(*self, *ray, *rec, res),
    {
        let refraction_ratio = if rec.front_face {
            fxdiv(ONE, self.ir)
        } else {
            self.ir
        };

        let unit_direction = unit_vector(ray.direction());

        let cos_theta = crate::fixed::fxmin(dot(&unit_direction.neg(), &rec.normal), ONE);
        let sin_theta = crate::fixed::fxsqrt(fxsub(ONE, fxmul(cos_theta, cos_theta)));

        let cannot_refract = fxmul(refraction_ratio, sin_theta) > ONE;
        let draw = random_double(rng);
        let direction: Vec3 = if cannot_refract || self.reflectance(cos_theta, refraction_ratio)
            > draw {
            reflect(&unit_direction, &rec.normal)
        } else {
            refract(&unit_direction, &rec.normal, refraction_ratio)
        };

        let attenuation = Color::from(ONE, ONE, ONE);
        let scattered = Ray::from(rec.p, direction);

        let res = Some((attenuation, scattered));
        proof {
            assert(0 <= draw as int && (draw as int) < ONE as int && res == Some(
                spec_dielectric_scatter(*self, *ray, *rec, draw as int),
            ));
        }
        res
    }
}

/// A surface material: one of the three closed variants.
#[derive(Clone, Copy, Debug)]
pub enum Material {
    Lambertian(Lambertian),
    Metal(Metal),
    Dielectric(Dielectric),
}

/// What any material's scatter may return: the variant's own rule.
pub open spec fn spec_scatter_ok(m: Material, r_in: Ray, rec: HitRecord, res: Option<
    (Color, Ray),
>) -> bool {
    match m {
        Material::Lambertian(l) => lambertian_scatter_ok(l, rec, res),
        Material::Metal(mt) => res == spec_metal_scatter(mt, r_in, rec),
        Material::Dielectric(d) => res is Some && dielectric_scatter_ok(d, r_in, rec, res),
    }
}

/// A well-formed material: its albedo channels lie in [0, 1] (glass has
/// no albedo of its own, its attenuation is always white).
pub open spec fn spec_material_wf(m: Material) -> bool {
    match m {
        Material::Lambertian(l) => crate::vec3::spec_color_wf(l.albedo),
        Material::Metal(mt) => crate::vec3::spec_color_wf(mt.albedo),
        Material::Dielectric(_) => true,
    }
}

/// A well-formed material always hands back a well-formed attenuation.
pub proof fn lemma_scatter_attenuation_wf(
    m: Material,
    r_in: Ray,
    rec: HitRecord,
    res: Option<(Color, Ray)>,
)
    requires
        spec_material_wf(m),
        spec_scatter_ok(m, r_in, rec, res),
    ensures
        res matches Some((attenuation, scattered)) ==> crate::vec3::spec_color_wf(attenuation),
{
}

impl Material {
    /// Scatter an incoming ray at a hit, by the variant's own rule.
    pub fn scatter(&self, r_in: &Ray, rec: &HitRecord, rng: &mut Rng) -> (res: Option<
        (Color, Ray),
    >)
        ensures
            spec_scatter_ok(*self, *r_in, *rec, res),
    {
        match self {
            Material::Lambertian(m) => m.scatter(r_in, rec, rng),
            Material::Metal(m) => m.scatter(r_in, rec),
            Material::Dielectric(m) => m.scatter(r_in, rec, rng),
        }
    }
}

} // verus!
