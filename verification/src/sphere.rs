//! Spheres and their closed-form ray intersection.

use vstd::prelude::*;

use crate::fixed::{
    abs_int, fx_add, fx_div, fx_mul, fx_neg, fx_sqrt, fx_sub, fxadd, fxdiv, fxmul, fxneg, fxsqrt, fxsub,
};
use crate::hittable::{spec_surrounds, HitRecord, Interval};
use crate::material::Material;
use crate::ray::{spec_at, Ray};
use crate::vec3::{dot, spec_div, spec_dot, spec_len_sq, spec_neg, spec_sub, Point3, Vec3};

verus! {

/// An implicit sphere: center, signed radius, and a material.  A
/// negative radius flips the outward normal while its magnitude still
/// governs the geometry (the hollow-sphere trick).
#[derive(Clone, Copy, Debug)]
pub struct Sphere {
    pub center: Point3,
    pub radius: i64,
    pub mat: Option<Material>,
}

impl Sphere {
    /// A degenerate sphere at the origin with no material.
    pub fn new() -> (r: Self)
        ensures
            r.center == (Vec3 { x: 0i64, y: 0i64, z: 0i64 }),
            r.radius == 0i64,
            r.mat is None,
    {
        Self { center: Point3 { x: 0, y: 0, z: 0 }, radius: 0, mat: None }
    }

    /// A sphere with the given center, signed radius and material.
    pub fn from(center: Point3, radius: i64, mat: Material) -> (r: Self)
        ensures
            r.center == center,
            r.radius == radius,
            r.mat == Some(mat),
    {
        Self { center, radius, mat: Some(mat) }
    }
}

/// The record an accepted root produces: position on the sphere, normal
/// oriented against the ray, the parameter, and the sphere's material.
pub open spec fn spec_sphere_record(s: Sphere, r: Ray, root: int) -> HitRecord {
    let p = spec_at(r, root);
    let outward = spec_div(spec_sub(p, s.center), s.radius as int);
    let front = spec_dot(r.dir, outward) < 0;
    HitRecord {
        p,
        normal: if front {
            outward
        } else {
            spec_neg(outward)
        },
        t: root as i64,
        front_face: front,
        mat: s.mat,
    }
}

/// The quadratic ray-sphere intersection: the nearer root strictly
/// inside `ray_t` if there is one, else the farther, else no hit.
pub open spec fn spec_sphere_hit(s: Sphere, r: Ray, ray_t: Interval) -> Option<HitRecord> {
    let oc = spec_sub(r.orig, s.center);
    let a = spec_len_sq(r.dir);
    let half_b = spec_dot(oc, r.dir);
    let c = fx_sub(spec_len_sq(oc), fx_mul(s.radius as int, s.radius as int));
    let disc = fx_sub(fx_mul(half_b, half_b), fx_mul(a, c));
    if disc < 0 {
        None
    } else {
        let sqrtd = fx_sqrt(disc);
        let root1 = fx_div(fx_sub(fx_neg(half_b), sqrtd), a);
        let root2 = fx_div(fx_add(fx_neg(half_b), sqrtd), a);
        if spec_surrounds(ray_t, root1) {
            Some(spec_sphere_record(s, r, root1))
        } else if spec_surrounds(ray_t, root2) {
            Some(spec_sphere_record(s, r, root2))
        } else {
            None
        }
    }
}

/// A ray aimed straight at a sphere's center hits it at the distance to
/// the center minus the radius: for a sphere a whole number of
/// thousandths of a unit down the third axis (distance `dk`
/// thousandths, radius `rk` thousandths) and a unit ray from the
/// origin, the accepted hit is at exactly that parameter, on the front
/// face, with the normal pointing back along the ray.
pub proof fn lemma_head_on_hit(dk: int, rk: int, mat: Material, ray_t: Interval)
    requires
        0 < rk < dk <= 1_000_000,
        spec_surrounds(ray_t, 1000 * dk - 1000 * rk),
    ensures
        ({
            let s = Sphere {
                center: Vec3 { x: 0i64, y: 0i64, z: (-1000 * dk) as i64 },
                radius: (1000 * rk) as i64,
                mat: Some(mat),
            };
            let r = Ray {
                orig: Vec3 { x: 0i64, y: 0i64, z: 0i64 },
                dir: Vec3 { x: 0i64, y: 0i64, z: (-1_000_000) as i64 },
            };
            spec_sphere_hit(s, r, ray_t) == Some(
                HitRecord {
                    p: Vec3 { x: 0i64, y: 0i64, z: (-(1000 * dk - 1000 * rk)) as i64 },
                    normal: Vec3 { x: 0i64, y: 0i64, z: 1_000_000i64 },
                    t: (1000 * dk - 1000 * rk) as i64,
                    front_face: true,
                    mat: Some(mat),
                },
            )
        }),
{
    let d = 1000 * dk;
    let rad = 1000 * rk;
    crate::fixed::lemma_fx_mul_div_exact(0, 0, 0);
    crate::fixed::lemma_fx_mul_div_exact(-1_000_000, -1_000_000, 1_000_000);
    crate::fixed::lemma_fx_mul_div_exact(d, -1_000_000, -d);
    assert(d * d == (dk * rk * 0 + dk * dk) * 1_000_000) by (nonlinear_arith)
        requires
            d == 1000 * dk,
    ;
    assert(dk * dk <= 1_000_000_000_000 && 0 < rk * rk <= dk * dk) by (nonlinear_arith)
        requires
            0 < rk < dk <= 1_000_000,
    ;
    crate::fixed::lemma_fx_mul_div_exact(d, d, dk * dk);
    assert(rad * rad == (rk * rk) * 1_000_000) by (nonlinear_arith)
        requires
            rad == 1000 * rk,
    ;
    crate::fixed::lemma_fx_mul_div_exact(rad, rad, rk * rk);
    let c = crate::fixed::fx_sub(dk * dk, rk * rk);
    crate::fixed::lemma_fx_mul_one(c);
    assert((-d) * (-d) == (dk * dk) * 1_000_000) by (nonlinear_arith)
        requires
            d == 1000 * dk,
    ;
    crate::fixed::lemma_fx_mul_div_exact(-d, -d, dk * dk);
    // The discriminant is the squared radius; its root is the radius.
    let disc = crate::fixed::fx_sub(dk * dk, crate::fixed::fx_mul(1_000_000, c));
    assert(disc == rk * rk);
    assert((rk * rk) * 1_000_000 == rad * rad) by (nonlinear_arith)
        requires
            rad == 1000 * rk,
    ;
    assert(rad * rad < (rad + 1) * (rad + 1)) by (nonlinear_arith)
        requires
            0 < rad,
    ;
    crate::fixed::lemma_sqrt_floor_unique(disc * 1_000_000, rad);
    crate::fixed::lemma_fx_div_one(d - rad);
    // The accepted record: position, outward normal, orientation.
    crate::fixed::lemma_fx_mul_div_exact(0, d - rad, 0);
    crate::fixed::lemma_fx_mul_div_exact(-1_000_000, d - rad, -(d - rad));
    crate::fixed::lemma_tdiv_eval(0, rad, 0);
    assert(abs_int(rad * 1_000_000) == 1_000_000 * rad) by (nonlinear_arith)
        requires
            rad > 0,
    ;
    vstd::arithmetic::div_mod::lemma_div_multiples_vanish(1_000_000, rad);
    crate::fixed::lemma_fx_mul_div_exact(-1_000_000, 1_000_000, -1_000_000);
    crate::fixed::lemma_fx_mul_div_exact(0, 1_000_000, 0);
}

/// A ray running perpendicular to the line toward a sphere's center,
/// offset farther than the radius, misses it: whenever the half-offset
/// dot vanishes and the center lies strictly beyond the radius, no
/// parameter from a window of nonnegative entries is accepted.
pub proof fn lemma_perpendicular_ray_misses(s: Sphere, r: Ray, ray_t: Interval)
    requires
        spec_dot(spec_sub(r.orig, s.center), r.dir) == 0,
        spec_len_sq(spec_sub(r.orig, s.center)) > fx_mul(s.radius as int, s.radius as int),
        ray_t.min >= 0,
    ensures
        spec_sphere_hit(s, r, ray_t) is None,
{
    let oc = spec_sub(r.orig, s.center);
    let a = spec_len_sq(r.dir);
    let c = fx_sub(spec_len_sq(oc), fx_mul(s.radius as int, s.radius as int));
    crate::vec3::lemma_len_sq_nonneg(r.dir);
    crate::vec3::lemma_len_sq_nonneg(oc);
    crate::fixed::lemma_fx_mul_square_nonneg(s.radius as int);
    assert(c > 0);
    // The half-offset term of the discriminant vanishes ...
    crate::fixed::lemma_tdiv_eval(0, 1_000_000, 0);
    assert(fx_mul(0, 0) == 0);
    // ... so the discriminant is the negated scaled product of the
    // direction's squared length with the positive center margin.
    let m = fx_mul(a, c);
    assert(0 <= a * c) by (nonlinear_arith)
        requires
            0 <= a,
            0 < c,
    ;
    crate::fixed::lemma_tdiv_nonneg(a * c, 1_000_000);
    assert(m >= 0);
    if m == 0 {
        // A vanishing product leaves a zero discriminant whose only
        // root is zero, which a window of nonnegative entries excludes.
        assert(fx_neg(0) == 0 && fx_sub(0int, 0int) == 0 && fx_add(0int, 0int) == 0);
        if a != 0 {
            crate::fixed::lemma_tdiv_eval(0, a, 0);
        }
        assert(fx_div(0, a) == 0);
    }
}

/// A hit record's stored normal is near unit length whenever the
/// reported position lies on the sphere's surface up to the scale's
/// rounding: for a positive radius between a tenth of a unit and two
/// million units, and a position whose squared offset from the center
/// matches the radius' scalar square within ten millionths, the
/// normal's squared length lands within 1500 millionths of one and its
/// length within 751.  (A negative radius flips the normal's sign
/// componentwise; the same bound then follows from the flip's symmetry,
/// which this lemma does not restate.)
pub proof fn lemma_record_normal_near_unit(s: Sphere, r: Ray, root: int)
    requires
        100_000 <= s.radius <= 2_000_000_000_000,
        abs_int(spec_sub(spec_at(r, root), s.center).x as int) <= 1_000_000_000_000,
        abs_int(spec_sub(spec_at(r, root), s.center).y as int) <= 1_000_000_000_000,
        abs_int(spec_sub(spec_at(r, root), s.center).z as int) <= 1_000_000_000_000,
        abs_int(spec_len_sq(spec_sub(spec_at(r, root), s.center)) - fx_mul(
            s.radius as int,
            s.radius as int,
        )) <= 10,
    ensures
        abs_int(spec_len_sq(spec_sphere_record(s, r, root).normal) - 1_000_000) <= 1_500,
        abs_int(fx_sqrt(spec_len_sq(spec_sphere_record(s, r, root).normal)) - 1_000_000) <= 751,
{
    let q = spec_sub(spec_at(r, root), s.center);
    crate::vec3::lemma_division_near_unit(q, s.radius as int);
    let outward = spec_div(q, s.radius as int);
    let rec = spec_sphere_record(s, r, root);
    if rec.normal == outward {
    } else {
        crate::vec3::lemma_len_sq_neg(outward);
    }
}

/// An accepted hit's parameter lies strictly inside the query interval.
pub proof fn lemma_sphere_hit_t(s: Sphere, r: Ray, ray_t: Interval, rec: HitRecord)
    requires
        spec_sphere_hit(s, r, ray_t) == Some(rec),
    ensures
        spec_surrounds(ray_t, rec.t as int),
{
}

/// The two candidate roots, in order: the one built from subtracting
/// the root of the discriminant never exceeds the other.
proof fn lemma_sphere_roots_ordered(s: Sphere, r: Ray)
    ensures
        ({
            let oc = spec_sub(r.orig, s.center);
            let a = spec_len_sq(r.dir);
            let half_b = spec_dot(oc, r.dir);
            let c = fx_sub(spec_len_sq(oc), fx_mul(s.radius as int, s.radius as int));
            let disc = fx_sub(fx_mul(half_b, half_b), fx_mul(a, c));
            let sqrtd = fx_sqrt(disc);
            fx_div(fx_sub(fx_neg(half_b), sqrtd), a) <= fx_div(fx_add(fx_neg(half_b), sqrtd), a)
        }),
{
    let oc = spec_sub(r.orig, s.center);
    let a = spec_len_sq(r.dir);
    let half_b = spec_dot(oc, r.dir);
    let c = fx_sub(spec_len_sq(oc), fx_mul(s.radius as int, s.radius as int));
    let disc = fx_sub(fx_mul(half_b, half_b), fx_mul(a, c));
    let sqrtd = fx_sqrt(disc);
    crate::vec3::lemma_len_sq_nonneg(r.dir);
    crate::fixed::lemma_fx_sqrt_nonneg(disc);
    crate::fixed::lemma_fx_div_monotone(fx_sub(fx_neg(half_b), sqrtd), fx_add(fx_neg(half_b), sqrtd), a);
}

/// Widening the far end of the query interval keeps an accepted hit.
pub proof fn lemma_sphere_hit_widen(s: Sphere, r: Ray, tmin: i64, c: i64, tmax: i64, rec: HitRecord)
    requires
        c <= tmax,
        spec_sphere_hit(s, r, Interval { min: tmin, max: c }) == Some(rec),
    ensures
        spec_sphere_hit(s, r, Interval { min: tmin, max: tmax }) == Some(rec),
{
    lemma_sphere_roots_ordered(s, r);
}

/// If the query interval shrunk at its far end reports no hit, the full
/// interval reports either no hit or one at least as far as the cut.
pub proof fn lemma_sphere_hit_shrink_none(s: Sphere, r: Ray, tmin: i64, c: i64, tmax: i64)
    requires
        c <= tmax,
        spec_sphere_hit(s, r, Interval { min: tmin, max: c }) is None,
    ensures
        match spec_sphere_hit(s, r, Interval { min: tmin, max: tmax }) {
            None => true,
            Some(h) => h.t >= c,
        },
{
}

impl Sphere {
    /// The nearest intersection of `ray` with this sphere strictly
    /// inside `ray_t`, or no hit.
    pub fn hit(&self, ray: &Ray, ray_t: Interval) -> (res: Option<HitRecord>)
        ensures
            res == spec_sphere_hit(*self, *ray, ray_t),
    {
        let oc = ray.origin().sub(&self.center);
        let a = ray.direction().length_squared();
        let half_b = dot(&oc, &ray.direction());
        let c = fxsub(oc.length_squared(), fxmul(self.radius, self.radius));

        let discriminant = fxsub(fxmul(half_b, half_b), fxmul(a, c));
        if discriminant < 0 {
            return None;
        }
        let sqrtd = fxsqrt(discriminant);

        let mut root = fxdiv(fxsub(fxneg(half_b), sqrtd), a);
        if !ray_t.surrounds(root) {
            root = fxdiv(fxadd(fxneg(half_b), sqrtd), a);
            if !ray_t.surrounds(root) {
                return None;
            }
        }

        let mut rec = HitRecord::new();
        rec.t = root;
        rec.p = ray.at(rec.t);
        let outward_normal = rec.p.sub(&self.center).div(self.radius);
        rec.set_face_normal(ray, outward_normal);
        rec.mat = self.mat;

        Some(rec)
    }
}

} // verus!
