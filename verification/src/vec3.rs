//! Three-component vectors over the fixed-point scalar.
//!
//! `Vec3` doubles as a spatial point (`Point3`) and as a radiance or albedo
//! triple (`Color`).  Every operation is specified exactly by a spec
//! function built from the scalar model in `fixed`.

use vstd::prelude::*;

use crate::fixed::{
    abs_int, fx_add, fx_div, fx_mul, fx_neg, fx_sqrt, fx_sub, fxadd, fxdiv, fxmin, fxmul, fxneg,
    fxsqrt, fxsub, sat, ONE,
};
use crate::hittable::Interval;
use crate::utils::{random_double, random_double_range, Rng};

verus! {

/// The scalar two, for the reflection formula.
pub const TWO: i64 = 2_000_000;

/// The scalar one half.
pub const HALF: i64 = 500_000;

/// A three-component vector of fixed-point scalars.
#[derive(Clone, Copy, Debug)]
pub struct Vec3 {
    pub x: i64,
    pub y: i64,
    pub z: i64,
}

/// A color triple (red, green, blue radiance or albedo).
pub type Color = Vec3;

/// A point in space.
pub type Point3 = Vec3;

/// Build a vector from three already-saturated model scalars.
pub open spec fn v3(x: int, y: int, z: int) -> Vec3 {
    Vec3 { x: x as i64, y: y as i64, z: z as i64 }
}

/// Componentwise saturating sum.
pub open spec fn spec_add(u: Vec3, v: Vec3) -> Vec3 {
    v3(fx_add(u.x as int, v.x as int), fx_add(u.y as int, v.y as int), fx_add(u.z as int, v.z as int))
}

/// Componentwise saturating difference.
pub open spec fn spec_sub(u: Vec3, v: Vec3) -> Vec3 {
    v3(fx_sub(u.x as int, v.x as int), fx_sub(u.y as int, v.y as int), fx_sub(u.z as int, v.z as int))
}

/// Componentwise negation.
pub open spec fn spec_neg(u: Vec3) -> Vec3 {
    v3(fx_neg(u.x as int), fx_neg(u.y as int), fx_neg(u.z as int))
}

/// Componentwise saturating product (albedo tinting).
pub open spec fn spec_mul(u: Vec3, v: Vec3) -> Vec3 {
    v3(fx_mul(u.x as int, v.x as int), fx_mul(u.y as int, v.y as int), fx_mul(u.z as int, v.z as int))
}

/// The vector scaled by a scalar.
pub open spec fn spec_scale(u: Vec3, s: int) -> Vec3 {
    v3(fx_mul(u.x as int, s), fx_mul(u.y as int, s), fx_mul(u.z as int, s))
}

/// The vector divided by a scalar.
pub open spec fn spec_div(u: Vec3, s: int) -> Vec3 {
    v3(fx_div(u.x as int, s), fx_div(u.y as int, s), fx_div(u.z as int, s))
}

/// The dot product of two vectors.
pub open spec fn spec_dot(u: Vec3, v: Vec3) -> int {
    fx_add(
        fx_add(fx_mul(u.x as int, v.x as int), fx_mul(u.y as int, v.y as int)),
        fx_mul(u.z as int, v.z as int),
    )
}

/// The cross product of two vectors.
pub open spec fn spec_cross(u: Vec3, v: Vec3) -> Vec3 {
    v3(
        fx_sub(fx_mul(u.y as int, v.z as int), fx_mul(u.z as int, v.y as int)),
        fx_sub(fx_mul(u.z as int, v.x as int), fx_mul(u.x as int, v.z as int)),
        fx_sub(fx_mul(u.x as int, v.y as int), fx_mul(u.y as int, v.x as int)),
    )
}

/// The squared length of a vector.
pub open spec fn spec_len_sq(u: Vec3) -> int {
    spec_dot(u, u)
}

/// The length of a vector.
pub open spec fn spec_length(u: Vec3) -> int {
    fx_sqrt(spec_len_sq(u))
}

/// The vector rescaled to unit length (division by a zero length
/// saturates, as the scalar model defines).
pub open spec fn spec_unit(u: Vec3) -> Vec3 {
    spec_div(u, spec_length(u))
}

/// A well-formed color: every channel lies in [0, 1].
pub open spec fn spec_color_wf(c: Color) -> bool {
    &&& 0 <= c.x <= ONE
    &&& 0 <= c.y <= ONE
    &&& 0 <= c.z <= ONE
}

/// Whether every component vanishes at the scale's resolution.  The
/// near-zero threshold is below one millionth, so only zero qualifies.
pub open spec fn spec_near_zero(u: Vec3) -> bool {
    u.x == 0 && u.y == 0 && u.z == 0
}

/// The reflection of `v` about the plane with normal `n`.
pub open spec fn spec_reflect(v: Vec3, n: Vec3) -> Vec3 {
    spec_sub(v, spec_scale(n, fx_mul(TWO as int, spec_dot(v, n))))
}

/// Snell's-law refraction of the unit direction `uv` at normal `n` with
/// refractive-index ratio `etai_over_etat`.
pub open spec fn spec_refract(uv: Vec3, n: Vec3, etai_over_etat: int) -> Vec3 {
    let cos_theta = if spec_dot(spec_neg(uv), n) <= ONE as int {
        spec_dot(spec_neg(uv), n)
    } else {
        ONE as int
    };
    let r_out_perp = spec_scale(spec_add(uv, spec_scale(n, cos_theta)), etai_over_etat);
    let r_out_parallel = spec_scale(
        n,
        fx_neg(fx_sqrt(sat(abs_int(fx_sub(ONE as int, spec_len_sq(r_out_perp)))))),
    );
    spec_add(r_out_perp, r_out_parallel)
}

impl Vec3 {
    /// The zero vector.
    pub fn new() -> (r: Self)
        ensures
            r == (Vec3 { x: 0i64, y: 0i64, z: 0i64 }),
    {
        Self { x: 0, y: 0, z: 0 }
    }

    /// A vector with the given components.
    pub fn from(e0: i64, e1: i64, e2: i64) -> (r: Self)
        ensures
            r == (Vec3 { x: e0, y: e1, z: e2 }),
    {
        Self { x: e0, y: e1, z: e2 }
    }

    /// The first component.
    pub fn x(&self) -> (r: i64)
        ensures
            r == self.x,
    {
        self.x
    }

    /// The second component.
    pub fn y(&self) -> (r: i64)
        ensures
            r == self.y,
    {
        self.y
    }

    /// The third component.
    pub fn z(&self) -> (r: i64)
        ensures
            r == self.z,
    {
        self.z
    }

    /// Componentwise saturating sum.
    pub fn add(&self, rhs: &Vec3) -> (r: Vec3)
        ensures
            r == spec_add(*self, *rhs),
    {
        Vec3 { x: fxadd(self.x, rhs.x), y: fxadd(self.y, rhs.y), z: fxadd(self.z, rhs.z) }
    }

    /// Componentwise saturating difference.
    pub fn sub(&self, rhs: &Vec3) -> (r: Vec3)
        ensures
            r == spec_sub(*self, *rhs),
    {
        Vec3 { x: fxsub(self.x, rhs.x), y: fxsub(self.y, rhs.y), z: fxsub(self.z, rhs.z) }
    }

    /// Componentwise negation.
    pub fn neg(&self) -> (r: Vec3)
        ensures
            r == spec_neg(*self),
    {
        Vec3 { x: fxneg(self.x), y: fxneg(self.y), z: fxneg(self.z) }
    }

    /// Componentwise saturating product.
    pub fn mul(&self, rhs: &Vec3) -> (r: Vec3)
        ensures
            r == spec_mul(*self, *rhs),
    {
        Vec3 { x: fxmul(self.x, rhs.x), y: fxmul(self.y, rhs.y), z: fxmul(self.z, rhs.z) }
    }

    /// The vector scaled by a scalar.
    pub fn scale(&self, s: i64) -> (r: Vec3)
        ensures
            r == spec_scale(*self, s as int),
    {
        Vec3 { x: fxmul(self.x, s), y: fxmul(self.y, s), z: fxmul(self.z, s) }
    }

    /// The vector divided by a scalar.
    pub fn div(&self, s: i64) -> (r: Vec3)
        ensures
            r == spec_div(*self, s as int),
    {
        Vec3 { x: fxdiv(self.x, s), y: fxdiv(self.y, s), z: fxdiv(self.z, s) }
    }

    /// The squared length.
    pub fn length_squared(&self) -> (r: i64)
        ensures
            r as int == spec_len_sq(*self),
    {
        fxadd(fxadd(fxmul(self.x, self.x), fxmul(self.y, self.y)), fxmul(self.z, self.z))
    }

    /// The length.
    pub fn length(&self) -> (r: i64)
        ensures
            r as int == spec_length(*self),
    {
        fxsqrt(self.length_squared())
    }

    /// A vector whose components are drawn from [0, 1).
    pub fn random(rng: &mut Rng) -> (r: Self)
        ensures
            0 <= r.x < ONE,
            0 <= r.y < ONE,
            0 <= r.z < ONE,
    {
        let e0 = random_double(rng);
        let e1 = random_double(rng);
        let e2 = random_double(rng);
        Self { x: e0, y: e1, z: e2 }
    }

    /// A vector whose components are drawn from [`min`, `max`).
    pub fn random_in(rng: &mut Rng, min: i64, max: i64) -> (r: Vec3)
        requires
            crate::fixed::FX_MIN <= min < max,
        ensures
            min <= r.x < max,
            min <= r.y < max,
            min <= r.z < max,
    {
        let e0 = random_double_range(rng, min, max);
        let e1 = random_double_range(rng, min, max);
        let e2 = random_double_range(rng, min, max);
        Self { x: e0, y: e1, z: e2 }
    }

    /// Whether the vector is close to zero in all dimensions; at this
    /// scale's resolution only exact zero is.
    pub fn near_zero(&self) -> (r: bool)
        ensures
            r == spec_near_zero(*self),
    {
        self.x == 0 && self.y == 0 && self.z == 0
    }
}

/// The squared-length floor for accepted ball samples: a tenth of a
/// unit of length.  Samples below it would normalize degenerately at
/// this resolution, so the rejection loop discards them, as it discards
/// points outside the ball.
pub const SAMPLE_FLOOR: i64 = 10_000;

/// An admissible unit-ball sample: inside the open unit ball, above the
/// resolution floor, with components within one unit.
pub open spec fn spec_ball_sample(p: Vec3) -> bool {
    &&& SAMPLE_FLOOR as int <= spec_len_sq(p) < ONE as int
    &&& abs_int(p.x as int) <= ONE as int
    &&& abs_int(p.y as int) <= ONE as int
    &&& abs_int(p.z as int) <= ONE as int
}

/// A sample above the floor is at least a tenth of a unit long.
pub proof fn lemma_ball_sample_length(p: Vec3)
    requires
        spec_ball_sample(p),
    ensures
        100_000 <= spec_length(p),
        spec_length(p) <= ONE as int,
{
    crate::fixed::lemma_sqrt_floor_bounds(spec_len_sq(p) * 1_000_000);
    let l = spec_length(p);
    assert(100_000 <= l) by (nonlinear_arith)
        requires
            spec_len_sq(p) * 1_000_000 < (l + 1) * (l + 1),
            spec_len_sq(p) >= 10_000,
            l >= 0,
    ;
    assert(l <= 1_000_000) by (nonlinear_arith)
        requires
            l * l <= spec_len_sq(p) * 1_000_000,
            spec_len_sq(p) < 1_000_000,
            l >= 0,
    ;
}

/// A point drawn from the open unit ball, above the resolution floor,
/// by rejection sampling.  The draw loop is capped; if every draw is
/// rejected the point half a unit along the first axis is used, which
/// satisfies the bounds as well.
pub fn random_in_unit_sphere(rng: &mut Rng) -> (r: Vec3)
    ensures
        spec_ball_sample(r),
{
    let mut i: u32 = 0;
    while i < 64
        invariant
            i <= 64,
        decreases 64 - i,
    {
        let p = Vec3::random_in(rng, -ONE, ONE);
        let lsq = p.length_squared();
        if SAMPLE_FLOOR <= lsq && lsq < ONE {
            return p;
        }
        i = i + 1;
    }
    let fallback = Vec3::from(HALF, 0, 0);
    proof {
        crate::fixed::lemma_tdiv_eval(250_000_000_000, 1_000_000, 250_000);
        crate::fixed::lemma_tdiv_eval(0, 1_000_000, 0);
        assert(spec_len_sq(fallback) == 250_000);
    }
    fallback
}

/// A random unit-length vector: a unit-ball sample above the
/// resolution floor, normalized, so the result's length is within a few
/// hundred millionths of one.
pub fn random_unit_vector(rng: &mut Rng) -> (r: Vec3)
    ensures
        exists|p: Vec3| spec_ball_sample(p) && r == spec_unit(p),
        abs_int(spec_len_sq(r) - ONE as int) <= 332,
        abs_int(spec_length(r) - ONE as int) <= 167,
{
    let p = random_in_unit_sphere(rng);
    let u = unit_vector(p);
    proof {
        assert(spec_ball_sample(p) && u == spec_unit(p));
        lemma_ball_sample_length(p);
        lemma_normalization_near_unit(p);
    }
    u
}

/// A unit-ball sample on the side of `normal`, if the sample is not on
/// it, its negation.
pub open spec fn spec_hemisphere(normal: Vec3, p: Vec3) -> Vec3 {
    if spec_dot(p, normal) > 0 {
        p
    } else {
        spec_neg(p)
    }
}

/// A random unit-ball point oriented into the hemisphere around `normal`.
pub fn random_on_hemisphere(rng: &mut Rng, normal: &Vec3) -> (r: Vec3)
    ensures
        exists|p: Vec3| spec_ball_sample(p) && r == spec_hemisphere(*normal, p),
{
    let on_unit_sphere = random_in_unit_sphere(rng);
    let r = if dot(&on_unit_sphere, normal) > 0 {
        on_unit_sphere
    } else {
        on_unit_sphere.neg()
    };
    proof {
        assert(spec_ball_sample(on_unit_sphere) && r == spec_hemisphere(
            *normal,
            on_unit_sphere,
        ));
    }
    r
}

/// A point drawn from the open unit disk in the first two axes, by
/// rejection sampling with the same cap and fallback as the ball.
pub fn random_in_unit_disk(rng: &mut Rng) -> (r: Vec3)
    ensures
        spec_len_sq(r) < ONE as int,
        r.z == 0,
{
    let mut i: u32 = 0;
    while i < 64
        invariant
            i <= 64,
        decreases 64 - i,
    {
        let e0 = random_double_range(rng, -ONE, ONE);
        let e1 = random_double_range(rng, -ONE, ONE);
        let p = Vec3::from(e0, e1, 0);
        if p.length_squared() < ONE {
            return p;
        }
        i = i + 1;
    }
    let fallback = Vec3::from(HALF, 0, 0);
    proof {
        crate::fixed::lemma_tdiv_eval(250_000_000_000, 1_000_000, 250_000);
        crate::fixed::lemma_tdiv_eval(0, 1_000_000, 0);
        assert(spec_len_sq(fallback) == 250_000);
    }
    fallback
}

/// A vector of length one normalizes to itself, so the length of its
/// normalization is exactly one.
pub proof fn lemma_unit_vector_length(v: Vec3)
    requires
        spec_length(v) == ONE as int,
        crate::fixed::FX_MIN <= v.x,
        crate::fixed::FX_MIN <= v.y,
        crate::fixed::FX_MIN <= v.z,
    ensures
        spec_unit(v) == v,
        spec_length(spec_unit(v)) == ONE as int,
{
    crate::fixed::lemma_fx_div_one(v.x as int);
    crate::fixed::lemma_fx_div_one(v.y as int);
    crate::fixed::lemma_fx_div_one(v.z as int);
}

/// One normalized component: dividing a component by a length of at
/// least one lands within one part of the true ratio and stays within a
/// hair of one unit in magnitude.
proof fn lemma_unit_component(vi: int, l: int)
    requires
        100_000 <= l,
        abs_int(vi) <= l + 70,
    ensures
        fx_div(vi, l) == crate::fixed::tdiv(vi * 1_000_000, l),
        abs_int(fx_div(vi, l)) <= 1_000_701,
        abs_int(l * fx_div(vi, l) - vi * 1_000_000) < l,
{
    crate::fixed::lemma_tdiv_err(vi * 1_000_000, l);
    let t = crate::fixed::tdiv(vi * 1_000_000, l);
    assert(abs_int(vi * 1_000_000) <= (l + 70) * 1_000_000) by (nonlinear_arith)
        requires
            abs_int(vi) <= l + 70,
    ;
    assert(abs_int(t) <= 1_000_701) by (nonlinear_arith)
        requires
            100_000 <= l,
            abs_int(l * t - vi * 1_000_000) < l,
            abs_int(vi * 1_000_000) <= (l + 70) * 1_000_000,
    ;
}

/// Normalizing any vector at least a tenth of a unit long (components
/// within a million units) yields a vector whose squared length and
/// length land within a few hundred millionths of one.
pub proof fn lemma_normalization_near_unit(v: Vec3)
    requires
        abs_int(v.x as int) <= 1_000_000_000_000,
        abs_int(v.y as int) <= 1_000_000_000_000,
        abs_int(v.z as int) <= 1_000_000_000_000,
        100_000 <= spec_length(v),
    ensures
        abs_int(spec_len_sq(spec_unit(v)) - ONE as int) <= 332,
        abs_int(spec_length(spec_unit(v)) - ONE as int) <= 167,
        abs_int(spec_unit(v).x as int) <= 1_000_701,
        abs_int(spec_unit(v).y as int) <= 1_000_701,
        abs_int(spec_unit(v).z as int) <= 1_000_701,
{
    let s = 1_000_000int;
    let vx = v.x as int;
    let vy = v.y as int;
    let vz = v.z as int;

    // The squared length before normalization, and what its component
    // truncations dropped.
    assert(0 <= vx * vx <= 1_000_000_000_000_000_000_000_000 && 0 <= vy * vy
        <= 1_000_000_000_000_000_000_000_000 && 0 <= vz * vz
        <= 1_000_000_000_000_000_000_000_000) by (nonlinear_arith)
        requires
            abs_int(vx) <= 1_000_000_000_000,
            abs_int(vy) <= 1_000_000_000_000,
            abs_int(vz) <= 1_000_000_000_000,
    ;
    crate::fixed::lemma_tdiv_floor(vx * vx, s);
    crate::fixed::lemma_tdiv_floor(vy * vy, s);
    crate::fixed::lemma_tdiv_floor(vz * vz, s);
    let q = spec_len_sq(v);
    assert(q == crate::fixed::tdiv(vx * vx, s) + crate::fixed::tdiv(vy * vy, s)
        + crate::fixed::tdiv(vz * vz, s));
    let r = (vx * vx + vy * vy + vz * vz) - s * q;
    assert(0 <= r < 3 * s);

    // The length brackets the scaled squared length.
    let l = spec_length(v);
    assert(q > 0);
    crate::fixed::lemma_sqrt_floor_bounds(q * s);
    assert(l * l <= q * s < (l + 1) * (l + 1));
    let ll = l * l;
    assert(10_000_000_000 <= ll) by (nonlinear_arith)
        requires
            l >= 100_000,
            ll == l * l,
    ;
    assert(s * q <= ll + 2 * l + 1) by (nonlinear_arith)
        requires
            q * s < (l + 1) * (l + 1),
            ll == l * l,
            q * s == s * q,
    ;

    // No component can exceed the length by more than a few parts.
    assert(vx * vx <= ll + 2 * l + 1 + 3 * s);
    assert(vy * vy <= ll + 2 * l + 1 + 3 * s);
    assert(vz * vz <= ll + 2 * l + 1 + 3 * s);
    assert(abs_int(vx) <= l + 16 && abs_int(vy) <= l + 16 && abs_int(vz) <= l + 16)
        by (nonlinear_arith)
        requires
            vx * vx <= ll + 2 * l + 1 + 3 * s,
            vy * vy <= ll + 2 * l + 1 + 3 * s,
            vz * vz <= ll + 2 * l + 1 + 3 * s,
            s == 1_000_000,
            l >= 100_000,
            ll == l * l,
    ;

    // The normalized components and what their truncations dropped.
    lemma_unit_component(vx, l);
    lemma_unit_component(vy, l);
    lemma_unit_component(vz, l);
    let ux = fx_div(vx, l);
    let uy = fx_div(vy, l);
    let uz = fx_div(vz, l);
    let sx = vx * s - l * ux;
    let sy = vy * s - l * uy;
    let sz = vz * s - l * uz;

    // Clearing the denominator: the squared normalized components.
    assert(ll * (ux * ux) == s * s * (vx * vx) - 2 * s * (vx * sx) + sx * sx
        && abs_int(vx * sx) <= (l + 16) * l && 0 <= sx * sx <= ll) by (nonlinear_arith)
        requires
            l * ux == vx * s - sx,
            ll == l * l,
            abs_int(sx) <= l,
            abs_int(vx) <= l + 16,
            0 < l,
    ;
    assert(ll * (uy * uy) == s * s * (vy * vy) - 2 * s * (vy * sy) + sy * sy
        && abs_int(vy * sy) <= (l + 16) * l && 0 <= sy * sy <= ll) by (nonlinear_arith)
        requires
            l * uy == vy * s - sy,
            ll == l * l,
            abs_int(sy) <= l,
            abs_int(vy) <= l + 16,
            0 < l,
    ;
    assert(ll * (uz * uz) == s * s * (vz * vz) - 2 * s * (vz * sz) + sz * sz
        && abs_int(vz * sz) <= (l + 16) * l && 0 <= sz * sz <= ll) by (nonlinear_arith)
        requires
            l * uz == vz * s - sz,
            ll == l * l,
            abs_int(sz) <= l,
            abs_int(vz) <= l + 16,
            0 < l,
    ;

    let xx = ux * ux + uy * uy + uz * uz;
    assert(ll * xx == ll * (ux * ux) + ll * (uy * uy) + ll * (uz * uz)) by (nonlinear_arith)
        requires
            xx == ux * ux + uy * uy + uz * uz,
    ;
    assert(s * s * (vx * vx) + s * s * (vy * vy) + s * s * (vz * vz) == s * s * s * q + s * s * r)
        by (nonlinear_arith)
        requires
            vx * vx + vy * vy + vz * vz == s * q + r,
    ;
    assert(s * s * s * q == s * s * (s * q)) by (nonlinear_arith);

    // Every deviation from one, with the denominator still cleared.
    assert((l + 16) * l == ll + 16 * l && ll >= 100_000 * l) by (nonlinear_arith)
        requires
            ll == l * l,
            l >= 100_000,
    ;
    assert(ll * xx - s * s * ll == (s * s * (s * q) - s * s * ll) + s * s * r - 2 * s * (vx * sx
        + vy * sy + vz * sz) + (sx * sx + sy * sy + sz * sz));
    assert(abs_int(ll * xx - s * s * ll) <= 329 * s * ll);
    assert(abs_int(xx - s * s) <= 329 * s) by (nonlinear_arith)
        requires
            abs_int(ll * xx - s * s * ll) <= 329 * s * ll,
            ll >= 1,
    ;

    // The squared length of the normalized vector.
    let u = spec_unit(v);
    assert(u.x as int == ux && u.y as int == uy && u.z as int == uz);
    assert(0 <= ux * ux <= 1_001_402_491_401 && 0 <= uy * uy <= 1_001_402_491_401 && 0 <= uz * uz
        <= 1_001_402_491_401) by (nonlinear_arith)
        requires
            abs_int(ux) <= 1_000_701,
            abs_int(uy) <= 1_000_701,
            abs_int(uz) <= 1_000_701,
    ;
    crate::fixed::lemma_tdiv_floor(ux * ux, s);
    crate::fixed::lemma_tdiv_floor(uy * uy, s);
    crate::fixed::lemma_tdiv_floor(uz * uz, s);
    let w = spec_len_sq(u);
    assert(w == crate::fixed::tdiv(ux * ux, s) + crate::fixed::tdiv(uy * uy, s)
        + crate::fixed::tdiv(uz * uz, s));
    assert(abs_int(w - s) <= 332);

    // And its length, bracketed around one.
    let n2 = w * s;
    assert(999_668_000_000 <= n2 <= 1_000_332_000_000);
    crate::fixed::lemma_sqrt_floor_bounds(n2);
    let lu = spec_length(u);
    assert(lu == crate::fixed::sqrt_floor(n2));
    assert(lu >= 999_833) by (nonlinear_arith)
        requires
            n2 < (lu + 1) * (lu + 1),
            n2 >= 999_668_000_000,
            lu >= 0,
    ;
    assert(lu <= 1_000_166) by (nonlinear_arith)
        requires
            lu * lu <= n2,
            n2 <= 1_000_332_000_000,
            lu >= 0,
    ;
}

/// Negating a vector of representable components keeps its squared
/// length.
pub proof fn lemma_len_sq_neg(v: Vec3)
    requires
        crate::fixed::FX_MIN <= v.x,
        crate::fixed::FX_MIN <= v.y,
        crate::fixed::FX_MIN <= v.z,
    ensures
        spec_len_sq(spec_neg(v)) == spec_len_sq(v),
{
    assert((-(v.x as int)) * (-(v.x as int)) == (v.x as int) * (v.x as int)) by (nonlinear_arith);
    assert((-(v.y as int)) * (-(v.y as int)) == (v.y as int) * (v.y as int)) by (nonlinear_arith);
    assert((-(v.z as int)) * (-(v.z as int)) == (v.z as int) * (v.z as int)) by (nonlinear_arith);
}

/// A vector lying on the sphere of a given radius, up to the scale's
/// rounding, divides by that radius to nearly unit length: for a radius
/// between a tenth of a unit and two million units, and an offset whose
/// squared length matches the radius' scalar square within ten
/// millionths, the quotient's squared length lands within 1500
/// millionths of one and its length within 751.
#[verifier::rlimit(100)]
pub proof fn lemma_division_near_unit(q: Vec3, d: int)
    requires
        abs_int(q.x as int) <= 1_000_000_000_000,
        abs_int(q.y as int) <= 1_000_000_000_000,
        abs_int(q.z as int) <= 1_000_000_000_000,
        100_000 <= d <= 2_000_000_000_000,
        abs_int(spec_len_sq(q) - fx_mul(d, d)) <= 10,
    ensures
        abs_int(spec_len_sq(spec_div(q, d)) - ONE as int) <= 1_500,
        abs_int(fx_sqrt(spec_len_sq(spec_div(q, d))) - ONE as int) <= 751,
{
    let s = 1_000_000int;
    let vx = q.x as int;
    let vy = q.y as int;
    let vz = q.z as int;

    // The squared length, and what its component truncations dropped.
    assert(0 <= vx * vx <= 1_000_000_000_000_000_000_000_000 && 0 <= vy * vy
        <= 1_000_000_000_000_000_000_000_000 && 0 <= vz * vz
        <= 1_000_000_000_000_000_000_000_000) by (nonlinear_arith)
        requires
            abs_int(vx) <= 1_000_000_000_000,
            abs_int(vy) <= 1_000_000_000_000,
            abs_int(vz) <= 1_000_000_000_000,
    ;
    crate::fixed::lemma_tdiv_floor(vx * vx, s);
    crate::fixed::lemma_tdiv_floor(vy * vy, s);
    crate::fixed::lemma_tdiv_floor(vz * vz, s);
    let lsq = spec_len_sq(q);
    assert(lsq == crate::fixed::tdiv(vx * vx, s) + crate::fixed::tdiv(vy * vy, s)
        + crate::fixed::tdiv(vz * vz, s));
    let r = (vx * vx + vy * vy + vz * vz) - s * lsq;
    assert(0 <= r < 3 * s);

    // The radius' own scalar square and its truncation.
    assert(0 <= d * d <= 4_000_000_000_000_000_000_000_000) by (nonlinear_arith)
        requires
            100_000 <= d <= 2_000_000_000_000,
    ;
    crate::fixed::lemma_tdiv_floor(d * d, s);
    assert(fx_mul(d, d) == crate::fixed::tdiv(d * d, s));
    let ll = d * d;
    let rd = ll - s * fx_mul(d, d);
    assert(0 <= rd < s);
    let delta = (vx * vx + vy * vy + vz * vz) - ll;
    assert(abs_int(delta) <= 14 * s);
    assert(10_000_000_000 <= ll && ll >= 100_000 * d && (d + 70) * d == ll + 70 * d)
        by (nonlinear_arith)
        requires
            d >= 100_000,
            ll == d * d,
    ;

    // No component can exceed the radius by more than a few parts.
    assert(vx * vx <= ll + 14 * s);
    assert(vy * vy <= ll + 14 * s);
    assert(vz * vz <= ll + 14 * s);
    assert(abs_int(vx) <= d + 70 && abs_int(vy) <= d + 70 && abs_int(vz) <= d + 70)
        by (nonlinear_arith)
        requires
            vx * vx <= ll + 14_000_000,
            vy * vy <= ll + 14_000_000,
            vz * vz <= ll + 14_000_000,
            d >= 100_000,
            ll == d * d,
    ;

    // The quotient components and what their truncations dropped.
    lemma_unit_component(vx, d);
    lemma_unit_component(vy, d);
    lemma_unit_component(vz, d);
    let ux = fx_div(vx, d);
    let uy = fx_div(vy, d);
    let uz = fx_div(vz, d);
    let sx = vx * s - d * ux;
    let sy = vy * s - d * uy;
    let sz = vz * s - d * uz;

    // Clearing the denominator: the squared quotient components.
    assert(ll * (ux * ux) == s * s * (vx * vx) - 2 * s * (vx * sx) + sx * sx
        && abs_int(vx * sx) <= (d + 70) * d && 0 <= sx * sx <= ll) by (nonlinear_arith)
        requires
            d * ux == vx * s - sx,
            ll == d * d,
            abs_int(sx) <= d,
            abs_int(vx) <= d + 70,
            0 < d,
    ;
    assert(ll * (uy * uy) == s * s * (vy * vy) - 2 * s * (vy * sy) + sy * sy
        && abs_int(vy * sy) <= (d + 70) * d && 0 <= sy * sy <= ll) by (nonlinear_arith)
        requires
            d * uy == vy * s - sy,
            ll == d * d,
            abs_int(sy) <= d,
            abs_int(vy) <= d + 70,
            0 < d,
    ;
    assert(ll * (uz * uz) == s * s * (vz * vz) - 2 * s * (vz * sz) + sz * sz
        && abs_int(vz * sz) <= (d + 70) * d && 0 <= sz * sz <= ll) by (nonlinear_arith)
        requires
            d * uz == vz * s - sz,
            ll == d * d,
            abs_int(sz) <= d,
            abs_int(vz) <= d + 70,
            0 < d,
    ;

    let xx = ux * ux + uy * uy + uz * uz;
    assert(ll * xx == ll * (ux * ux) + ll * (uy * uy) + ll * (uz * uz)) by (nonlinear_arith)
        requires
            xx == ux * ux + uy * uy + uz * uz,
    ;
    assert(s * s * (vx * vx) + s * s * (vy * vy) + s * s * (vz * vz) == s * s * ll + s * s * delta)
        by (nonlinear_arith)
        requires
            vx * vx + vy * vy + vz * vz == ll + delta,
    ;

    // Every deviation from one, with the denominator still cleared.
    assert(ll * xx - s * s * ll == s * s * delta - 2 * s * (vx * sx + vy * sy + vz * sz) + (sx
        * sx + sy * sy + sz * sz));
    assert(abs_int(ll * xx - s * s * ll) <= 1_408 * s * ll);
    assert(abs_int(xx - s * s) <= 1_408 * s) by (nonlinear_arith)
        requires
            abs_int(ll * xx - s * s * ll) <= 1_408 * s * ll,
            ll >= 1,
    ;

    // The squared length of the quotient.
    let u = spec_div(q, d);
    assert(u.x as int == ux && u.y as int == uy && u.z as int == uz);
    assert(0 <= ux * ux <= 1_001_402_491_401 && 0 <= uy * uy <= 1_001_402_491_401 && 0 <= uz * uz
        <= 1_001_402_491_401) by (nonlinear_arith)
        requires
            abs_int(ux) <= 1_000_701,
            abs_int(uy) <= 1_000_701,
            abs_int(uz) <= 1_000_701,
    ;
    crate::fixed::lemma_tdiv_floor(ux * ux, s);
    crate::fixed::lemma_tdiv_floor(uy * uy, s);
    crate::fixed::lemma_tdiv_floor(uz * uz, s);
    let w = spec_len_sq(u);
    assert(w == crate::fixed::tdiv(ux * ux, s) + crate::fixed::tdiv(uy * uy, s)
        + crate::fixed::tdiv(uz * uz, s));
    assert(abs_int(w - s) <= 1_500);

    // And its length, bracketed around one.
    let n2 = w * s;
    assert(998_500_000_000 <= n2 <= 1_001_500_000_000);
    crate::fixed::lemma_sqrt_floor_bounds(n2);
    let lu = fx_sqrt(w);
    assert(lu == crate::fixed::sqrt_floor(n2));
    assert(lu >= 999_249) by (nonlinear_arith)
        requires
            n2 < (lu + 1) * (lu + 1),
            n2 >= 998_500_000_000,
            lu >= 0,
    ;
    assert(lu <= 1_000_750) by (nonlinear_arith)
        requires
            lu * lu <= n2,
            n2 <= 1_001_500_000_000,
            lu >= 0,
    ;
}

/// Whether `n` is a signed coordinate axis of unit length.
pub open spec fn spec_is_axis_unit(n: Vec3) -> bool {
    &&& (n.x == 0 || n.x == ONE || n.x == -ONE)
    &&& (n.y == 0 || n.y == ONE || n.y == -ONE)
    &&& (n.z == 0 || n.z == ONE || n.z == -ONE)
    &&& abs_int(n.x as int) + abs_int(n.y as int) + abs_int(n.z as int) == ONE as int
}

/// Reflecting about an axis-aligned mirror normal reverses the normal
/// component of the incoming vector exactly: the reflection's dot with
/// the normal is the negation of the incoming vector's.
pub proof fn lemma_reflect_reverses_normal_component(v: Vec3, n: Vec3)
    requires
        spec_is_axis_unit(n),
        abs_int(v.x as int) <= 1_000_000_000_000,
        abs_int(v.y as int) <= 1_000_000_000_000,
        abs_int(v.z as int) <= 1_000_000_000_000,
    ensures
        spec_dot(spec_reflect(v, n), n) == fx_neg(spec_dot(v, n)),
{
    crate::fixed::lemma_fx_mul_div_exact(v.x as int, 0, 0);
    crate::fixed::lemma_fx_mul_div_exact(v.y as int, 0, 0);
    crate::fixed::lemma_fx_mul_div_exact(v.z as int, 0, 0);
    crate::fixed::lemma_fx_mul_div_exact(v.x as int, 1_000_000, v.x as int);
    crate::fixed::lemma_fx_mul_div_exact(v.y as int, 1_000_000, v.y as int);
    crate::fixed::lemma_fx_mul_div_exact(v.z as int, 1_000_000, v.z as int);
    crate::fixed::lemma_fx_mul_div_exact(v.x as int, -1_000_000, -(v.x as int));
    crate::fixed::lemma_fx_mul_div_exact(v.y as int, -1_000_000, -(v.y as int));
    crate::fixed::lemma_fx_mul_div_exact(v.z as int, -1_000_000, -(v.z as int));
    let d = spec_dot(v, n);
    let t = fx_mul(TWO as int, d);
    crate::fixed::lemma_fx_mul_div_exact(2_000_000, d, 2 * d);
    crate::fixed::lemma_fx_mul_div_exact(0, t, 0);
    crate::fixed::lemma_fx_mul_div_exact(1_000_000, t, t);
    crate::fixed::lemma_fx_mul_div_exact(-1_000_000, t, -t);
    let r = spec_reflect(v, n);
    crate::fixed::lemma_fx_mul_div_exact(r.x as int, 0, 0);
    crate::fixed::lemma_fx_mul_div_exact(r.y as int, 0, 0);
    crate::fixed::lemma_fx_mul_div_exact(r.z as int, 0, 0);
    crate::fixed::lemma_fx_mul_div_exact(r.x as int, 1_000_000, r.x as int);
    crate::fixed::lemma_fx_mul_div_exact(r.y as int, 1_000_000, r.y as int);
    crate::fixed::lemma_fx_mul_div_exact(r.z as int, 1_000_000, r.z as int);
    crate::fixed::lemma_fx_mul_div_exact(r.x as int, -1_000_000, -(r.x as int));
    crate::fixed::lemma_fx_mul_div_exact(r.y as int, -1_000_000, -(r.y as int));
    crate::fixed::lemma_fx_mul_div_exact(r.z as int, -1_000_000, -(r.z as int));
}

/// Reflecting about any normal of exactly unit squared length reverses
/// the normal component of the incoming vector up to the scale's
/// rounding: for components within a thousand units, the reflection's
/// dot with the normal lands within a small fraction of the negated
/// incident dot.
#[verifier::rlimit(100)]
pub proof fn lemma_reflect_normal_component_bound(v: Vec3, n: Vec3)
    requires
        abs_int(v.x as int) <= 1_000_000_000,
        abs_int(v.y as int) <= 1_000_000_000,
        abs_int(v.z as int) <= 1_000_000_000,
        spec_len_sq(n) == ONE as int,
    ensures
        abs_int(spec_dot(spec_reflect(v, n), n) + spec_dot(v, n)) <= 19_900,
{
    let s = 1_000_000int;
    let vx = v.x as int;
    let vy = v.y as int;
    let vz = v.z as int;
    let nx = n.x as int;
    let ny = n.y as int;
    let nz = n.z as int;

    // The normal's squared components, and the unit squared length.
    assert(0 <= nx * nx && 0 <= ny * ny && 0 <= nz * nz) by (nonlinear_arith);
    crate::fixed::lemma_tdiv_floor(nx * nx, s);
    crate::fixed::lemma_tdiv_floor(ny * ny, s);
    crate::fixed::lemma_tdiv_floor(nz * nz, s);
    let g1 = crate::fixed::tdiv(nx * nx, s);
    let g2 = crate::fixed::tdiv(ny * ny, s);
    let g3 = crate::fixed::tdiv(nz * nz, s);
    assert(g1 + g2 + g3 == s);
    let rr = (nx * nx + ny * ny + nz * nz) - 1_000_000_000_000;
    assert(0 <= rr < 3 * s);
    assert(abs_int(nx) <= 1_000_001 && abs_int(ny) <= 1_000_001 && abs_int(nz) <= 1_000_001)
        by (nonlinear_arith)
        requires
            nx * nx <= 1_000_000_000_000 + 3_000_000,
            ny * ny <= 1_000_000_000_000 + 3_000_000,
            nz * nz <= 1_000_000_000_000 + 3_000_000,
    ;

    // The incident dot and what its truncations dropped.
    assert(abs_int(vx * nx) <= 1_100_000_000_000_000 && abs_int(vy * ny)
        <= 1_100_000_000_000_000 && abs_int(vz * nz) <= 1_100_000_000_000_000)
        by (nonlinear_arith)
        requires
            abs_int(vx) <= 1_000_000_000,
            abs_int(vy) <= 1_000_000_000,
            abs_int(vz) <= 1_000_000_000,
            abs_int(nx) <= 1_000_001,
            abs_int(ny) <= 1_000_001,
            abs_int(nz) <= 1_000_001,
    ;
    crate::fixed::lemma_tdiv_err(vx * nx, s);
    crate::fixed::lemma_tdiv_err(vy * ny, s);
    crate::fixed::lemma_tdiv_err(vz * nz, s);
    let d = spec_dot(v, n);
    assert(d == crate::fixed::tdiv(vx * nx, s) + crate::fixed::tdiv(vy * ny, s)
        + crate::fixed::tdiv(vz * nz, s));
    assert(abs_int(d) <= 3_300_000_003);
    let kk = (vx * nx + vy * ny + vz * nz) - s * d;
    assert(abs_int(kk) < 3 * s);

    // The doubled dot and what its truncation dropped.
    crate::fixed::lemma_tdiv_err(2_000_000 * d, s);
    let t = fx_mul(TWO as int, d);
    assert(t == crate::fixed::tdiv(2_000_000 * d, s));
    assert(abs_int(t) <= 6_600_000_007);
    let hh = 2_000_000 * d - s * t;
    assert(abs_int(hh) < s);

    // The scaled normal and what its truncations dropped.
    assert(abs_int(nx * t) <= 6_700_000_000_000_000 && abs_int(ny * t)
        <= 6_700_000_000_000_000 && abs_int(nz * t) <= 6_700_000_000_000_000)
        by (nonlinear_arith)
        requires
            abs_int(nx) <= 1_000_001,
            abs_int(ny) <= 1_000_001,
            abs_int(nz) <= 1_000_001,
            abs_int(t) <= 6_600_000_007,
    ;
    crate::fixed::lemma_tdiv_err(nx * t, s);
    crate::fixed::lemma_tdiv_err(ny * t, s);
    crate::fixed::lemma_tdiv_err(nz * t, s);
    let m1 = fx_mul(nx, t);
    let m2 = fx_mul(ny, t);
    let m3 = fx_mul(nz, t);
    assert(m1 == crate::fixed::tdiv(nx * t, s) && m2 == crate::fixed::tdiv(ny * t, s) && m3
        == crate::fixed::tdiv(nz * t, s));
    assert(abs_int(m1) <= 6_700_000_001 && abs_int(m2) <= 6_700_000_001 && abs_int(m3)
        <= 6_700_000_001);
    let e1 = nx * t - s * m1;
    let e2 = ny * t - s * m2;
    let e3 = nz * t - s * m3;
    assert(abs_int(e1) < s && abs_int(e2) < s && abs_int(e3) < s);

    // The reflection's components are exact differences.
    let r = spec_reflect(v, n);
    assert(r.x as int == vx - m1 && r.y as int == vy - m2 && r.z as int == vz - m3);

    // The reflected dot and what its truncations dropped.
    assert(abs_int((vx - m1) * nx) <= 7_800_000_000_000_000 && abs_int((vy - m2) * ny)
        <= 7_800_000_000_000_000 && abs_int((vz - m3) * nz) <= 7_800_000_000_000_000)
        by (nonlinear_arith)
        requires
            abs_int(vx - m1) <= 7_700_000_001,
            abs_int(vy - m2) <= 7_700_000_001,
            abs_int(vz - m3) <= 7_700_000_001,
            abs_int(nx) <= 1_000_001,
            abs_int(ny) <= 1_000_001,
            abs_int(nz) <= 1_000_001,
    ;
    crate::fixed::lemma_tdiv_err((vx - m1) * nx, s);
    crate::fixed::lemma_tdiv_err((vy - m2) * ny, s);
    crate::fixed::lemma_tdiv_err((vz - m3) * nz, s);
    let dotr = spec_dot(r, n);
    assert(dotr == crate::fixed::tdiv((vx - m1) * nx, s) + crate::fixed::tdiv((vy - m2) * ny, s)
        + crate::fixed::tdiv((vz - m3) * nz, s));
    let f1 = (vx - m1) * nx - s * crate::fixed::tdiv((vx - m1) * nx, s);
    let f2 = (vy - m2) * ny - s * crate::fixed::tdiv((vy - m2) * ny, s);
    let f3 = (vz - m3) * nz - s * crate::fixed::tdiv((vz - m3) * nz, s);
    assert(abs_int(f1) < s && abs_int(f2) < s && abs_int(f3) < s);

    // Assemble: expand each reflected product, push the scale through,
    // and cancel against the incident dot.
    assert((vx - m1) * nx == vx * nx - m1 * nx && (vy - m2) * ny == vy * ny - m2 * ny && (vz - m3)
        * nz == vz * nz - m3 * nz) by (nonlinear_arith);
    assert(s * (m1 * nx) == t * (nx * nx) - e1 * nx) by (nonlinear_arith)
        requires
            s * m1 == nx * t - e1,
    ;
    assert(s * (m2 * ny) == t * (ny * ny) - e2 * ny) by (nonlinear_arith)
        requires
            s * m2 == ny * t - e2,
    ;
    assert(s * (m3 * nz) == t * (nz * nz) - e3 * nz) by (nonlinear_arith)
        requires
            s * m3 == nz * t - e3,
    ;
    assert(t * (nx * nx + ny * ny + nz * nz) == t * 1_000_000_000_000 + t * rr)
        by (nonlinear_arith)
        requires
            nx * nx + ny * ny + nz * nz == 1_000_000_000_000 + rr,
    ;
    assert(t * (nx * nx) + t * (ny * ny) + t * (nz * nz) == t * (nx * nx + ny * ny + nz * nz))
        by (nonlinear_arith);
    assert(abs_int(t * rr) <= 19_800_000_021_000_000) by (nonlinear_arith)
        requires
            abs_int(t) <= 6_600_000_007,
            0 <= rr < 3_000_000,
    ;
    assert(abs_int(e1 * nx) <= 1_100_000_000_000 && abs_int(e2 * ny) <= 1_100_000_000_000
        && abs_int(e3 * nz) <= 1_100_000_000_000) by (nonlinear_arith)
        requires
            abs_int(e1) < 1_000_000,
            abs_int(e2) < 1_000_000,
            abs_int(e3) < 1_000_000,
            abs_int(nx) <= 1_000_001,
            abs_int(ny) <= 1_000_001,
            abs_int(nz) <= 1_000_001,
    ;
    assert(1_000_000_000_000 * (dotr + d) == s * kk + s * hh - t * rr + (e1 * nx + e2 * ny + e3
        * nz) - s * (f1 + f2 + f3));
    assert(abs_int(dotr + d) <= 19_900);
}

/// The refracted ray exits on the far side of the surface, up to the
/// scale's rounding: for a normal of exactly unit squared length, an
/// incident direction within two units per component whose reversed dot
/// with the normal is at most one (no numerical overshoot), and a
/// refraction ratio up to three, the refraction's dot with the normal
/// never rises above a few ten-thousandths of a unit.
#[verifier::rlimit(100)]
pub proof fn lemma_refract_exits_far_side(uv: Vec3, n: Vec3, eta: int)
    requires
        abs_int(uv.x as int) <= 2_000_000,
        abs_int(uv.y as int) <= 2_000_000,
        abs_int(uv.z as int) <= 2_000_000,
        spec_len_sq(n) == ONE as int,
        0 <= eta <= 3_000_000,
        spec_dot(spec_neg(uv), n) <= ONE as int,
    ensures
        spec_dot(spec_refract(uv, n, eta), n) <= 150,
{
    let s = 1_000_000int;
    let ux = uv.x as int;
    let uy = uv.y as int;
    let uz = uv.z as int;
    let nx = n.x as int;
    let ny = n.y as int;
    let nz = n.z as int;

    // The normal's squared components and its unit squared length.
    assert(0 <= nx * nx && 0 <= ny * ny && 0 <= nz * nz) by (nonlinear_arith);
    crate::fixed::lemma_tdiv_floor(nx * nx, s);
    crate::fixed::lemma_tdiv_floor(ny * ny, s);
    crate::fixed::lemma_tdiv_floor(nz * nz, s);
    let nn = nx * nx + ny * ny + nz * nz;
    let rr = nn - 1_000_000_000_000;
    assert(0 <= rr < 3 * s);
    assert(abs_int(nx) <= 1_000_001 && abs_int(ny) <= 1_000_001 && abs_int(nz) <= 1_000_001)
        by (nonlinear_arith)
        requires
            nx * nx <= 1_000_000_000_000 + 3_000_000,
            ny * ny <= 1_000_000_000_000 + 3_000_000,
            nz * nz <= 1_000_000_000_000 + 3_000_000,
    ;

    // The incident dot, and the reversed dot as its exact negation.
    assert(abs_int(ux * nx) <= 2_100_000_000_000 && abs_int(uy * ny) <= 2_100_000_000_000
        && abs_int(uz * nz) <= 2_100_000_000_000) by (nonlinear_arith)
        requires
            abs_int(ux) <= 2_000_000,
            abs_int(uy) <= 2_000_000,
            abs_int(uz) <= 2_000_000,
            abs_int(nx) <= 1_000_001,
            abs_int(ny) <= 1_000_001,
            abs_int(nz) <= 1_000_001,
    ;
    crate::fixed::lemma_tdiv_err(ux * nx, s);
    crate::fixed::lemma_tdiv_err(uy * ny, s);
    crate::fixed::lemma_tdiv_err(uz * nz, s);
    let duv = spec_dot(uv, n);
    let kk = (ux * nx + uy * ny + uz * nz) - s * duv;
    assert(abs_int(kk) < 3 * s && abs_int(duv) <= 6_300_003);
    assert((-ux) * nx == -(ux * nx) && (-uy) * ny == -(uy * ny) && (-uz) * nz == -(uz * nz))
        by (nonlinear_arith);
    let cos = spec_dot(spec_neg(uv), n);
    assert(cos == -duv);
    assert(cos <= s && abs_int(cos) <= 6_300_003);

    // The scaled normal inside the tangential part.
    assert(abs_int(nx * cos) <= 6_400_000_000_000 && abs_int(ny * cos) <= 6_400_000_000_000
        && abs_int(nz * cos) <= 6_400_000_000_000) by (nonlinear_arith)
        requires
            abs_int(nx) <= 1_000_001,
            abs_int(ny) <= 1_000_001,
            abs_int(nz) <= 1_000_001,
            abs_int(cos) <= 6_300_003,
    ;
    crate::fixed::lemma_tdiv_err(nx * cos, s);
    crate::fixed::lemma_tdiv_err(ny * cos, s);
    crate::fixed::lemma_tdiv_err(nz * cos, s);
    let m1 = fx_mul(nx, cos);
    let m2 = fx_mul(ny, cos);
    let m3 = fx_mul(nz, cos);
    assert(abs_int(m1) <= 6_400_001 && abs_int(m2) <= 6_400_001 && abs_int(m3) <= 6_400_001);
    let e1 = nx * cos - s * m1;
    let e2 = ny * cos - s * m2;
    let e3 = nz * cos - s * m3;
    assert(abs_int(e1) < s && abs_int(e2) < s && abs_int(e3) < s);

    // The tangential part, scaled by the refraction ratio.
    let w1 = ux + m1;
    let w2 = uy + m2;
    let w3 = uz + m3;
    assert(abs_int(w1) <= 8_400_001 && abs_int(w2) <= 8_400_001 && abs_int(w3) <= 8_400_001);
    assert(abs_int(w1 * eta) <= 25_200_003_000_000 && abs_int(w2 * eta) <= 25_200_003_000_000
        && abs_int(w3 * eta) <= 25_200_003_000_000) by (nonlinear_arith)
        requires
            abs_int(w1) <= 8_400_001,
            abs_int(w2) <= 8_400_001,
            abs_int(w3) <= 8_400_001,
            0 <= eta <= 3_000_000,
    ;
    crate::fixed::lemma_tdiv_err(w1 * eta, s);
    crate::fixed::lemma_tdiv_err(w2 * eta, s);
    crate::fixed::lemma_tdiv_err(w3 * eta, s);
    let rp = spec_scale(spec_add(uv, spec_scale(n, cos)), eta);
    assert(rp.x as int == fx_mul(w1, eta) && rp.y as int == fx_mul(w2, eta) && rp.z as int
        == fx_mul(w3, eta));
    let p1 = rp.x as int;
    let p2 = rp.y as int;
    let p3 = rp.z as int;
    assert(abs_int(p1) <= 25_200_004 && abs_int(p2) <= 25_200_004 && abs_int(p3) <= 25_200_004);
    let f1 = w1 * eta - s * p1;
    let f2 = w2 * eta - s * p2;
    let f3 = w3 * eta - s * p3;
    assert(abs_int(f1) < s && abs_int(f2) < s && abs_int(f3) < s);

    // The parallel part points against the normal: its factor is the
    // negated root of a nonnegative argument.
    assert(0 <= p1 * p1 <= 635_040_201_600_016 && 0 <= p2 * p2 <= 635_040_201_600_016 && 0 <= p3
        * p3 <= 635_040_201_600_016) by (nonlinear_arith)
        requires
            abs_int(p1) <= 25_200_004,
            abs_int(p2) <= 25_200_004,
            abs_int(p3) <= 25_200_004,
    ;
    crate::fixed::lemma_tdiv_floor(p1 * p1, s);
    crate::fixed::lemma_tdiv_floor(p2 * p2, s);
    crate::fixed::lemma_tdiv_floor(p3 * p3, s);
    let arg = sat(abs_int(fx_sub(ONE as int, spec_len_sq(rp))));
    assert(0 <= arg <= 1_905_120_605);
    let k = fx_sqrt(arg);
    crate::fixed::lemma_fx_sqrt_nonneg(arg);
    if arg > 0 {
        crate::fixed::lemma_sqrt_floor_bounds(arg * s);
        assert(k <= 43_650_000) by (nonlinear_arith)
            requires
                k * k <= arg * s,
                arg * s <= 1_905_120_605_000_000,
                k >= 0,
        ;
    }
    assert(0 <= k <= 43_650_000);
    assert(fx_neg(k) == -k);

    // The parallel components and what their truncations dropped.
    assert(abs_int(nx * (-k)) <= 43_650_044_000_000 && abs_int(ny * (-k)) <= 43_650_044_000_000
        && abs_int(nz * (-k)) <= 43_650_044_000_000) by (nonlinear_arith)
        requires
            abs_int(nx) <= 1_000_001,
            abs_int(ny) <= 1_000_001,
            abs_int(nz) <= 1_000_001,
            0 <= k <= 43_650_000,
    ;
    crate::fixed::lemma_tdiv_err(nx * (-k), s);
    crate::fixed::lemma_tdiv_err(ny * (-k), s);
    crate::fixed::lemma_tdiv_err(nz * (-k), s);
    let q1 = fx_mul(nx, -k);
    let q2 = fx_mul(ny, -k);
    let q3 = fx_mul(nz, -k);
    assert(abs_int(q1) <= 43_650_045 && abs_int(q2) <= 43_650_045 && abs_int(q3) <= 43_650_045);
    let g1 = nx * (-k) - s * q1;
    let g2 = ny * (-k) - s * q2;
    let g3 = nz * (-k) - s * q3;
    assert(abs_int(g1) < s && abs_int(g2) < s && abs_int(g3) < s);

    // The refraction's components are exact sums.
    let res = spec_refract(uv, n, eta);
    assert(res.x as int == p1 + q1 && res.y as int == p2 + q2 && res.z as int == p3 + q3);

    // Its dot with the normal, and what those truncations dropped.
    assert(abs_int((p1 + q1) * nx) <= 68_850_117_850_049 && abs_int((p2 + q2) * ny)
        <= 68_850_117_850_049 && abs_int((p3 + q3) * nz) <= 68_850_117_850_049)
        by (nonlinear_arith)
        requires
            abs_int(p1 + q1) <= 68_850_049,
            abs_int(p2 + q2) <= 68_850_049,
            abs_int(p3 + q3) <= 68_850_049,
            abs_int(nx) <= 1_000_001,
            abs_int(ny) <= 1_000_001,
            abs_int(nz) <= 1_000_001,
    ;
    crate::fixed::lemma_tdiv_err((p1 + q1) * nx, s);
    crate::fixed::lemma_tdiv_err((p2 + q2) * ny, s);
    crate::fixed::lemma_tdiv_err((p3 + q3) * nz, s);
    let dotr = spec_dot(res, n);
    let h = ((p1 + q1) * nx + (p2 + q2) * ny + (p3 + q3) * nz) - s * dotr;
    assert(abs_int(h) < 3 * s);

    // Assemble: expand each product, push the scale through twice, and
    // let the incident and tangential normal parts cancel.
    assert((p1 + q1) * nx == p1 * nx + q1 * nx && (p2 + q2) * ny == p2 * ny + q2 * ny && (p3
        + q3) * nz == p3 * nz + q3 * nz) by (nonlinear_arith);
    assert(s * (q1 * nx) == (-k) * (nx * nx) - g1 * nx) by (nonlinear_arith)
        requires
            s * q1 == nx * (-k) - g1,
    ;
    assert(s * (q2 * ny) == (-k) * (ny * ny) - g2 * ny) by (nonlinear_arith)
        requires
            s * q2 == ny * (-k) - g2,
    ;
    assert(s * (q3 * nz) == (-k) * (nz * nz) - g3 * nz) by (nonlinear_arith)
        requires
            s * q3 == nz * (-k) - g3,
    ;
    assert(s * (p1 * nx) == eta * (w1 * nx) - f1 * nx) by (nonlinear_arith)
        requires
            s * p1 == w1 * eta - f1,
    ;
    assert(s * (p2 * ny) == eta * (w2 * ny) - f2 * ny) by (nonlinear_arith)
        requires
            s * p2 == w2 * eta - f2,
    ;
    assert(s * (p3 * nz) == eta * (w3 * nz) - f3 * nz) by (nonlinear_arith)
        requires
            s * p3 == w3 * eta - f3,
    ;
    assert(w1 * nx == ux * nx + m1 * nx && w2 * ny == uy * ny + m2 * ny && w3 * nz == uz * nz
        + m3 * nz) by (nonlinear_arith)
        requires
            w1 == ux + m1,
            w2 == uy + m2,
            w3 == uz + m3,
    ;
    assert(s * (m1 * nx) == cos * (nx * nx) - e1 * nx) by (nonlinear_arith)
        requires
            s * m1 == nx * cos - e1,
    ;
    assert(s * (m2 * ny) == cos * (ny * ny) - e2 * ny) by (nonlinear_arith)
        requires
            s * m2 == ny * cos - e2,
    ;
    assert(s * (m3 * nz) == cos * (nz * nz) - e3 * nz) by (nonlinear_arith)
        requires
            s * m3 == nz * cos - e3,
    ;
    let swn = s * (w1 * nx + w2 * ny + w3 * nz);
    assert(cos * nn == cos * 1_000_000_000_000 + cos * rr) by (nonlinear_arith)
        requires
            nn == 1_000_000_000_000 + rr,
    ;
    assert(cos * (nx * nx) + cos * (ny * ny) + cos * (nz * nz) == cos * nn) by (nonlinear_arith)
        requires
            nn == nx * nx + ny * ny + nz * nz,
    ;
    assert((-k) * (nx * nx) + (-k) * (ny * ny) + (-k) * (nz * nz) == (-k) * nn)
        by (nonlinear_arith)
        requires
            nn == nx * nx + ny * ny + nz * nz,
    ;
    assert(swn == s * (ux * nx + uy * ny + uz * nz) + (cos * nn - (e1 * nx + e2 * ny + e3 * nz)));
    assert(s * (ux * nx + uy * ny + uz * nz) == s * (s * duv) + s * kk);
    assert(s * (s * duv) == -(cos * 1_000_000_000_000));
    assert(swn == s * kk + cos * rr - (e1 * nx + e2 * ny + e3 * nz));
    assert(abs_int(cos * rr) <= 18_900_009_000_000) by (nonlinear_arith)
        requires
            abs_int(cos) <= 6_300_003,
            0 <= rr < 3_000_000,
    ;
    assert(abs_int(e1 * nx) <= 1_000_001_000_000 && abs_int(e2 * ny) <= 1_000_001_000_000
        && abs_int(e3 * nz) <= 1_000_001_000_000) by (nonlinear_arith)
        requires
            abs_int(e1) < 1_000_000,
            abs_int(e2) < 1_000_000,
            abs_int(e3) < 1_000_000,
            abs_int(nx) <= 1_000_001,
            abs_int(ny) <= 1_000_001,
            abs_int(nz) <= 1_000_001,
    ;
    assert(abs_int(swn) <= 24_900_012_000_000);
    assert(abs_int(eta * swn) <= 74_700_036_000_000_000_000) by (nonlinear_arith)
        requires
            0 <= eta <= 3_000_000,
            abs_int(swn) <= 24_900_012_000_000,
    ;
    assert((-k) * nn <= 0) by (nonlinear_arith)
        requires
            k >= 0,
            nn > 0,
    ;
    assert(abs_int(f1 * nx) <= 1_000_001_000_000 && abs_int(f2 * ny) <= 1_000_001_000_000
        && abs_int(f3 * nz) <= 1_000_001_000_000) by (nonlinear_arith)
        requires
            abs_int(f1) < 1_000_000,
            abs_int(f2) < 1_000_000,
            abs_int(f3) < 1_000_000,
            abs_int(nx) <= 1_000_001,
            abs_int(ny) <= 1_000_001,
            abs_int(nz) <= 1_000_001,
    ;
    assert(abs_int(g1 * nx) <= 1_000_001_000_000 && abs_int(g2 * ny) <= 1_000_001_000_000
        && abs_int(g3 * nz) <= 1_000_001_000_000) by (nonlinear_arith)
        requires
            abs_int(g1) < 1_000_000,
            abs_int(g2) < 1_000_000,
            abs_int(g3) < 1_000_000,
            abs_int(nx) <= 1_000_001,
            abs_int(ny) <= 1_000_001,
            abs_int(nz) <= 1_000_001,
    ;
    let wsum = w1 * nx + w2 * ny + w3 * nz;
    assert(swn == s * wsum);
    assert(s * (s * dotr) == eta * (w1 * nx) + eta * (w2 * ny) + eta * (w3 * nz) + (-k) * nn - (f1
        * nx + f2 * ny + f3 * nz) - (g1 * nx + g2 * ny + g3 * nz) - s * h);
    assert(s * (eta * (w1 * nx) + eta * (w2 * ny) + eta * (w3 * nz)) == eta * swn)
        by (nonlinear_arith)
        requires
            swn == s * (w1 * nx + w2 * ny + w3 * nz),
    ;
    assert(s * (s * (s * dotr)) == eta * swn + s * ((-k) * nn) - s * (g1 * nx + g2 * ny + g3 * nz)
        - s * (f1 * nx + f2 * ny + f3 * nz) - s * (s * h));
    assert(s * ((-k) * nn) <= 0);
    assert(s * (s * (s * dotr)) <= 150_000_000_000_000_000_000);
}

/// One axis of a cross-then-dot chain: the scaled, twice-truncated term
/// stays close to the true product `(a b - c d) w`, and is small enough
/// that nothing saturates.
proof fn lemma_cross_axis(a: int, b: int, c: int, d: int, w: int)
    requires
        abs_int(a) <= 1_000_000_000,
        abs_int(b) <= 1_000_000_000,
        abs_int(c) <= 1_000_000_000,
        abs_int(d) <= 1_000_000_000,
        abs_int(w) <= 1_000_000_000,
    ensures
        ({
            let cxw = fx_mul(fx_sub(fx_mul(a, b), fx_mul(c, d)), w);
            &&& abs_int(1_000_000_000_000 * cxw - (a * b - c * d) * w) <= 2_001_000_000_000_000
            &&& abs_int(cxw) <= 4_000_000_000_000_000
        }),
{
    let s = 1_000_000int;
    let p1 = a * b;
    let p2 = c * d;
    assert(abs_int(p1) <= 1_000_000_000_000_000_000 && abs_int(p2)
        <= 1_000_000_000_000_000_000) by (nonlinear_arith)
        requires
            abs_int(a) <= 1_000_000_000,
            abs_int(b) <= 1_000_000_000,
            abs_int(c) <= 1_000_000_000,
            abs_int(d) <= 1_000_000_000,
            p1 == a * b,
            p2 == c * d,
    ;
    crate::fixed::lemma_tdiv_err(p1, s);
    crate::fixed::lemma_tdiv_err(p2, s);
    let m1 = fx_mul(a, b);
    let m2 = fx_mul(c, d);
    assert(m1 == crate::fixed::tdiv(p1, s) && abs_int(m1) <= 1_000_000_000_001);
    assert(m2 == crate::fixed::tdiv(p2, s) && abs_int(m2) <= 1_000_000_000_001);
    let cx = fx_sub(m1, m2);
    assert(cx == m1 - m2);
    let dd = s * cx - (p1 - p2);
    assert(abs_int(dd) < 2_000_000);
    let pw = cx * w;
    assert(abs_int(pw) <= 3_000_000_000_000_000_000_000) by (nonlinear_arith)
        requires
            abs_int(cx) <= 3_000_000_000_000,
            abs_int(w) <= 1_000_000_000,
            pw == cx * w,
    ;
    crate::fixed::lemma_tdiv_err(pw, s);
    let cxw = fx_mul(cx, w);
    assert(cxw == crate::fixed::tdiv(pw, s) && abs_int(cxw) <= 4_000_000_000_000_000);
    assert(s * pw == (s * cx) * w) by (nonlinear_arith)
        requires
            pw == cx * w,
    ;
    assert((s * cx) * w == (p1 - p2) * w + dd * w) by (nonlinear_arith)
        requires
            s * cx == (p1 - p2) + dd,
    ;
    assert(abs_int(dd * w) <= 2_000_000_000_000_000) by (nonlinear_arith)
        requires
            abs_int(dd) <= 2_000_000,
            abs_int(w) <= 1_000_000_000,
    ;
    assert(1_000_000_000_000 * cxw - s * pw == s * (s * cxw - pw)) by (nonlinear_arith)
        requires
            s == 1_000_000,
    ;
}

/// The cross product is orthogonal to both of its factors, up to the
/// scale's rounding: for components within a thousand units, its dot
/// with either factor is within a few thousandths of a unit of zero.
pub proof fn lemma_cross_orthogonal(u: Vec3, v: Vec3)
    requires
        abs_int(u.x as int) <= 1_000_000_000,
        abs_int(u.y as int) <= 1_000_000_000,
        abs_int(u.z as int) <= 1_000_000_000,
        abs_int(v.x as int) <= 1_000_000_000,
        abs_int(v.y as int) <= 1_000_000_000,
        abs_int(v.z as int) <= 1_000_000_000,
    ensures
        abs_int(spec_dot(spec_cross(u, v), u)) <= 6_003,
        abs_int(spec_dot(spec_cross(u, v), v)) <= 6_003,
{
    let ux = u.x as int;
    let uy = u.y as int;
    let uz = u.z as int;
    let vx = v.x as int;
    let vy = v.y as int;
    let vz = v.z as int;
    assert(v3(ux, uy, uz) == u && v3(vx, vy, vz) == v);
    lemma_cross_dot_small(ux, uy, uz, vx, vy, vz, ux, uy, uz);
    lemma_cross_dot_small(ux, uy, uz, vx, vy, vz, vx, vy, vz);
    assert((uy * vz - uz * vy) * ux + (uz * vx - ux * vz) * uy + (ux * vy - uy * vx) * uz == 0)
        by (nonlinear_arith);
    assert((uy * vz - uz * vy) * vx + (uz * vx - ux * vz) * vy + (ux * vy - uy * vx) * vz == 0)
        by (nonlinear_arith);
}

/// The dot of a cross product with any vector lands within a few
/// thousandths of a unit of the true triple product, scaled.
proof fn lemma_cross_dot_small(
    ux: int,
    uy: int,
    uz: int,
    vx: int,
    vy: int,
    vz: int,
    wx: int,
    wy: int,
    wz: int,
)
    requires
        abs_int(ux) <= 1_000_000_000,
        abs_int(uy) <= 1_000_000_000,
        abs_int(uz) <= 1_000_000_000,
        abs_int(vx) <= 1_000_000_000,
        abs_int(vy) <= 1_000_000_000,
        abs_int(vz) <= 1_000_000_000,
        abs_int(wx) <= 1_000_000_000,
        abs_int(wy) <= 1_000_000_000,
        abs_int(wz) <= 1_000_000_000,
    ensures
        ({
            let ideal = (uy * vz - uz * vy) * wx + (uz * vx - ux * vz) * wy + (ux * vy - uy * vx)
                * wz;
            let dd = spec_dot(spec_cross(v3(ux, uy, uz), v3(vx, vy, vz)), v3(wx, wy, wz));
            abs_int(1_000_000_000_000 * dd - ideal) <= 6_003_000_000_000_000
        }),
{
    lemma_cross_axis(uy, vz, uz, vy, wx);
    lemma_cross_axis(uz, vx, ux, vz, wy);
    lemma_cross_axis(ux, vy, uy, vx, wz);
    let t1 = fx_mul(fx_sub(fx_mul(uy, vz), fx_mul(uz, vy)), wx);
    let t2 = fx_mul(fx_sub(fx_mul(uz, vx), fx_mul(ux, vz)), wy);
    let t3 = fx_mul(fx_sub(fx_mul(ux, vy), fx_mul(uy, vx)), wz);
    let dd = spec_dot(spec_cross(v3(ux, uy, uz), v3(vx, vy, vz)), v3(wx, wy, wz));
    assert(dd == t1 + t2 + t3);
}

/// A squared length is never negative.
pub proof fn lemma_len_sq_nonneg(u: Vec3)
    ensures
        0 <= spec_len_sq(u),
{
    crate::fixed::lemma_fx_mul_square_nonneg(u.x as int);
    crate::fixed::lemma_fx_mul_square_nonneg(u.y as int);
    crate::fixed::lemma_fx_mul_square_nonneg(u.z as int);
}

/// The dot product.
pub fn dot(u: &Vec3, v: &Vec3) -> (r: i64)
    ensures
        r as int == spec_dot(*u, *v),
{
    fxadd(fxadd(fxmul(u.x, v.x), fxmul(u.y, v.y)), fxmul(u.z, v.z))
}

/// The cross product.
pub fn cross(u: &Vec3, v: &Vec3) -> (r: Vec3)
    ensures
        r == spec_cross(*u, *v),
{
    Vec3 {
        x: fxsub(fxmul(u.y, v.z), fxmul(u.z, v.y)),
        y: fxsub(fxmul(u.z, v.x), fxmul(u.x, v.z)),
        z: fxsub(fxmul(u.x, v.y), fxmul(u.y, v.x)),
    }
}

/// The vector rescaled to unit length.  A zero-length vector is the
/// caller's responsibility: its components saturate.
pub fn unit_vector(v: Vec3) -> (r: Vec3)
    ensures
        r == spec_unit(v),
{
    let k = v.length();
    v.div(k)
}

/// The reflection of `v` about the plane with normal `n`.
pub fn reflect(v: &Vec3, n: &Vec3) -> (r: Vec3)
    ensures
        r == spec_reflect(*v, *n),
{
    let d = dot(v, n);
    let s = fxmul(TWO, d);
    v.sub(&n.scale(s))
}

/// The decimal digits of a nonnegative number, as ASCII bytes.
pub open spec fn spec_dec(n: int) -> Seq<u8>
    recommends
        0 <= n,
    decreases n,
{
    if n < 10 {
        seq![(48 + if 0 <= n { n } else { 0 }) as u8]
    } else {
        spec_dec(n / 10).push((48 + (n % 10)) as u8)
    }
}

/// Append the decimal digits of `v`.
pub(crate) fn push_dec(out: &mut Vec<u8>, v: u64)
    ensures
        final(out)@ == old(out)@ + spec_dec(v as int),
    decreases v,
{
    if v < 10 {
        out.push(48 + (v as u8));
        proof {
            assert(out@ =~= old(out)@ + spec_dec(v as int));
        }
    } else {
        push_dec(out, v / 10);
        out.push(48 + ((v % 10) as u8));
        proof {
            assert(out@ =~= old(out)@ + spec_dec(v as int));
        }
    }
}

/// Map accumulated linear radiance to the display scale: the square
/// root, with negative radiance treated as black.
fn linear_to_gamma(linear_component: i64) -> (r: i64)
    ensures
        r as int == fx_sqrt(linear_component as int),
{
    fxsqrt(linear_component)
}

/// One output channel: the accumulated value divided by the sample
/// count, gamma corrected, clamped into [0, 1), scaled by 256 and
/// truncated.  The clamp stays just below one, so a full channel
/// encodes to 255.
pub open spec fn spec_channel(x: int, samples: int) -> int {
    let scale = fx_div(ONE as int, samples * (ONE as int));
    let g = fx_sqrt(fx_mul(x, scale));
    let c = crate::hittable::spec_clamp(Interval { min: 0i64, max: (ONE - 1) as i64 }, g);
    crate::fixed::tdiv(256 * c, ONE as int)
}

/// The text record one pixel emits: three channels separated by single
/// spaces, a trailing space, and a newline.
pub open spec fn spec_color_record(pixel: Vec3, samples: int) -> Seq<u8> {
    spec_dec(spec_channel(pixel.x as int, samples)) + seq![32u8] + spec_dec(
        spec_channel(pixel.y as int, samples),
    ) + seq![32u8] + spec_dec(spec_channel(pixel.z as int, samples)) + seq![32u8, 10u8]
}

/// One output channel, computed.
fn channel(x: i64, scale: i64, samples: Ghost<int>) -> (r: u64)
    requires
        scale as int == fx_div(ONE as int, samples@ * (ONE as int)),
    ensures
        r as int == spec_channel(x as int, samples@),
        r <= 255,
{
    let g = linear_to_gamma(fxmul(x, scale));
    let intensity = Interval::from(0, ONE - 1);
    let c = intensity.clamp(g);
    let w: u64 = 256 * (c as u64);
    let r = w / 1_000_000;
    proof {
        assert(0 <= c as int <= ONE - 1);
        assert(r as int == crate::fixed::tdiv(256 * (c as int), ONE as int));
        vstd::arithmetic::div_mod::lemma_div_is_ordered(
            256 * (c as int),
            256 * (ONE - 1) as int,
            ONE as int,
        );
        crate::fixed::lemma_tdiv_eval(256 * (ONE - 1) as int, ONE as int, 255);
    }
    r
}

/// Emit one pixel's text record: divide by the sample count, gamma
/// correct, clamp each channel into [0, 1), and append the three
/// integers with a trailing space and newline.
pub fn write_color(out: &mut Vec<u8>, pixel_color: &Color, samples_per_pixel: i32)
    ensures
        final(out)@ == old(out)@ + spec_color_record(*pixel_color, samples_per_pixel as int),
{
    let scale = fxdiv(ONE, (samples_per_pixel as i64) * ONE);

    let r = channel(pixel_color.x, scale, Ghost(samples_per_pixel as int));
    let g = channel(pixel_color.y, scale, Ghost(samples_per_pixel as int));
    let b = channel(pixel_color.z, scale, Ghost(samples_per_pixel as int));

    push_dec(out, r);
    out.push(32);
    push_dec(out, g);
    out.push(32);
    push_dec(out, b);
    out.push(32);
    out.push(10);
    proof {
        assert(out@ =~= old(out)@ + spec_color_record(
            *pixel_color,
            samples_per_pixel as int,
        ));
    }
}

/// Snell's-law refraction of the unit direction `uv` at normal `n` with
/// refractive-index ratio `etai_over_etat`.
pub fn refract(uv: &Vec3, n: &Vec3, etai_over_etat: i64) -> (r: Vec3)
    ensures
        r == spec_refract(*uv, *n, etai_over_etat as int),
{
    let cos_theta = fxmin(dot(&uv.neg(), n), ONE);
    let r_out_perp = uv.add(&n.scale(cos_theta)).scale(etai_over_etat);
    let r_out_parallel = n.scale(fxneg(fxsqrt(crate::fixed::fxabs(fxsub(
        ONE,
        r_out_perp.length_squared(),
    )))));
    r_out_perp.add(&r_out_parallel)
}

} // verus!
