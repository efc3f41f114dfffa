//! Angle conversion and the random number source.
//!
//! Randomness flows through an explicit `Rng` handle so that renders can be
//! seeded deterministically.  The handle wraps `rand`'s standard generator;
//! every draw enters the library through one trusted word-sized call, and
//! everything built on top of it is verified.

use vstd::prelude::*;

use crate::fixed::{fx_add, fx_div, fx_mul, fx_sub, fxadd, fxdiv, fxmul, fxsub, ONE};

verus! {

/// The scalar closest to the circle constant pi.
pub const PI: i64 = 3_141_593;

/// The scalar for 180 degrees.
pub const DEG180: i64 = 180_000_000;

/// What `degrees_to_radians` computes, over the scalar model.
pub open spec fn spec_degrees_to_radians(degrees: int) -> int {
    fx_div(fx_mul(degrees, PI as int), DEG180 as int)
}

/// Convert an angle in degrees to radians.
pub fn degrees_to_radians(degrees: i64) -> (r: i64)
    ensures
        r as int == spec_degrees_to_radians(degrees as int),
{
    fxdiv(fxmul(degrees, PI), DEG180)
}

#[verifier::external_type_specification]
#[verifier::external_body]
pub struct ExStdRng(rand::rngs::StdRng);

/// A handle on the random number source.
pub struct Rng {
    inner: rand::rngs::StdRng,
}

impl Rng {
    /// Relies on rand's `StdRng::seed_from_u64`: builds a generator from a
    /// word-sized seed.  Nothing is promised of the values it will yield.
    #[verifier::external_body]
    pub fn from_seed(seed: u64) -> Rng {
        Rng { inner: <rand::rngs::StdRng as rand::SeedableRng>::seed_from_u64(seed) }
    }

    /// Relies on rand's `StdRng::from_entropy`: builds a generator seeded
    /// from the operating system.  It panics only if the system's entropy
    /// source fails.
    #[verifier::external_body]
    pub fn from_entropy() -> Rng {
        Rng { inner: <rand::rngs::StdRng as rand::SeedableRng>::from_entropy() }
    }

    /// Relies on rand's `RngCore::next_u64`: yields a word whose value
    /// nothing is promised of.
    #[verifier::external_body]
    fn next_u64(&mut self) -> u64 {
        rand::RngCore::next_u64(&mut self.inner)
    }
}

/// Draw a scalar from [0, 1) (uniform up to a negligible modulo bias).
pub fn random_double(rng: &mut Rng) -> (r: i64)
    ensures
        0 <= r < ONE,
{
    let x = rng.next_u64();
    (x % 1_000_000) as i64
}

/// Draw a scalar from [`min`, `max`).
pub fn random_double_range(rng: &mut Rng, min: i64, max: i64) -> (r: i64)
    requires
        crate::fixed::FX_MIN <= min < max,
    ensures
        min <= r < max,
        exists|f: int|
            0 <= f < ONE as int && r as int == fx_add(
                min as int,
                fx_mul(fx_sub(max as int, min as int), f),
            ),
{
    let f = random_double(rng);
    let d = fxsub(max, min);
    let step = fxmul(d, f);
    proof {
        crate::fixed::lemma_mul_frac_lt(d as int, f as int);
        assert(0 <= step as int && (step as int) < d as int);
        assert(d as int <= max - min);
    }
    let r = fxadd(min, step);
    proof {
        assert(0 <= f < ONE as int && r as int == fx_add(
            min as int,
            fx_mul(fx_sub(max as int, min as int), f as int),
        ));
    }
    r
}

} // verus!
