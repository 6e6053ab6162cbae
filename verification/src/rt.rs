//! Randomness for sampling.
//!
//! The original design threads an explicit, seedable generator through the
//! renderer so that renders are reproducible per seed.  Every draw enters
//! the verified code through the narrow wrappers below; everything done
//! with a drawn value is verified for every value the wrapper can return.

use vstd::prelude::*;

use rand::Rng;
use rand::SeedableRng;

use crate::fx::{fits, FX_ONE};

verus! {

#[verifier::external_type_specification]
#[verifier::external_body]
pub struct ExStdRng(rand::rngs::StdRng);

/// A deterministic pseudo-random stream, seeded once per render.
pub struct RtRng {
    inner: rand::rngs::StdRng,
}

/// Relies on rand::SeedableRng::seed_from_u64: builds a generator whose
/// stream is a function of the seed alone.
#[verifier::external_body]
pub fn rng_from_seed(seed: u64) -> (r: RtRng) {
    RtRng { inner: rand::rngs::StdRng::seed_from_u64(seed) }
}

/// Relies on rand::Rng::gen_range: a draw from `a..=b` lies in `[a, b]`.
#[verifier::external_body]
pub fn random_int(rng: &mut RtRng, a: i32, b: i32) -> (r: i32)
    requires
        a <= b,
    ensures
        a <= r <= b,
{
    rng.inner.gen_range(a..=b)
}

/// Relies on rand::Rng::gen_range: a draw from `a..b` lies in `[a, b)`.
#[verifier::external_body]
pub fn random_fx(rng: &mut RtRng, a: i64, b: i64) -> (r: i64)
    requires
        a < b,
        fits(a as int),
        fits(b as int),
    ensures
        a <= r < b,
        fits(r as int),
{
    rng.inner.gen_range(a..b)
}

/// A fixed-point draw from `[0, 1)`.
pub fn random_unit_fx(rng: &mut RtRng) -> (r: i64)
    ensures
        0 <= r < FX_ONE,
        fits(r as int),
{
    random_fx(rng, 0, FX_ONE)
}

} // verus!
