//! The random stream handle.
//!
//! All stochastic sampling (antialiasing jitter, diffuse bounce directions,
//! defocus-disk origins, the dielectric's reflect/refract coin) draws from a
//! `RandSrc`, an explicitly passed, seedable stream backed by rand's
//! `StdRng`. Nothing is promised of the raw 64-bit draws; the verified
//! methods only reduce them into stated ranges.

use vstd::prelude::*;

use crate::fixed::SCALE;

verus! {

#[verifier::external_type_specification]
#[verifier::external_body]
pub struct ExStdRng(rand::rngs::StdRng);

/// Relies on rand's `SeedableRng::seed_from_u64` for `StdRng`: builds a
/// generator from a 64-bit seed. Nothing is assumed of the stream it yields.
#[verifier::external_body]
fn seed_std_rng(seed: u64) -> rand::rngs::StdRng {
    <rand::rngs::StdRng as rand::SeedableRng>::seed_from_u64(seed)
}

/// Relies on rand's `Rng::next_u64` for `StdRng`: the next 64 bits of the
/// stream. Nothing is assumed of the value.
#[verifier::external_body]
fn next_std_u64(rng: &mut rand::rngs::StdRng) -> u64 {
    rand::Rng::next_u64(rng)
}

/// A seedable source of uniform fixed-point draws.
pub struct RandSrc {
    inner: rand::rngs::StdRng,
}

impl RandSrc {
    /// A stream determined by `seed` (within one build of the library).
    pub fn from_seed(seed: u64) -> RandSrc {
        RandSrc { inner: seed_std_rng(seed) }
    }

    /// A draw from `[0, 1)`: a raw fixed-point value in `[0, SCALE)`.
    pub fn next_unit(&mut self) -> (r: i64)
        ensures
            0 <= r < SCALE,
    {
        let u: u64 = next_std_u64(&mut self.inner);
        let m: u64 = u % (SCALE as u64);
        proof {
            vstd::arithmetic::div_mod::lemma_mod_division_less_than_divisor(
                u as int,
                SCALE as int,
            );
        }
        m as i64
    }

    /// A draw from `[min, max)`.
    pub fn next_range(&mut self, min: i64, max: i64) -> (r: i64)
        requires
            min < max,
        ensures
            min <= r < max,
    {
        let u: u64 = next_std_u64(&mut self.inner);
        let span: u64 = ((max as i128) - (min as i128)) as u64;
        let off: u64 = u % span;
        proof {
            vstd::arithmetic::div_mod::lemma_mod_division_less_than_divisor(
                u as int,
                span as int,
            );
        }
        ((min as i128) + (off as i128)) as i64
    }
}

} // verus!
