use vstd::prelude::*;
use rand::RngExt;
use rand::SeedableRng;

verus! {

#[verifier::external_type_specification]
#[verifier::external_body]
pub struct ExStdRng(rand::rngs::StdRng);

/// Relies on rand's `StdRng::seed_from_u64`: builds a generator from a seed.
#[verifier::external_body]
fn seeded_std_rng(seed: u64) -> rand::rngs::StdRng {
    rand::rngs::StdRng::seed_from_u64(seed)
}

/// Relies on rand's `RngExt::random_range` over `lo..hi`, which panics on an
/// empty range and otherwise returns a value inside it.
#[verifier::external_body]
fn std_rng_range_i32(r: &mut rand::rngs::StdRng, lo: i32, hi: i32) -> (v: i32)
    requires
        lo < hi,
    ensures
        lo <= v < hi,
{
    r.random_range(lo..hi)
}

/// Relies on rand's `RngExt::random_range` over `lo..hi`, which panics on an
/// empty range and otherwise returns a value inside it.
#[verifier::external_body]
fn std_rng_range_u32(r: &mut rand::rngs::StdRng, lo: u32, hi: u32) -> (v: u32)
    requires
        lo < hi,
    ensures
        lo <= v < hi,
{
    r.random_range(lo..hi)
}

/// Relies on rand's `RngExt::random::<bool>`: a coin flip; nothing can be
/// promised about the outcome.
#[verifier::external_body]
fn std_rng_bool(r: &mut rand::rngs::StdRng) -> bool {
    r.random::<bool>()
}

/// The random source threaded through map generation and monster turns.
/// Seeding it explicitly keeps runs reproducible.
pub struct GameRng {
    inner: rand::rngs::StdRng,
}

impl GameRng {
    pub fn new(seed: u64) -> GameRng {
        GameRng { inner: seeded_std_rng(seed) }
    }

    /// A draw from `lo..hi` (half-open).
    pub fn range_i32(&mut self, lo: i32, hi: i32) -> (v: i32)
        requires
            lo < hi,
        ensures
            lo <= v < hi,
    {
        std_rng_range_i32(&mut self.inner, lo, hi)
    }

    /// A draw from `lo..hi` (half-open).
    pub fn range_u32(&mut self, lo: u32, hi: u32) -> (v: u32)
        requires
            lo < hi,
        ensures
            lo <= v < hi,
    {
        std_rng_range_u32(&mut self.inner, lo, hi)
    }

    /// A fair coin flip.
    pub fn coin(&mut self) -> bool {
        std_rng_bool(&mut self.inner)
    }
}

} // verus!
