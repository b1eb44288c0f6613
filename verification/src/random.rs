//! Random draws: from rand's standard generator and thread-local
//! generator, and fresh UUIDs.
//!
//! What a draw returns depends on the generator's state, so the contracts
//! here say what holds of every outcome.

use vstd::prelude::*;
use rand::rngs::StdRng;
use rand::Rng;
use rand::SeedableRng;

verus! {

/// rand's standard generator, opaque here.
#[verifier::external_type_specification]
#[verifier::external_body]
pub struct ExStdRng(rand::rngs::StdRng);

/// A generator seeded from the operating system (rand's
/// `SeedableRng::from_entropy`).
#[verifier::external_body]
pub(crate) fn entropy_rng() -> StdRng {
    StdRng::from_entropy()
}

/// A generator determined by `seed` (rand's `SeedableRng::seed_from_u64`).
#[verifier::external_body]
pub(crate) fn seeded_rng(seed: u64) -> StdRng {
    StdRng::seed_from_u64(seed)
}

/// A draw from `0..n` (rand's `Rng::gen_range` on a `usize` range, which
/// panics on an empty range).
#[verifier::external_body]
pub(crate) fn random_index(rng: &mut StdRng, n: usize) -> (r: usize)
    requires
        n > 0,
    ensures
        r < n,
{
    rng.gen_range(0..n)
}

/// A draw from `lo..=hi` (rand's `Rng::gen_range` on an inclusive `u64`
/// range).
#[verifier::external_body]
pub(crate) fn random_u64_in(rng: &mut StdRng, lo: u64, hi: u64) -> (r: u64)
    requires
        lo <= hi,
    ensures
        lo <= r <= hi,
{
    rng.gen_range(lo..=hi)
}

/// A draw from `lo..=hi` (rand's `Rng::gen_range` on an inclusive `i64`
/// range).
#[verifier::external_body]
pub(crate) fn random_i64_in(rng: &mut StdRng, lo: i64, hi: i64) -> (r: i64)
    requires
        lo <= hi,
    ensures
        lo <= r <= hi,
{
    rng.gen_range(lo..=hi)
}

/// `true` with probability `numerator / denominator` (rand's
/// `Rng::gen_ratio`, which panics when the denominator is zero or below
/// the numerator).
#[verifier::external_body]
pub(crate) fn random_ratio(rng: &mut StdRng, numerator: u32, denominator: u32) -> bool
    requires
        0 < denominator,
        numerator <= denominator,
{
    rng.gen_ratio(numerator, denominator)
}

/// Any `u64` (rand's `Rng::gen` for `u64`).
#[verifier::external_body]
pub(crate) fn random_u64(rng: &mut StdRng) -> u64 {
    rng.gen::<u64>()
}

/// Any `u32` (rand's `Rng::gen` for `u32`).
#[verifier::external_body]
pub(crate) fn random_u32(rng: &mut StdRng) -> u32 {
    rng.gen::<u32>()
}

/// Any `i64` from the thread-local generator (rand's `random`).
#[verifier::external_body]
pub(crate) fn thread_random_i64() -> i64 {
    rand::random::<i64>()
}

/// Any `usize` from the thread-local generator (rand's `random`).
#[verifier::external_body]
pub(crate) fn thread_random_usize() -> usize {
    rand::random::<usize>()
}

/// Either boolean (rand's `Rng::gen` for `bool`).
#[verifier::external_body]
pub(crate) fn random_bool(rng: &mut StdRng) -> bool {
    rng.gen::<bool>()
}

/// A fresh random (version 4) UUID as its 128-bit value (uuid's
/// `Uuid::new_v4`, then `Uuid::as_u128`). Nothing is stated of the value:
/// it comes from the operating system's random source.
#[verifier::external_body]
pub(crate) fn new_uuid() -> u128 {
    uuid::Uuid::new_v4().as_u128()
}

} // verus!
