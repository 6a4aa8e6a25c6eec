//! Random numbers, from the `rand` crate.
use vstd::prelude::*;

use rand::rngs::{SmallRng, ThreadRng};
use rand::{Rng, SeedableRng};

verus! {

#[verifier::external_type_specification]
#[verifier::external_body]
pub struct ExSmallRng(SmallRng);

#[verifier::external_type_specification]
#[verifier::external_body]
pub struct ExThreadRng(ThreadRng);

/// Calls `SmallRng::seed_from_u64`: a small generator seeded from `seed`. Nothing is claimed
/// of it.
#[verifier::external_body]
pub(crate) fn seeded_small_rng(seed: u64) -> SmallRng {
    SmallRng::seed_from_u64(seed)
}

/// Calls `rand::rng`: the thread's generator. Nothing is claimed of it.
#[verifier::external_body]
pub(crate) fn thread_rng() -> ThreadRng {
    rand::rng()
}

/// Calls `Rng::random_range` with the range `lo..hi`, which gives a value in the range and
/// panics on an empty one; the contract claims that the value lies in the range.
#[verifier::external_body]
pub(crate) fn random_range(rng: &mut ThreadRng, lo: usize, hi: usize) -> (r: usize)
    requires
        lo < hi,
    ensures
        lo <= r < hi,
{
    rng.random_range(lo..hi)
}

/// Calls `Rng::random_range` on a small generator with the range `lo..hi`; the value lies in
/// the range (the call panics on an empty one).
#[verifier::external_body]
pub(crate) fn random_index(rng: &mut SmallRng, lo: usize, hi: usize) -> (r: usize)
    requires
        lo < hi,
    ensures
        lo <= r < hi,
{
    rng.random_range(lo..hi)
}

/// Calls `Rng::random_range` on a small generator with the inclusive `u8` range `lo..=hi`; the
/// value lies in the range (the call panics on an empty one).
#[verifier::external_body]
pub(crate) fn random_u8_inclusive(rng: &mut SmallRng, lo: u8, hi: u8) -> (r: u8)
    requires
        lo <= hi,
    ensures
        lo <= r <= hi,
{
    rng.random_range(lo..=hi)
}

/// Calls `Rng::random_ratio`: true with chance `numerator` in `denominator`. Its documentation
/// promises `false` for a zero numerator and `true` when the two are equal; it panics when the
/// denominator is zero or smaller than the numerator.
#[verifier::external_body]
pub(crate) fn random_ratio(rng: &mut SmallRng, numerator: u32, denominator: u32) -> (r: bool)
    requires
        0 < denominator,
        numerator <= denominator,
    ensures
        numerator == 0 ==> !r,
        numerator == denominator ==> r,
{
    rng.random_ratio(numerator, denominator)
}

/// Calls `Rng::random_range` on a small generator with the `i32` range `lo..hi`; the value
/// lies in the range (the call panics on an empty one).
#[verifier::external_body]
pub(crate) fn random_i32(rng: &mut SmallRng, lo: i32, hi: i32) -> (r: i32)
    requires
        lo < hi,
    ensures
        lo <= r < hi,
{
    rng.random_range(lo..hi)
}

} // verus!
