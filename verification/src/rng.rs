//! The crate's only source of randomness: thin trusted wrappers around the
//! `rand` crate. Nothing is assumed of an outcome beyond the range it is
//! drawn from, so every caller is verified for every possible draw.

use rand::Rng;
use vstd::prelude::*;

verus! {

/// Relies on `rand::Rng::gen_range` on the thread-local generator: the
/// sample lies within the given (non-empty, inclusive) range.
#[verifier::external_body]
pub(crate) fn gen_range_inclusive(lo: i32, hi: i32) -> (r: i32)
    requires
        lo <= hi,
    ensures
        lo <= r <= hi,
{
    rand::thread_rng().gen_range(lo..=hi)
}

/// Relies on `rand::random`: a sample of the standard distribution, of
/// which nothing further is assumed.
pub assume_specification<T>[ rand::random::<T> ]() -> (r: T)
    where
        rand::distributions::Standard: rand::distributions::Distribution<T>,
;

} // verus!
