//! The boundary to the random number generator.
//!
//! The rest of the library never promises anything about which value a
//! sample takes, only that it lies in the requested closed range; every
//! caller is verified for every value the generator may hand back.
use vstd::prelude::*;

verus! {

#[verifier::external_type_specification]
#[verifier::external_body]
pub struct ExThreadRng(rand::rngs::ThreadRng);

/// Relies on rand's `RngExt::random_range` over the inclusive range
/// `lo..=hi`: the sample lies in that closed range, which `lo <= hi`
/// keeps non-empty, so the call does not panic.
#[verifier::external_body]
pub(crate) fn sample_in_range(rng: &mut rand::rngs::ThreadRng, lo: u32, hi: u32) -> (r: u32)
    requires
        lo <= hi,
    ensures
        lo <= r <= hi,
{
    rand::RngExt::random_range(rng, lo..=hi)
}

} // verus!
