//! The random source: rand's standard generator behind a trusted wrapper.
//!
//! Sampling is the one effect in the tracing pipeline; everything that
//! consumes a sample takes it as a plain bounded scalar, so the rest of
//! the library is verified for every value the generator can produce.

use vstd::prelude::*;
use rand::Rng;

verus! {

#[verifier::external_type_specification]
#[verifier::external_body]
pub struct ExStdRng(rand::rngs::StdRng);

/// Relies on rand's `Rng::gen_range` over a half-open integer range:
/// the sample lies in `[lo, hi)`; an empty range would panic, so it is
/// ruled out here.
#[verifier::external_body]
pub(crate) fn rand_in(rng: &mut rand::rngs::StdRng, lo: i64, hi: i64) -> (r: i64)
    requires
        lo < hi,
    ensures
        lo <= r < hi,
{
    rng.gen_range(lo..hi)
}

} // verus!
