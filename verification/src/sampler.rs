//! Trusted boundary to the `rand` crate: the single uniform draw that the
//! generator needs, against an injected generator so that callers can pin
//! outcomes with a seeded one.
use vstd::prelude::*;

verus! {

#[verifier::external_type_specification]
#[verifier::external_body]
pub struct ExStdRng(rand::rngs::StdRng);

/// Relies on `rand::RngExt::random_range` over `0..bound`: the draw lies
/// strictly below `bound`. Nothing more is assumed of a random result.
#[verifier::external_body]
pub(crate) fn draw_below(rng: &mut rand::rngs::StdRng, bound: usize) -> (r: usize)
    requires
        bound > 0,
    ensures
        r < bound,
{
    rand::RngExt::random_range(rng, 0..bound)
}

} // verus!
