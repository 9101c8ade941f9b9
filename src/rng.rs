use vstd::prelude::*;

use rand::rngs::StdRng;
use rand::Rng;

verus! {

/// rand's standard seedable generator; the renderer threads one through every draw.
#[verifier::external_type_specification]
#[verifier::external_body]
pub struct ExStdRng(StdRng);

/// Relies on rand's `Rng::gen_range`: a draw from `lo..hi`; it panics on an empty range.
#[verifier::external_body]
pub(crate) fn draw(rng: &mut StdRng, lo: i32, hi: i32) -> (r: i32)
    requires
        lo < hi,
    ensures
        lo <= r < hi,
{
    rng.gen_range(lo..hi)
}

} // verus!
