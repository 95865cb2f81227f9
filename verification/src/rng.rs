use vstd::prelude::*;

use rand::Rng;

verus! {

// ---------------------------------------------------------------------------
// The pseudo-random source.  Randomized constructors take it as an explicit
// parameter so that shape generation is seedable and reproducible; callers
// build one with `rand::SeedableRng::seed_from_u64`.
// ---------------------------------------------------------------------------

#[verifier::external_type_specification]
#[verifier::external_body]
pub struct ExStdRng(rand::rngs::StdRng);

/// Relies on `rand::Rng::gen_range` over `0..=max_range`: the sample lies in
/// that range.  The range is non-empty, so the call does not panic.  Nothing
/// is assumed about which value comes back.
#[verifier::external_body]
pub(crate) fn rand_i32(rng: &mut rand::rngs::StdRng, max_range: i32) -> (r: i32)
    requires
        max_range >= 0,
    ensures
        0 <= r <= max_range,
{
    rng.gen_range(0..=max_range)
}

} // verus!
