use rand_pcg::Lcg64Xsh32;
use vstd::prelude::*;

verus! {

/// The PCG-XSH-RR 64/32 generator of `rand_pcg` (`Pcg32` is an alias of it),
/// carried through the synthesizer's state as an opaque value.
#[verifier::external_type_specification]
#[verifier::external_body]
pub struct ExLcg64Xsh32(Lcg64Xsh32);

/// The generator that `rand_pcg::Lcg64Xsh32::new(state, stream)` returns.
pub uninterp spec fn pcg32_seeded(state: u64, stream: u64) -> Lcg64Xsh32;

/// Calls `rand_pcg::Lcg64Xsh32::new(state, stream)`, which seeds a generator
/// with the given state on the given stream and never panics. The generator
/// depends on its two arguments alone, so the result is named by
/// `pcg32_seeded`; the generator's internal state is private to `rand_pcg`
/// and is not described further.
#[verifier::external_body]
pub(crate) fn seeded_pcg32(state: u64, stream: u64) -> (r: Lcg64Xsh32)
    ensures
        r == pcg32_seeded(state, stream),
{
    Lcg64Xsh32::new(state, stream)
}

} // verus!
