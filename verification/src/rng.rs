use vstd::prelude::*;

verus! {

/// Declares rand's standard generator so that it can appear in signatures.
/// Its state is opaque here: nothing is assumed about the values it yields
/// beyond what each wrapper below states.
#[verifier::external_type_specification]
#[verifier::external_body]
pub struct ExStdRng(rand::rngs::StdRng);

/// Relies on rand::Rng::gen_range over the half-open range `lo..hi`: it
/// returns a uniformly distributed value in [lo, hi) and panics only when
/// the range is empty, which the precondition rules out. Nothing more is
/// promised of the draw: it is random.
#[verifier::external_body]
pub(crate) fn gen_range_usize(rng: &mut rand::rngs::StdRng, lo: usize, hi: usize) -> (r: usize)
    requires
        lo < hi,
    ensures
        lo <= r < hi,
{
    rand::Rng::gen_range(rng, lo..hi)
}

} // verus!
