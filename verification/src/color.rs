use vstd::prelude::*;
use crate::rng::gen_range_usize;

verus! {

/// Largest magnitude of the random per-channel offset that `Color::mutate`
/// applies. The default matches the documented mutation range of [-5, +5].
pub const MUTATION_DELTA: u8 = 5;

/// A three-channel 8-bit color. Alpha is a rendering concern and is not
/// stored here.
#[derive(Clone, Copy, Debug, PartialEq, Eq, Structural)]
pub struct Color {
    pub r: u8,
    pub g: u8,
    pub b: u8,
}

/// The value `v` clamped to the representable channel range [0, 255].
pub open spec fn clamp_channel(v: int) -> u8 {
    if v < 0 {
        0
    } else if v > 255 {
        255
    } else {
        v as u8
    }
}

/// `after` is `before` shifted by some offset of magnitude at most
/// MUTATION_DELTA and clamped to the channel range.
pub open spec fn channel_mutated(before: u8, after: u8) -> bool {
    exists|d: int|
        -(MUTATION_DELTA as int) <= d <= MUTATION_DELTA as int && after == #[trigger] clamp_channel(
            before + d,
        )
}

/// Every channel of `child` arose from the matching channel of `parent` by a
/// bounded, clamped perturbation.
pub open spec fn mutated_from(parent: Color, child: Color) -> bool {
    &&& channel_mutated(parent.r, child.r)
    &&& channel_mutated(parent.g, child.g)
    &&& channel_mutated(parent.b, child.b)
}

/// A channel stays in the representable range whatever value is clamped:
/// mutation can never produce an out-of-range channel.
pub proof fn lemma_clamp_channel_in_range(v: int)
    ensures
        0 <= clamp_channel(v) <= 255,
{
}

impl Color {
    pub fn new(r: u8, g: u8, b: u8) -> (c: Color)
        ensures
            c == (Color { r, g, b }),
    {
        Color { r, g, b }
    }

    /// A new color whose channels are each independently perturbed by a
    /// uniform random offset in [-MUTATION_DELTA, +MUTATION_DELTA] and
    /// clamped to [0, 255]. Mutation always succeeds.
    pub fn mutate(&self, rng: &mut rand::rngs::StdRng) -> (c: Color)
        ensures
            mutated_from(*self, c),
    {
        let span: usize = 2 * (MUTATION_DELTA as usize) + 1;
        let dr: usize = gen_range_usize(rng, 0, span);
        let dg: usize = gen_range_usize(rng, 0, span);
        let db: usize = gen_range_usize(rng, 0, span);
        let cr: u8 = shift_channel(self.r, dr);
        let cg: u8 = shift_channel(self.g, dg);
        let cb: u8 = shift_channel(self.b, db);
        Color { r: cr, g: cg, b: cb }
    }
}

/// One channel moved by the drawn offset `d - MUTATION_DELTA` and clamped.
fn shift_channel(before: u8, d: usize) -> (after: u8)
    requires
        d <= 2 * MUTATION_DELTA,
    ensures
        channel_mutated(before, after),
{
    let shifted: i16 = before as i16 + (d as i16 - MUTATION_DELTA as i16);
    let after: u8 = if shifted < 0 {
        0u8
    } else if shifted > 255 {
        255u8
    } else {
        shifted as u8
    };
    proof {
        let offset = d as int - MUTATION_DELTA as int;
        assert(after == clamp_channel(before + offset));
    }
    after
}

} // verus!
