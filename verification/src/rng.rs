//! The random generator that the engine draws from.

use vstd::prelude::*;

verus! {

/// `rand_pcg::Mcg128Xsl64`, which `rand_pcg::Pcg64Mcg` names: a generator
/// of which nothing is known here but that it can be drawn from.
#[verifier::external_type_specification]
#[verifier::external_body]
pub struct ExMcg128Xsl64(rand_pcg::Mcg128Xsl64);

/// A fast generator that its owner hands to whatever needs a draw. Each
/// worker owns one; none is shared.
pub struct ThreadRng {
    pub rng: rand_pcg::Mcg128Xsl64,
}

impl ThreadRng {
    /// `rand::Rng::gen_range` with the bounds 0 and 3: one of the three
    /// axes. The bounds are in order, so the call does not panic, and what
    /// it returns is at least the lower and below the upper bound. Which
    /// of the three comes out is not said.
    #[verifier::external_body]
    pub(crate) fn pick_axis(&mut self) -> (axis: usize)
        ensures
            axis < 3,
    {
        rand::Rng::gen_range(&mut self.rng, 0usize, 3usize)
    }
}

} // verus!
