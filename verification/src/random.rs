//! The source of randomness: the permuted congruential generator
//! `rand_pcg::Pcg64Mcg`, drawn from through `rand::Rng`.
//!
//! Nothing here is proved. The state of the generator is hidden from Verus,
//! and what is said of a draw is what `rand` documents of it.

use vstd::prelude::*;
use rand::Rng;
use rand_pcg::Pcg64Mcg;

verus! {

/// `rand_pcg::Mcg128Xsl64`, which `rand_pcg` also names `Pcg64Mcg`. Its state
/// is hidden: verified code only carries a generator to `uniform`.
#[verifier::external_type_specification]
#[verifier::external_body]
pub struct ExMcg128Xsl64(rand_pcg::Mcg128Xsl64);

/// Draws an integer from `low ..= high` by `rand::Rng::gen_range`.
///
/// `gen_range` panics on an empty range, which `requires` leaves out. It is
/// trusted to return a value inside the range it was given; which value is
/// left open, so two draws from one range may differ.
#[verifier::external_body]
pub(crate) fn uniform(random: &mut Pcg64Mcg, low: i64, high: i64) -> (x: i64)
    requires
        low <= high,
    ensures
        low <= x <= high,
{
    random.gen_range(low..=high)
}

} // verus!
