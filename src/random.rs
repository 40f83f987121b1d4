use vstd::prelude::*;
use rand::rngs::StdRng;
use rand::seq::SliceRandom;
use rand::{Rng, SeedableRng};

verus! {

/// The seedable generator of the `rand` crate, carried through as an opaque value.
#[verifier::external_type_specification]
#[verifier::external_body]
pub struct ExStdRng(rand::rngs::StdRng);

/// Relies on rand's `SeedableRng::seed_from_u64` for `StdRng`: a generator
/// determined by `seed`.
#[verifier::external_body]
pub(crate) fn seeded(seed: u64) -> (r: StdRng) {
    StdRng::seed_from_u64(seed)
}

/// Relies on rand's `Rng::gen_range` over `low..high` for `usize`: a value
/// in that range (it panics on an empty range, which `requires` excludes).
#[verifier::external_body]
pub(crate) fn draw_in_range(rng: &mut StdRng, low: usize, high: usize) -> (r: usize)
    requires
        low < high,
    ensures
        low <= r < high,
{
    rng.gen_range(low..high)
}

/// Relies on rand's `Rng::gen_ratio`: `true` with probability
/// `numerator / denominator`, always when the two are equal, never when the
/// numerator is zero (it panics on a zero denominator or a numerator above
/// the denominator, which `requires` excludes).
#[verifier::external_body]
pub(crate) fn draw_ratio(rng: &mut StdRng, numerator: u32, denominator: u32) -> (r: bool)
    requires
        denominator != 0,
        numerator <= denominator,
    ensures
        numerator == denominator ==> r,
        numerator == 0 ==> !r,
{
    rng.gen_ratio(numerator, denominator)
}

/// Relies on rand's `SliceRandom::shuffle` on a slice: the elements are
/// permuted in place by swaps, none added or lost.
#[verifier::external_body]
pub(crate) fn shuffle_cells(rng: &mut StdRng, cells: &mut Vec<i32>)
    ensures
        final(cells)@.len() == old(cells)@.len(),
        final(cells)@.to_multiset() == old(cells)@.to_multiset(),
{
    cells.as_mut_slice().shuffle(rng)
}

} // verus!
