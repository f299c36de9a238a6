//! Random-number plumbing: the seeded generator owned by a minesweeper
//! field and the draws the game engines make, each behind a small trusted
//! wrapper around the `rand` crate.

use vstd::prelude::*;
use rand::Rng;
use rand::SeedableRng;
use rand::rngs::StdRng;
use rand::seq::SliceRandom;
use crate::minesweeper::field::Cell;

verus! {

#[verifier::external_type_specification]
#[verifier::external_body]
pub struct ExStdRng(StdRng);

/// Relies on rand's `SeedableRng::from_entropy`: a fresh generator seeded
/// from the operating system; nothing can be promised of its draws.
#[verifier::external_body]
pub fn entropy_rng() -> StdRng {
    StdRng::from_entropy()
}

/// Relies on rand's `SliceRandom::shuffle`: a Fisher-Yates shuffle permutes
/// the slice in place, so the elements afterwards are exactly the elements
/// before, in some order.
#[verifier::external_body]
pub(crate) fn shuffle_cells(v: &mut Vec<Cell>, rng: &mut StdRng)
    ensures
        final(v)@.to_multiset() == old(v)@.to_multiset(),
        final(v)@.len() == old(v)@.len(),
{
    v.shuffle(rng);
}

/// Relies on rand's `SliceRandom::shuffle`, as `shuffle_cells` does, with a
/// thread-local generator.
#[verifier::external_body]
pub(crate) fn shuffle_indices(v: &mut Vec<usize>)
    ensures
        final(v)@.to_multiset() == old(v)@.to_multiset(),
        final(v)@.len() == old(v)@.len(),
{
    v.shuffle(&mut rand::thread_rng());
}

/// Relies on rand's `SliceRandom::choose`: a non-empty slice yields one of
/// its own elements; only an empty slice yields `None`.
#[verifier::external_body]
pub(crate) fn choose_index(v: &Vec<usize>) -> (r: usize)
    requires
        v@.len() > 0,
    ensures
        v@.contains(r),
{
    *v.choose(&mut rand::thread_rng()).expect("slice is not empty")
}

/// Relies on rand's `Rng::gen_ratio`: a coin flip that is true with
/// probability `num / den`; nothing can be promised of a single draw.
#[verifier::external_body]
pub(crate) fn ratio_coin(rng: &mut StdRng, num: u32, den: u32) -> bool
    requires
        0 < den,
        num <= den,
{
    rng.gen_ratio(num, den)
}

/// Relies on rand's `Rng::gen_range`: a draw from `0..n` is below `n`.
#[verifier::external_body]
pub(crate) fn pick_below(rng: &mut StdRng, n: u32) -> (r: u32)
    requires
        0 < n,
    ensures
        r < n,
{
    rng.gen_range(0..n)
}

} // verus!
