//! Random draws, through thin trusted wrappers over the `rand` crate.
//!
//! Nothing is claimed of a draw but its range, or the slice it is taken
//! from; the verified code that uses one states what holds whatever was
//! drawn, and takes the draw as an argument where its result depends on it.
use vstd::prelude::*;
use rand::Rng;
use rand::rngs::ThreadRng;
use rand::seq::SliceRandom;
use crate::grid_map::Tile;

verus! {

#[verifier::external_type_specification]
#[verifier::external_body]
pub struct ExThreadRng(rand::rngs::ThreadRng);

/// Calls `rand::thread_rng`: the thread-local generator. Nothing is
/// claimed of it.
#[verifier::external_body]
pub(crate) fn thread_rng() -> ThreadRng {
    rand::thread_rng()
}

/// Calls `rand::Rng::gen_range` with the inclusive range `low..=high`,
/// which is never empty here: the draw lies in the range.
#[verifier::external_body]
pub(crate) fn gen_range_inclusive(rng: &mut ThreadRng, low: u64, high: u64) -> (r: u64)
    requires
        low <= high,
    ensures
        low <= r <= high,
{
    rng.gen_range(low..=high)
}

/// Calls `rand::seq::SliceRandom::choose` on `tiles`: one of its
/// elements, picked at random, or `None` exactly when it is empty. Which
/// element is not claimed.
#[verifier::external_body]
pub(crate) fn choose_tile<'a>(rng: &mut ThreadRng, tiles: &Vec<&'a Tile>) -> (r: Option<&'a Tile>)
    ensures
        r is None <==> tiles@.len() == 0,
        r matches Some(t) ==> tiles@.contains(t),
{
    tiles.choose(rng).copied()
}

} // verus!
