//! Seedable random source. All randomness in the engine (shuffling, and
//! the forced-random hidden-card reveal) flows through this one type, so a
//! seed and an action sequence fully determine an episode.

use vstd::prelude::*;
use rand::{seq::SliceRandom, Rng, SeedableRng};
use rand_chacha::ChaCha8Rng;

verus! {

#[verifier::external_type_specification]
#[verifier::external_body]
pub struct ExChaCha8Rng(ChaCha8Rng);

/// A seeded, deterministic source of randomness for one game.
pub struct GameRng {
    inner: ChaCha8Rng,
}

impl GameRng {
    /// Builds the generator from a seed with `ChaCha8Rng::seed_from_u64`.
    /// Nothing is claimed of the generator state it produces.
    #[verifier::external_body]
    pub fn from_seed(seed: u64) -> (r: GameRng) {
        GameRng { inner: ChaCha8Rng::seed_from_u64(seed) }
    }

    /// Shuffles `slice` in place with rand's `SliceRandom::shuffle`, a
    /// Fisher-Yates pass of swaps: the claim is only that the result is a
    /// rearrangement of the input (same length, same elements with the same
    /// multiplicities). Which order comes out depends on the generator state.
    #[verifier::external_body]
    pub fn shuffle<T>(&mut self, slice: &mut Vec<T>)
        ensures
            final(slice)@.len() == old(slice)@.len(),
            final(slice)@.to_multiset() == old(slice)@.to_multiset(),
    {
        slice.as_mut_slice().shuffle(&mut self.inner);
    }

    /// A uniform index in `0..len` from rand's `Rng::random_range`, which
    /// panics on an empty range (hence the requirement). The claim is only
    /// that the index is in range.
    #[verifier::external_body]
    pub fn gen_index(&mut self, len: usize) -> (r: usize)
        requires
            len > 0,
        ensures
            r < len,
    {
        self.inner.random_range(0..len)
    }
}

} // verus!
