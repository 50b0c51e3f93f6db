//! The randomness seam: every random draw the library makes goes through one
//! of the functions here, each a pure function of an explicit `u64` seed.
//!
//! Each draw seeds a fresh `rand::rngs::StdRng` from the given seed, so the
//! draw is a deterministic function of its arguments: `StdRng` is a seeded
//! pseudo-random generator whose stream for a fixed seed does not depend on
//! the process or the machine. Distinct draws within one fit use seeds
//! derived from the caller's seed by `derive_seed`. This makes determinism
//! part of the contracts: the result of every draw is named by a spec
//! function of the seed and the other arguments.

use vstd::prelude::*;

use rand::distributions::Distribution;
use rand::prelude::SeedableRng;
use rand::seq::IteratorRandom;
use rand::Rng;

verus! {

/// The indices that `sample_indices` draws for a given seed.
pub uninterp spec fn sample_indices_of(seed: u64, n: usize, k: usize) -> Seq<usize>;

/// The index that `uniform_index` draws for a given seed.
pub uninterp spec fn uniform_index_of(seed: u64, n: usize) -> usize;

/// The index that `weighted_index` draws for a given seed and weights.
pub uninterp spec fn weighted_index_of(seed: u64, weights: Seq<u128>) -> usize;

/// The total of a prefix of a weight sequence.
pub open spec fn weight_total_upto(weights: Seq<u128>, i: int) -> int
    decreases i,
{
    if i <= 0 {
        0
    } else {
        weight_total_upto(weights, i - 1) + weights[i - 1]
    }
}

/// The total of a weight sequence.
pub open spec fn weight_total(weights: Seq<u128>) -> int {
    weight_total_upto(weights, weights.len() as int)
}

/// The seed used for the draw numbered `step` under a caller seed `seed`.
/// Adjacent values are fine as seeds: `StdRng` mixes the `u64` it is seeded
/// from before any output is produced.
pub fn derive_seed(seed: u64, step: u64) -> (r: u64)
    ensures
        r == vstd::wrapping::u64_specs::wrapping_add(seed, step),
{
    seed.wrapping_add(step)
}

/// A seed drawn from the process's entropy, for callers that supplied none.
/// Relies on `rand::random`; nothing is promised of the result, and nothing
/// downstream depends on what it is: every user of the returned seed states
/// what holds for an arbitrary seed.
#[verifier::external_body]
pub(crate) fn fresh_seed() -> u64 {
    rand::random::<u64>()
}

/// Draws `k` distinct indices below `n`, pseudo-randomly from the seed.
/// Relies on `rand`'s `IteratorRandom::choose_multiple` over the range
/// `0..n` (with a `StdRng` seeded via `SeedableRng::seed_from_u64`): it
/// returns exactly `amount` elements whenever the iterator holds at least
/// that many, and selects each iterator element at most once, so the
/// returned indices are distinct values below `n`.
#[verifier::external_body]
pub(crate) fn sample_indices(seed: u64, n: usize, k: usize) -> (r: Vec<usize>)
    requires
        k <= n,
    ensures
        r@ == sample_indices_of(seed, n, k),
        r@.len() == k,
        forall|i: int| 0 <= i < r@.len() ==> #[trigger] r@[i] < n,
        forall|i: int, j: int| 0 <= i < j < r@.len() ==> r@[i] != r@[j],
{
    let mut rng = rand::rngs::StdRng::seed_from_u64(seed);
    (0..n).choose_multiple(&mut rng, k)
}

/// Draws one index uniformly below `n`, pseudo-randomly from the seed.
/// Relies on `rand`'s `Rng::gen_range` over `0..n` (with a `StdRng` seeded
/// via `SeedableRng::seed_from_u64`), which returns a value of the
/// non-empty range.
#[verifier::external_body]
pub(crate) fn uniform_index(seed: u64, n: usize) -> (r: usize)
    requires
        1 <= n,
    ensures
        r == uniform_index_of(seed, n),
        r < n,
{
    let mut rng = rand::rngs::StdRng::seed_from_u64(seed);
    rng.gen_range(0..n)
}

/// Draws one index with probability proportional to its weight,
/// pseudo-randomly from the seed. Relies on `rand`'s
/// `WeightedIndex::new` and `Distribution::sample` (with a `StdRng` seeded
/// via `SeedableRng::seed_from_u64`): with at least one weight, no
/// overflowing total and a positive total, `new` succeeds, and `sample`
/// returns the index of a weight whose half-open cumulative interval is
/// non-empty — an index below the length whose own weight is positive.
#[verifier::external_body]
pub(crate) fn weighted_index(seed: u64, weights: &Vec<u128>) -> (r: usize)
    requires
        weights@.len() >= 1,
        0 < weight_total(weights@) <= u128::MAX,
    ensures
        r == weighted_index_of(seed, weights@),
        r < weights@.len(),
        weights@[r as int] > 0,
{
    let mut rng = rand::rngs::StdRng::seed_from_u64(seed);
    let dist = rand::distributions::WeightedIndex::new(weights).unwrap();
    dist.sample(&mut rng)
}

} // verus!
