//! Random draws for the evolutionary operators.
//!
//! Nothing is assumed of a draw beyond its range, so every caller is verified
//! for each value the generator can hand back.

use rand::Rng;
use vstd::prelude::*;

verus! {

/// Relies on rand's `gen_range` over `0..bound`: the draw lies below `bound`.
#[verifier::external_body]
pub fn rand_below(bound: u64) -> (r: u64)
    requires
        bound > 0,
    ensures
        r < bound,
{
    rand::thread_rng().gen_range(0..bound)
}

/// Relies on rand's `seq::index::sample`: exactly `amount` distinct indices
/// drawn from `0..length`, in random order; it panics when `amount` exceeds
/// `length`.
#[verifier::external_body]
pub fn sample_indices(length: usize, amount: usize) -> (r: Vec<usize>)
    requires
        amount <= length,
    ensures
        r@.len() == amount,
        forall|i: int| 0 <= i < r@.len() ==> #[trigger] r@[i] < length,
        forall|i: int, j: int| 0 <= i < j < r@.len() ==> r@[i] != r@[j],
{
    rand::seq::index::sample(&mut rand::thread_rng(), length, amount).into_vec()
}

} // verus!
