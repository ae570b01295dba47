use vstd::prelude::*;

use rand::Rng;

verus! {

/// The one owned, seedable pseudo-random generator threaded through
/// generation, selection, and breeding, so that an identical seed yields an
/// identical run.
#[verifier::external_type_specification]
#[verifier::external_body]
pub struct ExStdRng(rand::rngs::StdRng);

/// Relies on rand's `Rng::gen_range` over `0..n`: the draw lies below `n`;
/// an empty range would panic, so `n` must be positive.
#[verifier::external_body]
pub(crate) fn rand_index(rng: &mut rand::rngs::StdRng, n: usize) -> (r: usize)
    requires
        n >= 1,
    ensures
        r < n,
{
    rng.gen_range(0..n)
}

/// Relies on rand's `Rng::gen` for `bool`: a draw of one of the two values.
/// Nothing is promised of which comes back.
#[verifier::external_body]
pub(crate) fn rand_flag(rng: &mut rand::rngs::StdRng) -> bool {
    rng.gen()
}

/// Relies on rand's `seq::index::sample`: exactly `amount` distinct indices
/// drawn from `0..length`, uniformly and without replacement; it panics when
/// `amount` exceeds `length`, so that case is excluded. Nothing is promised
/// of the order the indices come in.
#[verifier::external_body]
pub(crate) fn sample_distinct_indices(
    rng: &mut rand::rngs::StdRng,
    length: usize,
    amount: usize,
) -> (r: Vec<usize>)
    requires
        amount <= length,
    ensures
        r@.len() == amount,
        forall|i: int| 0 <= i < r@.len() ==> r@[i] < length,
        forall|i: int, j: int| 0 <= i < j < r@.len() ==> r@[i] != r@[j],
{
    rand::seq::index::sample(rng, length, amount).into_vec()
}

} // verus!
