//! Weighted random choice of an index, through `rand`'s `WeightedIndex`.
use vstd::prelude::*;
use rand::distr::Distribution;
use rand::distr::weighted::WeightedIndex;
use rand::rngs::SmallRng;

verus! {

/// A distribution over indices, each drawn with a probability proportional
/// to its weight: rand's `WeightedIndex<u32>`, held in a private field.
#[verifier::external_body]
pub struct WeightedChoice {
    inner: WeightedIndex<u32>,
}

#[verifier::external_type_specification]
#[verifier::external_body]
pub struct ExSmallRng(SmallRng);

/// The weights that the distribution was made from, in order.
pub uninterp spec fn index_weights(dist: WeightedChoice) -> Seq<u32>;

/// The sum of a list of weights.
pub open spec fn weight_sum(weights: Seq<int>) -> int
    decreases weights.len(),
{
    if weights.len() == 0 {
        0
    } else {
        weight_sum(weights.drop_last()) + weights.last()
    }
}

/// `WeightedIndex::new` accepts the weights: there is at least one, and
/// their sum is positive and fits in a `u32`.
pub open spec fn weights_accepted(weights: Seq<int>) -> bool {
    weights.len() > 0 && 0 < weight_sum(weights) <= u32::MAX
}

/// Calls `WeightedIndex::new` and keeps the distribution where it was made.
/// For `u32` weights rand's source fails exactly on an empty list
/// (`InvalidInput`), on a sum that overflows (`Overflow`) and on a zero sum
/// (`InsufficientNonZero`); the distribution holds the weights it was made
/// from.
#[verifier::external_body]
pub fn weighted_index(weights: &Vec<u32>) -> (r: Option<WeightedChoice>)
    ensures
        r is Some <==> weights_accepted(weights@.map_values(|w: u32| w as int)),
        r matches Some(d) ==> index_weights(d) == weights@,
{
    match WeightedIndex::new(weights.iter()) {
        Ok(inner) => Some(WeightedChoice { inner }),
        Err(_) => None,
    }
}

/// Calls `Distribution::sample` on the `WeightedIndex`. rand documents that the
/// result is the index of one of the weights and that an index of weight zero
/// is never chosen; which index comes out depends on the generator's state.
#[verifier::external_body]
pub fn sample_index(dist: &WeightedChoice, rng: &mut SmallRng) -> (i: usize)
    ensures
        i < index_weights(*dist).len(),
        index_weights(*dist)[i as int] > 0,
{
    dist.inner.sample(rng)
}

} // verus!
