//! The random source and the draws the library takes from it.
//!
//! The generator is owned by the caller and threaded through every call that
//! needs chance. Nothing here seeds, copies or keeps one.

use crate::scores::{none_negative, total};
use rand::distributions::WeightedError;
use rand::seq::SliceRandom;
use rand::Rng;
use rand_chacha::ChaCha8Rng;
use vstd::prelude::*;

verus! {

/// `rand_chacha::ChaCha8Rng`, carried through as an opaque value.
#[verifier::external_type_specification]
#[verifier::external_body]
pub struct ExChaCha8Rng(ChaCha8Rng);

/// `rand::Rng::gen_ratio`: a boolean draw that comes out `true` with
/// probability `numerator / denominator`.
///
/// Claimed of it: with a numerator of zero the draw is `false`, and with a
/// numerator equal to the denominator it is `true`; of any other draw nothing
/// is claimed. The precondition keeps out the ratios on which the call
/// panics.
#[verifier::external_body]
pub(crate) fn ratio_draw(rng: &mut ChaCha8Rng, numerator: u32, denominator: u32) -> (hit: bool)
    requires
        denominator > 0,
        numerator <= denominator,
    ensures
        numerator == 0 ==> !hit,
        numerator == denominator ==> hit,
{
    rng.gen_ratio(numerator, denominator)
}

/// `hit` is what a boolean draw at the chance `numerator / denominator` has
/// given, taken from the generator behind `rng`: the generator is read as the
/// reference finds it and left as the reference leaves it.
pub closed spec fn draws_flag(
    rng: &mut ChaCha8Rng,
    numerator: u32,
    denominator: u32,
    hit: bool,
) -> bool {
    call_ensures(ratio_draw, (rng, numerator, denominator), hit)
}

/// `hit` is what some boolean draw at the chance `numerator / denominator`
/// has given.
pub open spec fn is_drawn_flag(numerator: u32, denominator: u32, hit: bool) -> bool {
    exists|rng: &mut ChaCha8Rng| #[trigger] draws_flag(rng, numerator, denominator, hit)
}

/// A call of the boolean draw is recorded by `draws_flag`.
pub(crate) proof fn lemma_flag_is_recorded(
    rng: &mut ChaCha8Rng,
    numerator: u32,
    denominator: u32,
    hit: bool,
)
    requires
        call_ensures(ratio_draw, (rng, numerator, denominator), hit),
    ensures
        draws_flag(rng, numerator, denominator, hit),
{
}

/// A boolean draw at a chance of zero gives `false`, and one at a chance of
/// one gives `true`.
pub proof fn lemma_drawn_flag_at_the_ends(
    rng: &mut ChaCha8Rng,
    numerator: u32,
    denominator: u32,
    hit: bool,
)
    requires
        draws_flag(rng, numerator, denominator, hit),
    ensures
        numerator == 0 ==> !hit,
        numerator == denominator ==> hit,
{
}

/// `rand::Rng::gen_range(0..bound)`: a uniform draw from the integers below
/// `bound`. Claimed of it: the value drawn lies in the range. The
/// precondition keeps out the empty range, on which the call panics.
#[verifier::external_body]
pub(crate) fn uniform_below(rng: &mut ChaCha8Rng, bound: u32) -> (value: u32)
    requires
        bound > 0,
    ensures
        value < bound,
{
    rng.gen_range(0..bound)
}

/// `value` is what a uniform draw from the integers below `bound` has given,
/// taken from the generator behind `rng`: the generator is read as the
/// reference finds it and left as the reference leaves it.
pub closed spec fn draws_below(rng: &mut ChaCha8Rng, bound: u32, value: u32) -> bool {
    call_ensures(uniform_below, (rng, bound), value)
}

/// A call of the draw is recorded by `draws_below`.
pub(crate) proof fn lemma_draw_is_recorded(rng: &mut ChaCha8Rng, bound: u32, value: u32)
    requires
        call_ensures(uniform_below, (rng, bound), value),
    ensures
        draws_below(rng, bound, value),
{
}

/// What has been drawn from the integers below a bound lies below it.
pub proof fn lemma_drawn_value_is_below(rng: &mut ChaCha8Rng, bound: u32, value: u32)
    requires
        draws_below(rng, bound, value),
    ensures
        value < bound,
{
}

/// `rand::distributions::WeightedError`: why a weighted draw was refused.
#[verifier::external_type_specification]
pub struct ExWeightedError(WeightedError);

/// `rand::seq::SliceRandom::choose_weighted` over the positions of `weights`,
/// each position weighted by its entry.
///
/// Claimed of it: without any weight it reports `NoItem`; with weights that
/// are all zero it reports `AllWeightsZero`; otherwise it succeeds, and the
/// position drawn is in range and has a positive weight. The precondition
/// keeps out negative weights, which the library rejects itself, and the
/// weights whose running total would overflow inside the sampler.
#[verifier::external_body]
pub(crate) fn weighted_index(
    rng: &mut ChaCha8Rng,
    weights: &Vec<i32>,
) -> (outcome: Result<usize, WeightedError>)
    requires
        none_negative(weights@),
        total(weights@) <= i32::MAX,
    ensures
        weights@.len() == 0 <==> (outcome matches Err(WeightedError::NoItem)),
        (outcome matches Err(WeightedError::AllWeightsZero)) <==> (weights@.len() > 0 && total(weights@) == 0),
        total(weights@) > 0 <==> outcome is Ok,
        outcome matches Ok(index) ==> index < weights@.len() && weights@[index as int] > 0,
{
    let slots: Vec<usize> = (0..weights.len()).collect();
    slots.choose_weighted(rng, |slot| weights[*slot]).map(|slot| *slot)
}

/// `index` is the position that a weighted draw over `weights` has given,
/// taken from the generator behind `rng`: the generator is read as the
/// reference finds it and left as the reference leaves it.
pub closed spec fn draws_position(rng: &mut ChaCha8Rng, weights: Seq<i32>, index: usize) -> bool {
    exists|held: &Vec<i32>| #[trigger]
        call_ensures(weighted_index, (rng, held), Ok::<usize, WeightedError>(index)) && held@
            == weights
}

/// A successful call of the weighted draw is recorded by `draws_position`.
pub(crate) proof fn lemma_position_is_recorded(
    rng: &mut ChaCha8Rng,
    weights: &Vec<i32>,
    index: usize,
)
    requires
        call_ensures(weighted_index, (rng, weights), Ok::<usize, WeightedError>(index)),
    ensures
        draws_position(rng, weights@, index),
{
}

/// The position that a weighted draw has given is in range and carries a
/// positive weight.
pub proof fn lemma_drawn_position_has_weight(rng: &mut ChaCha8Rng, weights: Seq<i32>, index: usize)
    requires
        draws_position(rng, weights, index),
    ensures
        index < weights.len(),
        weights[index as int] > 0,
{
}

} // verus!
