//! Choosing parents.

use crate::error::EvolutionError;
use crate::individual::Individual;
use crate::random::{draws_position, lemma_position_is_recorded, weighted_index};
use crate::scores::{are_scores_of, lemma_total_grows, none_negative, scores_of, total};
use rand::distributions::WeightedError;
use rand_chacha::ChaCha8Rng;
use vstd::prelude::*;

verus! {

/// A way of picking one parent out of a population that is not empty.
pub trait SelectionMethod<I: Individual> {
    /// Picks one individual. Successive picks are independent, so the same
    /// individual may be picked again.
    fn select<'a>(&self, rng: &mut ChaCha8Rng, population: &'a [I]) -> (outcome: Result<
        &'a I,
        EvolutionError,
    >)
        requires
            population@.len() > 0,
        ensures
            outcome matches Ok(parent) ==> population@.contains(*parent),
    ;
}

/// Why the wheel cannot be spun over `scores`, if it cannot: a score is
/// negative, the scores sum past `i32::MAX`, or no score is positive.
pub open spec fn wheel_fault(scores: Seq<i32>) -> Option<EvolutionError> {
    if !none_negative(scores) {
        Some(EvolutionError::NegativeFitness)
    } else if total(scores) > i32::MAX {
        Some(EvolutionError::FitnessOverflow)
    } else if total(scores) == 0 {
        Some(EvolutionError::NoFitness)
    } else {
        None
    }
}

/// Fitness-proportionate selection: each individual owns a share of the wheel
/// equal to its fitness.
pub struct RouletteWheelSelection;

impl RouletteWheelSelection {
    /// The wheel needs no settings.
    pub fn new() -> (method: Self)
        ensures
            method == RouletteWheelSelection,
    {
        RouletteWheelSelection
    }

    /// Spins the wheel over `scores` and returns the position it stops at.
    ///
    /// A wheel with a negative score, a wheel whose scores sum past
    /// `i32::MAX` and a wheel without any positive score are rejected, each
    /// with its own error and with the generator left as it was. Otherwise
    /// the position is the one that a single weighted draw over the scores
    /// gives; it always carries a positive score, so an individual of fitness
    /// zero is never selected.
    pub fn spin(rng: &mut ChaCha8Rng, scores: &Vec<i32>) -> (outcome: Result<usize, EvolutionError>)
        ensures
            wheel_fault(scores@) matches Some(fault) ==> outcome == Err::<usize, EvolutionError>(
                fault,
            ) && *final(rng) == *old(rng),
            wheel_fault(scores@) is None ==> outcome is Ok,
            outcome matches Ok(index) ==> {
                &&& index < scores@.len()
                &&& scores@[index as int] > 0
                &&& exists|from: &mut ChaCha8Rng|
                    {
                        &&& *from == *old(rng)
                        &&& #[trigger] draws_position(from, scores@, index)
                        &&& *final(rng) == *final(from)
                    }
            },
    {
        let mut i: usize = 0;
        while i < scores.len()
            invariant
                0 <= i <= scores@.len(),
                *rng == *old(rng),
                forall|k: int| 0 <= k < i ==> scores@[k] >= 0,
            decreases scores@.len() - i,
        {
            if scores[i] < 0 {
                return Err(EvolutionError::NegativeFitness);
            }
            i = i + 1;
        }
        let mut sum: i64 = 0;
        let mut j: usize = 0;
        while j < scores.len()
            invariant
                0 <= j <= scores@.len(),
                *rng == *old(rng),
                none_negative(scores@),
                0 <= sum <= i32::MAX,
                sum == total(scores@.take(j as int)),
            decreases scores@.len() - j,
        {
            proof {
                assert(scores@.take(j + 1).drop_last() == scores@.take(j as int));
                lemma_total_grows(scores@, j + 1);
            }
            sum = sum + scores[j] as i64;
            if sum > i32::MAX as i64 {
                return Err(EvolutionError::FitnessOverflow);
            }
            j = j + 1;
        }
        proof {
            assert(scores@.take(j as int) == scores@);
        }
        if sum == 0 {
            return Err(EvolutionError::NoFitness);
        }
        let drawn = weighted_index(rng, scores);
        proof {
            assert forall|from: &mut ChaCha8Rng, index: usize| #[trigger]
                call_ensures(
                    weighted_index,
                    (from, scores),
                    Ok::<usize, WeightedError>(index),
                ) implies draws_position(from, scores@, index) by {
                lemma_position_is_recorded(from, scores, index);
            }
        }
        match drawn {
            Ok(index) => Ok(index),
            Err(_) => Err(EvolutionError::NoFitness),
        }
    }
}

impl<I: Individual> SelectionMethod<I> for RouletteWheelSelection {
    /// Reads every fitness, spins the wheel over them and hands out the
    /// individual at the position drawn.
    ///
    /// With `scores` being fitness that the individuals have shown: a fault
    /// of the wheel over these scores is handed on and the generator is left
    /// as it was; otherwise the individual stands at the position that a
    /// single weighted draw over the scores gives.
    fn select<'a>(&self, rng: &mut ChaCha8Rng, population: &'a [I]) -> (outcome: Result<
        &'a I,
        EvolutionError,
    >)
        ensures
            exists|scores: Seq<i32>|
                {
                    &&& #[trigger] are_scores_of(scores, population@)
                    &&& wheel_fault(scores) matches Some(fault) ==> outcome == Err::<
                        &I,
                        EvolutionError,
                    >(fault) && *final(rng) == *old(rng)
                    &&& wheel_fault(scores) is None ==> exists|from: &mut ChaCha8Rng, index: usize|
                        {
                            &&& index < population@.len()
                            &&& scores[index as int] > 0
                            &&& outcome == Ok::<&I, EvolutionError>(&population@[index as int])
                            &&& *from == *old(rng)
                            &&& #[trigger] draws_position(from, scores, index)
                            &&& *final(rng) == *final(from)
                        }
                },
    {
        let scores = scores_of(population);
        let outcome = match RouletteWheelSelection::spin(rng, &scores) {
            Ok(index) => Ok(&population[index]),
            Err(error) => Err(error),
        };
        assert(are_scores_of(scores@, population@));
        outcome
    }
}

} // verus!
