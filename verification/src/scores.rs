//! Fitness scores as plain numbers.

use crate::individual::{shows_fitness, Individual};
use vstd::prelude::*;

verus! {

/// Sum of a sequence of scores.
pub open spec fn total(scores: Seq<i32>) -> int
    decreases scores.len(),
{
    if scores.len() == 0 {
        0
    } else {
        total(scores.drop_last()) + scores.last() as int
    }
}

/// No score is below zero.
pub open spec fn none_negative(scores: Seq<i32>) -> bool {
    forall|i: int| 0 <= i < scores.len() ==> scores[i] >= 0
}

/// Where no score is negative, the sum over a prefix lies between zero and
/// the sum over the whole.
pub proof fn lemma_total_grows(scores: Seq<i32>, n: int)
    requires
        0 <= n <= scores.len(),
        none_negative(scores),
    ensures
        0 <= total(scores.take(n)) <= total(scores),
    decreases scores.len() - n,
{
    if n < scores.len() {
        assert(scores.take(n + 1).drop_last() == scores.take(n));
        lemma_total_grows(scores, n + 1);
        lemma_total_is_not_negative(scores.take(n));
    } else {
        assert(scores.take(n) == scores);
        lemma_total_is_not_negative(scores);
    }
}

/// Where no score is negative, neither is their sum.
pub proof fn lemma_total_is_not_negative(scores: Seq<i32>)
    requires
        none_negative(scores),
    ensures
        0 <= total(scores),
    decreases scores.len(),
{
    if scores.len() > 0 {
        lemma_total_is_not_negative(scores.drop_last());
    }
}

/// `scores` holds, position by position, a fitness that the individual at
/// that position of `population` has shown.
pub open spec fn are_scores_of<I: Individual>(scores: Seq<i32>, population: Seq<I>) -> bool {
    &&& scores.len() == population.len()
    &&& forall|i: int| 0 <= i < population.len() ==> shows_fitness(population[i], #[trigger] scores[i])
}

/// Reads the fitness of every individual once, in population order.
pub fn scores_of<I: Individual>(population: &[I]) -> (scores: Vec<i32>)
    ensures
        are_scores_of(scores@, population@),
{
    let mut scores: Vec<i32> = Vec::new();
    let mut i: usize = 0;
    while i < population.len()
        invariant
            0 <= i <= population@.len(),
            scores@.len() == i,
            forall|k: int| 0 <= k < i ==> shows_fitness(population@[k], #[trigger] scores@[k]),
        decreases population@.len() - i,
    {
        scores.push(population[i].fitness());
        i = i + 1;
    }
    scores
}

} // verus!
