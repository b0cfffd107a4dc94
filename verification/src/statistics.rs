//! The fitness distribution of one population.

use crate::individual::Individual;
use crate::scores::{are_scores_of, scores_of, total};
use vstd::prelude::*;

verus! {

/// An arithmetic mean, held exactly as `total / count`.
#[derive(Clone, Copy, Debug, PartialEq, Eq)]
pub struct Mean {
    pub total: i128,
    pub count: usize,
}

/// Minimum, maximum and mean fitness of one population, taken once and never
/// changed afterwards.
#[derive(Clone, Copy, Debug)]
pub struct Statistics {
    min_fitness: i32,
    max_fitness: i32,
    sum_fitness: i128,
    size: usize,
}

/// `low` is the smallest of `scores`: it occurs among them and none is below it.
pub open spec fn is_min_of(low: i32, scores: Seq<i32>) -> bool {
    &&& scores.contains(low)
    &&& forall|i: int| 0 <= i < scores.len() ==> low <= scores[i]
}

/// `high` is the largest of `scores`: it occurs among them and none is above it.
pub open spec fn is_max_of(high: i32, scores: Seq<i32>) -> bool {
    &&& scores.contains(high)
    &&& forall|i: int| 0 <= i < scores.len() ==> scores[i] <= high
}

impl Statistics {
    /// The lowest fitness held.
    pub closed spec fn spec_min_fitness(&self) -> i32 {
        self.min_fitness
    }

    /// The highest fitness held.
    pub closed spec fn spec_max_fitness(&self) -> i32 {
        self.max_fitness
    }

    /// The mean fitness held.
    pub closed spec fn spec_avg_fitness(&self) -> Mean {
        Mean { total: self.sum_fitness, count: self.size }
    }

    /// Whether these are the statistics of `scores`: the minimum and the
    /// maximum are the smallest and largest score, and the mean is the sum of
    /// the scores over their number.
    pub open spec fn summarizes(&self, scores: Seq<i32>) -> bool {
        &&& is_min_of(self.spec_min_fitness(), scores)
        &&& is_max_of(self.spec_max_fitness(), scores)
        &&& self.spec_avg_fitness().total == total(scores)
        &&& self.spec_avg_fitness().count == scores.len()
    }

    /// Whether these are the statistics of `population`: they summarize
    /// fitness that its individuals have shown, each individual once.
    pub open spec fn describes<I: Individual>(&self, population: Seq<I>) -> bool {
        exists|scores: Seq<i32>|
            are_scores_of(scores, population) && #[trigger] self.summarizes(scores)
    }

    /// Statistics of a sequence of fitness scores that is not empty.
    pub fn from_scores(scores: &Vec<i32>) -> (stats: Statistics)
        requires
            scores@.len() > 0,
        ensures
            stats.summarizes(scores@),
    {
        let mut min_fitness: i32 = scores[0];
        let mut max_fitness: i32 = scores[0];
        let mut sum_fitness: i128 = scores[0] as i128;
        let mut i: usize = 1;
        proof {
            assert(scores@.take(1).drop_last() == Seq::<i32>::empty());
            assert(total(scores@.take(1)) == scores@[0]) by {
                reveal_with_fuel(total, 2);
            }
            assert(scores@.take(1)[0] == scores@[0]);
        }
        while i < scores.len()
            invariant
                1 <= i <= scores@.len(),
                is_min_of(min_fitness, scores@.take(i as int)),
                is_max_of(max_fitness, scores@.take(i as int)),
                sum_fitness == total(scores@.take(i as int)),
                i * i32::MIN <= sum_fitness <= i * i32::MAX,
            decreases scores@.len() - i,
        {
            let score = scores[i];
            proof {
                let before = scores@.take(i as int);
                let after = scores@.take(i + 1);
                assert(after.drop_last() == before);
                assert(after.last() == score);
                assert(forall|k: int| 0 <= k < before.len() ==> before[k] == after[k]);
                let at_min = choose|k: int| 0 <= k < before.len() && before[k] == min_fitness;
                let at_max = choose|k: int| 0 <= k < before.len() && before[k] == max_fitness;
                assert(after[at_min] == min_fitness);
                assert(after[at_max] == max_fitness);
                assert(after[i as int] == score);
            }
            if score < min_fitness {
                min_fitness = score;
            }
            if score > max_fitness {
                max_fitness = score;
            }
            sum_fitness = sum_fitness + score as i128;
            i = i + 1;
        }
        proof {
            assert(scores@.take(i as int) == scores@);
        }
        Statistics { min_fitness, max_fitness, sum_fitness, size: scores.len() }
    }

    /// Statistics of a population that is not empty: the fitness of every
    /// individual is read once, in population order, and summarized.
    pub fn new<I: Individual>(population: &[I]) -> (stats: Statistics)
        requires
            population@.len() > 0,
        ensures
            stats.describes(population@),
    {
        let scores = scores_of(population);
        let stats = Statistics::from_scores(&scores);
        assert(are_scores_of(scores@, population@) && stats.summarizes(scores@));
        stats
    }

    /// The lowest fitness in the population.
    pub fn min_fitness(&self) -> (fitness: i32)
        ensures
            fitness == self.spec_min_fitness(),
    {
        self.min_fitness
    }

    /// The highest fitness in the population.
    pub fn max_fitness(&self) -> (fitness: i32)
        ensures
            fitness == self.spec_max_fitness(),
    {
        self.max_fitness
    }

    /// The mean fitness of the population, as an exact fraction.
    pub fn avg_fitness(&self) -> (mean: Mean)
        ensures
            mean == self.spec_avg_fitness(),
    {
        Mean { total: self.sum_fitness, count: self.size }
    }
}

} // verus!
