//! What the engine asks of the things it evolves.

use crate::chromosome::Chromosome;
use vstd::prelude::*;

verus! {

/// An evolvable entity: it can be built from a genome, and it can show its
/// genome and its fitness.
///
/// How a genome turns into behaviour, and how behaviour earns fitness, is
/// the implementor's business.
pub trait Individual: Sized {
    /// The type of one gene.
    type Gene: Copy;

    /// Seals a genome into a new individual.
    fn create(chromosome: Chromosome<Self::Gene>) -> Self;

    /// The genome this individual carries.
    fn chromosome(&self) -> &Chromosome<Self::Gene>;

    /// The score that biases selection: the higher, the likelier to be
    /// picked as a parent.
    fn fitness(&self) -> i32;
}

/// `score` is a fitness that `individual` has shown when asked for it.
pub open spec fn shows_fitness<I: Individual>(individual: I, score: i32) -> bool {
    call_ensures(I::fitness, (&individual,), score)
}

} // verus!
