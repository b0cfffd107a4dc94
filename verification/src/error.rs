//! What can keep a generation from being produced.

use vstd::prelude::*;

verus! {

/// Why a population was turned down.
#[derive(Clone, Copy, Debug, PartialEq, Eq, Structural)]
pub enum EvolutionError {
    /// An individual has a fitness below zero, which no share of the wheel
    /// can stand for.
    NegativeFitness,
    /// The fitness scores sum to more than `i32::MAX`.
    FitnessOverflow,
    /// Every individual has fitness zero, so nobody owns a share of the wheel.
    NoFitness,
    /// Two parents carry genomes of different lengths.
    GenomeLengthMismatch,
}

} // verus!
