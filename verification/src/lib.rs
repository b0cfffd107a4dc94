//! Evolution of fixed-length genomes by selection, crossover and mutation,
//! and a small world that wraps around at its edges, whose ticks produce the
//! fitness that evolution feeds on.
//!
//! Genes are values of a type the caller chooses; they are copied from
//! parents to children and never looked into. Fitness is a whole-number
//! score. Lengths in the world are whole numbers of world units. Every source
//! of chance is a generator that the caller hands in.
//!
//! - [`chromosome`]: the genome container.
//! - [`individual`]: what the engine asks of the things it evolves.
//! - [`scores`]: fitness scores as plain numbers.
//! - [`selection`], [`crossover`], [`mutation`]: the three strategies.
//! - [`statistics`]: minimum, maximum and mean fitness of a population.
//! - [`engine`]: the replacement of a population by its next generation.
//! - [`world`]: places, directions, agents and food.
//! - [`simulation`]: the world and its ticks.
//! - [`random`]: the draws taken from the generator.
//! - [`error`]: why a population is turned down.

pub mod chromosome;
pub mod crossover;
pub mod engine;
pub mod error;
pub mod individual;
pub mod mutation;
pub mod random;
pub mod scores;
pub mod selection;
pub mod simulation;
pub mod statistics;
pub mod world;
