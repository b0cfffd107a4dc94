//! Producing the next generation.

use crate::chromosome::Chromosome;
use crate::crossover::{CrossoverMethod, UniformCrossover};
use crate::error::EvolutionError;
use crate::individual::Individual;
use crate::mutation::{GaussianMutation, MutationMethod};
use crate::selection::SelectionMethod;
use crate::statistics::Statistics;
use rand_chacha::ChaCha8Rng;
use vstd::prelude::*;

verus! {

/// One selection, one crossover and one mutation strategy, chosen once and
/// used for every generation.
pub struct GeneticAlgorithm<S, C, M> {
    selection_method: S,
    crossover_method: C,
    mutation_method: M,
}

impl<S, C, M> GeneticAlgorithm<S, C, M> {
    pub closed spec fn selection_method(&self) -> S {
        self.selection_method
    }

    pub closed spec fn crossover_method(&self) -> C {
        self.crossover_method
    }

    pub closed spec fn mutation_method(&self) -> M {
        self.mutation_method
    }

    /// An engine that uses the three given strategies.
    pub fn new(selection_method: S, crossover_method: C, mutation_method: M) -> (engine: Self)
        ensures
            engine.selection_method() == selection_method,
            engine.crossover_method() == crossover_method,
            engine.mutation_method() == mutation_method,
    {
        GeneticAlgorithm { selection_method, crossover_method, mutation_method }
    }

    /// One child genome from two parent genomes: crossover, then mutation of
    /// the result in place.
    ///
    /// Parents of different lengths are rejected before any strategy runs and
    /// with the generator left as it was; that is the only way to fail. A
    /// child has the length of its parents. Crossover reads the generator as
    /// it was handed in, mutation reads it as crossover left it, and the
    /// generator is handed back as mutation left it.
    pub fn breed<G>(
        &self,
        rng: &mut ChaCha8Rng,
        parent_a: &Chromosome<G>,
        parent_b: &Chromosome<G>,
    ) -> (outcome: Result<Chromosome<G>, EvolutionError>)
        where
            C: CrossoverMethod<G>,
            M: MutationMethod<G>,
        ensures
            parent_a@.len() != parent_b@.len() <==> (outcome matches Err(
                EvolutionError::GenomeLengthMismatch,
            )),
            parent_a@.len() == parent_b@.len() <==> outcome is Ok,
            outcome matches Ok(child) ==> child@.len() == parent_a@.len(),
            outcome matches Ok(child) ==> exists|
                crossed: Chromosome<G>,
                first: &mut ChaCha8Rng,
                second: &mut ChaCha8Rng,
                place: &mut Chromosome<G>,
            |
                #![trigger call_ensures(C::crossover, (&self.crossover_method(), first, parent_a, parent_b), crossed), call_ensures(M::mutate, (&self.mutation_method(), second, place), ())]
                {
                    &&& call_ensures(
                        C::crossover,
                        (&self.crossover_method(), first, parent_a, parent_b),
                        crossed,
                    )
                    &&& *place == crossed
                    &&& *final(place) == child
                    &&& call_ensures(M::mutate, (&self.mutation_method(), second, place), ())
                    &&& *first == *old(rng)
                    &&& *second == *final(first)
                    &&& *final(rng) == *final(second)
                },
            outcome is Err ==> *final(rng) == *old(rng),
    {
        if parent_a.len() != parent_b.len() {
            return Err(EvolutionError::GenomeLengthMismatch);
        }
        let mut child = self.crossover_method.crossover(rng, parent_a, parent_b);
        self.mutation_method.mutate(rng, &mut child);
        proof {
            assert(self.crossover_method() == self.crossover_method);
            assert(self.mutation_method() == self.mutation_method);
        }
        Ok(child)
    }

    /// `child` descends from two members of `population`: the selection
    /// strategy has returned each of the two (they may be one and the same),
    /// each has shown its genome, `breed` has returned a genome on these two,
    /// and `child` has been sealed from that genome.
    pub open spec fn begets<I>(&self, population: &[I], child: I) -> bool where
        I: Individual,
        S: SelectionMethod<I>,
        C: CrossoverMethod<I::Gene>,
        M: MutationMethod<I::Gene>,
     {
        exists|
            a: int,
            b: int,
            genome_a: &Chromosome<I::Gene>,
            genome_b: &Chromosome<I::Gene>,
            genome: Chromosome<I::Gene>,
        |
            #![trigger call_ensures(I::chromosome, (&population@[a],), genome_a), call_ensures(I::chromosome, (&population@[b],), genome_b), call_ensures(I::create, (genome,), child)]
            {
                &&& 0 <= a < population@.len()
                &&& 0 <= b < population@.len()
                &&& self.selects(population, Ok(&population@[a]))
                &&& self.selects(population, Ok(&population@[b]))
                &&& call_ensures(I::chromosome, (&population@[a],), genome_a)
                &&& call_ensures(I::chromosome, (&population@[b],), genome_b)
                &&& self.bred(*genome_a, *genome_b, Ok(genome))
                &&& call_ensures(I::create, (genome,), child)
            }
    }

    /// `outcome` is what the selection strategy has returned on `population`.
    pub open spec fn selects<I>(
        &self,
        population: &[I],
        outcome: Result<&I, EvolutionError>,
    ) -> bool where I: Individual, S: SelectionMethod<I> {
        exists|from: &mut ChaCha8Rng| #[trigger]
            call_ensures(S::select, (&self.selection_method(), from, population), outcome)
    }

    /// `outcome` is what `breed` has returned on the two parents.
    pub open spec fn bred<G>(
        &self,
        parent_a: Chromosome<G>,
        parent_b: Chromosome<G>,
        outcome: Result<Chromosome<G>, EvolutionError>,
    ) -> bool where C: CrossoverMethod<G>, M: MutationMethod<G> {
        exists|from: &mut ChaCha8Rng| #[trigger]
            call_ensures(Self::breed::<G>, (self, from, &parent_a, &parent_b), outcome)
    }

    /// `error` is a way in which producing a generation from `population`
    /// fails: the selection strategy has returned it, or it reports that two
    /// members have shown genomes of different lengths.
    pub open spec fn fails_with<I>(&self, population: &[I], error: EvolutionError) -> bool where
        I: Individual,
        S: SelectionMethod<I>,
     {
        ||| self.selects(population, Err(error))
        ||| {
            &&& error == EvolutionError::GenomeLengthMismatch
            &&& exists|a: int, b: int, genome_a: &Chromosome<I::Gene>, genome_b: &Chromosome<I::Gene>|
                #![trigger call_ensures(I::chromosome, (&population@[a],), genome_a), call_ensures(I::chromosome, (&population@[b],), genome_b)]
                {
                    &&& 0 <= a < population@.len()
                    &&& 0 <= b < population@.len()
                    &&& call_ensures(I::chromosome, (&population@[a],), genome_a)
                    &&& call_ensures(I::chromosome, (&population@[b],), genome_b)
                    &&& genome_a@.len() != genome_b@.len()
                }
        }
    }

    /// Replaces a population that is not empty by its next generation, and
    /// reports the fitness statistics of the population that was handed in.
    ///
    /// For each slot of the new population, in order: a first parent is
    /// selected, then a second one (it may be the same individual), each
    /// shows its genome, the two genomes are bred into a child genome, and
    /// the child is sealed into a new individual. The first step that fails
    /// ends the call with its error.
    ///
    /// The new population has as many individuals as the old one, and each
    /// of them descends from two members of the old one. With `states[k]`
    /// being the generator as slot `k` finds it: the first selection reads
    /// the generator as the slot finds it, the second reads it as the first
    /// left it, breeding reads it as the second left it, the next slot finds
    /// it as breeding left it, and the generator is handed back as the last
    /// slot left it.
    pub fn evolve<I>(&self, rng: &mut ChaCha8Rng, population: &[I]) -> (outcome: Result<
        (Vec<I>, Statistics),
        EvolutionError,
    >)
        where
            I: Individual,
            S: SelectionMethod<I>,
            C: CrossoverMethod<I::Gene>,
            M: MutationMethod<I::Gene>,
        requires
            population@.len() > 0,
        ensures
            outcome matches Ok(generation) ==> {
                &&& generation.0@.len() == population@.len()
                &&& generation.1.describes(population@)
                &&& exists|states: Seq<ChaCha8Rng>|
                    #![trigger states[0]]
                    {
                        &&& states.len() == population@.len() + 1
                        &&& states[0] == *old(rng)
                        &&& states[population@.len() as int] == *final(rng)
                        &&& forall|k: int|
                            0 <= k < population@.len() ==> {
                        &&& self.begets(population, #[trigger] generation.0@[k])
                        &&& exists|
                            first: &mut ChaCha8Rng,
                            second: &mut ChaCha8Rng,
                            third: &mut ChaCha8Rng,
                            a: int,
                            b: int,
                            genome_a: &Chromosome<I::Gene>,
                            genome_b: &Chromosome<I::Gene>,
                            genome: Chromosome<I::Gene>,
                        |
                            #![trigger call_ensures(S::select, (&self.selection_method(), first, population), Ok::<&I, EvolutionError>(&population@[a])), call_ensures(S::select, (&self.selection_method(), second, population), Ok::<&I, EvolutionError>(&population@[b])), call_ensures(Self::breed::<I::Gene>, (self, third, genome_a, genome_b), Ok::<Chromosome<I::Gene>, EvolutionError>(genome))]
                            {
                                &&& 0 <= a < population@.len()
                                &&& 0 <= b < population@.len()
                                &&& *first == states[k]
                                &&& call_ensures(
                                    S::select,
                                    (&self.selection_method(), first, population),
                                    Ok::<&I, EvolutionError>(&population@[a]),
                                )
                                &&& *second == *final(first)
                                &&& call_ensures(
                                    S::select,
                                    (&self.selection_method(), second, population),
                                    Ok::<&I, EvolutionError>(&population@[b]),
                                )
                                &&& call_ensures(I::chromosome, (&population@[a],), genome_a)
                                &&& call_ensures(I::chromosome, (&population@[b],), genome_b)
                                &&& *third == *final(second)
                                &&& call_ensures(
                                    Self::breed::<I::Gene>,
                                    (self, third, genome_a, genome_b),
                                    Ok::<Chromosome<I::Gene>, EvolutionError>(genome),
                                )
                                &&& *final(third) == states[k + 1]
                                &&& call_ensures(I::create, (genome,), generation.0@[k])
                            }
                    }
                    }
            },
            outcome matches Err(error) ==> self.fails_with(population, error),
    {
        let stats = Statistics::new(population);
        let ghost mut states: Seq<ChaCha8Rng> = seq![*rng];
        let mut next: Vec<I> = Vec::new();
        let mut slot: usize = 0;
        while slot < population.len()
            invariant
                0 <= slot <= population@.len(),
                population@.len() > 0,
                next@.len() == slot,
                stats.describes(population@),
                states.len() == slot + 1,
                states[0] == *old(rng),
                states[slot as int] == *rng,
                forall|k: int|
                    0 <= k < slot ==> {
                        &&& self.begets(population, #[trigger] next@[k])
                        &&& exists|
                            first: &mut ChaCha8Rng,
                            second: &mut ChaCha8Rng,
                            third: &mut ChaCha8Rng,
                            a: int,
                            b: int,
                            genome_a: &Chromosome<I::Gene>,
                            genome_b: &Chromosome<I::Gene>,
                            genome: Chromosome<I::Gene>,
                        |
                            #![trigger call_ensures(S::select, (&self.selection_method(), first, population), Ok::<&I, EvolutionError>(&population@[a])), call_ensures(S::select, (&self.selection_method(), second, population), Ok::<&I, EvolutionError>(&population@[b])), call_ensures(Self::breed::<I::Gene>, (self, third, genome_a, genome_b), Ok::<Chromosome<I::Gene>, EvolutionError>(genome))]
                            {
                                &&& 0 <= a < population@.len()
                                &&& 0 <= b < population@.len()
                                &&& *first == states[k]
                                &&& call_ensures(
                                    S::select,
                                    (&self.selection_method(), first, population),
                                    Ok::<&I, EvolutionError>(&population@[a]),
                                )
                                &&& *second == *final(first)
                                &&& call_ensures(
                                    S::select,
                                    (&self.selection_method(), second, population),
                                    Ok::<&I, EvolutionError>(&population@[b]),
                                )
                                &&& call_ensures(I::chromosome, (&population@[a],), genome_a)
                                &&& call_ensures(I::chromosome, (&population@[b],), genome_b)
                                &&& *third == *final(second)
                                &&& call_ensures(
                                    Self::breed::<I::Gene>,
                                    (self, third, genome_a, genome_b),
                                    Ok::<Chromosome<I::Gene>, EvolutionError>(genome),
                                )
                                &&& *final(third) == states[k + 1]
                                &&& call_ensures(I::create, (genome,), next@[k])
                            }
                    },
            decreases population@.len() - slot,
        {
            let ghost states_before = states;
            let ghost next_before = next@;
            let parent_a = match self.selection_method.select(rng, population) {
                Ok(parent) => parent,
                Err(error) => {
                    assert(self.selects(population, Err(error))) by {
                        assert(self.selection_method() == self.selection_method);
                    }
                    return Err(error);
                },
            };
            let parent_b = match self.selection_method.select(rng, population) {
                Ok(parent) => parent,
                Err(error) => {
                    assert(self.selects(population, Err(error))) by {
                        assert(self.selection_method() == self.selection_method);
                    }
                    return Err(error);
                },
            };
            let genome_a = parent_a.chromosome();
            let genome_b = parent_b.chromosome();
            let ghost a = choose|a: int| 0 <= a < population@.len() && population@[a] == *parent_a;
            let ghost b = choose|b: int| 0 <= b < population@.len() && population@[b] == *parent_b;
            let genome = match self.breed(rng, genome_a, genome_b) {
                Ok(genome) => genome,
                Err(error) => {
                    assert(call_ensures(I::chromosome, (&population@[a],), genome_a));
                    assert(call_ensures(I::chromosome, (&population@[b],), genome_b));
                    return Err(error);
                },
            };
            let ghost held = genome;
            let child = I::create(genome);
            proof {
                assert(self.selection_method() == self.selection_method);
                assert(self.selects(population, Ok(&population@[a])));
                assert(self.selects(population, Ok(&population@[b])));
                assert(call_ensures(I::chromosome, (&population@[a],), genome_a));
                assert(call_ensures(I::chromosome, (&population@[b],), genome_b));
                assert(self.bred(*genome_a, *genome_b, Ok(held)));
                assert(call_ensures(I::create, (held,), child));
                assert(self.begets(population, child));
                assert(exists|
                    first: &mut ChaCha8Rng,
                    second: &mut ChaCha8Rng,
                    third: &mut ChaCha8Rng,
                    a: int,
                    b: int,
                    genome_a: &Chromosome<I::Gene>,
                    genome_b: &Chromosome<I::Gene>,
                    genome: Chromosome<I::Gene>,
                |
                    #![trigger call_ensures(S::select, (&self.selection_method(), first, population), Ok::<&I, EvolutionError>(&population@[a])), call_ensures(S::select, (&self.selection_method(), second, population), Ok::<&I, EvolutionError>(&population@[b])), call_ensures(Self::breed::<I::Gene>, (self, third, genome_a, genome_b), Ok::<Chromosome<I::Gene>, EvolutionError>(genome))]
                    {
                        &&& 0 <= a < population@.len()
                        &&& 0 <= b < population@.len()
                        &&& *first == states_before[slot as int]
                        &&& call_ensures(
                            S::select,
                            (&self.selection_method(), first, population),
                            Ok::<&I, EvolutionError>(&population@[a]),
                        )
                        &&& *second == *final(first)
                        &&& call_ensures(
                            S::select,
                            (&self.selection_method(), second, population),
                            Ok::<&I, EvolutionError>(&population@[b]),
                        )
                        &&& call_ensures(I::chromosome, (&population@[a],), genome_a)
                        &&& call_ensures(I::chromosome, (&population@[b],), genome_b)
                        &&& *third == *final(second)
                        &&& call_ensures(
                            Self::breed::<I::Gene>,
                            (self, third, genome_a, genome_b),
                            Ok::<Chromosome<I::Gene>, EvolutionError>(genome),
                        )
                        &&& *final(third) == *rng
                        &&& call_ensures(I::create, (genome,), child)
                    });
                states = states.push(*rng);
            }
            next.push(child);
            slot = slot + 1;
            proof {
                assert forall|k: int| 0 <= k < slot implies {
                        &&& self.begets(population, #[trigger] next@[k])
                        &&& exists|
                            first: &mut ChaCha8Rng,
                            second: &mut ChaCha8Rng,
                            third: &mut ChaCha8Rng,
                            a: int,
                            b: int,
                            genome_a: &Chromosome<I::Gene>,
                            genome_b: &Chromosome<I::Gene>,
                            genome: Chromosome<I::Gene>,
                        |
                            #![trigger call_ensures(S::select, (&self.selection_method(), first, population), Ok::<&I, EvolutionError>(&population@[a])), call_ensures(S::select, (&self.selection_method(), second, population), Ok::<&I, EvolutionError>(&population@[b])), call_ensures(Self::breed::<I::Gene>, (self, third, genome_a, genome_b), Ok::<Chromosome<I::Gene>, EvolutionError>(genome))]
                            {
                                &&& 0 <= a < population@.len()
                                &&& 0 <= b < population@.len()
                                &&& *first == states[k]
                                &&& call_ensures(
                                    S::select,
                                    (&self.selection_method(), first, population),
                                    Ok::<&I, EvolutionError>(&population@[a]),
                                )
                                &&& *second == *final(first)
                                &&& call_ensures(
                                    S::select,
                                    (&self.selection_method(), second, population),
                                    Ok::<&I, EvolutionError>(&population@[b]),
                                )
                                &&& call_ensures(I::chromosome, (&population@[a],), genome_a)
                                &&& call_ensures(I::chromosome, (&population@[b],), genome_b)
                                &&& *third == *final(second)
                                &&& call_ensures(
                                    Self::breed::<I::Gene>,
                                    (self, third, genome_a, genome_b),
                                    Ok::<Chromosome<I::Gene>, EvolutionError>(genome),
                                )
                                &&& *final(third) == states[k + 1]
                                &&& call_ensures(I::create, (genome,), next@[k])
                            }
                    } by {
                    if k < slot - 1 {
                        assert(next@[k] == next_before[k]);
                        assert(states[k] == states_before[k] && states[k + 1] == states_before[k
                            + 1]);
                    } else {
                        assert(states[k] == states_before[k] && states[k + 1] == *rng);
                    }
                }
            }
        }
        Ok((next, stats))
    }
}

/// With uniform crossover and a mutation whose chance is zero, a child holds
/// at every position the gene that one of its two parents holds there.
pub proof fn lemma_untouched_child_holds_its_parents_genes<S, G, N, I>(
    engine: GeneticAlgorithm<S, UniformCrossover, GaussianMutation<G, N>>,
    population: &[I],
    child: I,
)
    where
        G: Copy,
        N: Fn(&mut ChaCha8Rng, G, G, bool) -> G,
        I: Individual<Gene = G>,
        S: SelectionMethod<I>,
    requires
        engine.begets(population, child),
        engine.mutation_method().chance().0 == 0,
    ensures
        exists|a: int, b: int, genome_a: &Chromosome<G>, genome_b: &Chromosome<G>, genome: Chromosome<G>|
            #![trigger call_ensures(I::chromosome, (&population@[a],), genome_a), call_ensures(I::chromosome, (&population@[b],), genome_b), call_ensures(I::create, (genome,), child)]
            {
                &&& 0 <= a < population@.len()
                &&& 0 <= b < population@.len()
                &&& call_ensures(I::chromosome, (&population@[a],), genome_a)
                &&& call_ensures(I::chromosome, (&population@[b],), genome_b)
                &&& call_ensures(I::create, (genome,), child)
                &&& genome@.len() == genome_a@.len()
                &&& genome@.len() == genome_b@.len()
                &&& forall|i: int|
                    0 <= i < genome@.len() ==> #[trigger] genome@[i] == genome_a@[i] || genome@[i]
                        == genome_b@[i]
            },
{
    let (a, b, genome_a, genome_b, genome) = choose|
        a: int,
        b: int,
        genome_a: &Chromosome<G>,
        genome_b: &Chromosome<G>,
        genome: Chromosome<G>,
    |
        #![trigger call_ensures(I::chromosome, (&population@[a],), genome_a), call_ensures(I::chromosome, (&population@[b],), genome_b), call_ensures(I::create, (genome,), child)]
        {
            &&& 0 <= a < population@.len()
            &&& 0 <= b < population@.len()
            &&& engine.selects(population, Ok(&population@[a]))
            &&& engine.selects(population, Ok(&population@[b]))
            &&& call_ensures(I::chromosome, (&population@[a],), genome_a)
            &&& call_ensures(I::chromosome, (&population@[b],), genome_b)
            &&& engine.bred(*genome_a, *genome_b, Ok(genome))
            &&& call_ensures(I::create, (genome,), child)
        };
    assert(genome@.len() == genome_a@.len());
    assert(genome@.len() == genome_b@.len());
    assert forall|i: int| 0 <= i < genome@.len() implies #[trigger] genome@[i] == genome_a@[i]
        || genome@[i] == genome_b@[i] by {}
}

} // verus!
