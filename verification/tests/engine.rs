use approx::{AbsDiffEq, RelativeEq};
use evosim::chromosome::Chromosome;
use evosim::crossover::{CrossoverMethod, UniformCrossover};
use evosim::engine::GeneticAlgorithm;
use evosim::individual::Individual;
use evosim::mutation::{GaussianMutation, MutationMethod};
use evosim::error::EvolutionError;
use evosim::selection::{RouletteWheelSelection, SelectionMethod};
use rand::seq::SliceRandom;
use rand::{Rng, SeedableRng};
use rand_chacha::ChaCha8Rng;

/// An individual whose fitness is the whole part of the sum of its genes.
#[derive(Clone, Debug)]
struct GeneSum {
    chromosome: Chromosome<f32>,
}

impl GeneSum {
    fn weight(&self) -> f32 {
        self.chromosome.iter().iter().sum()
    }
}

impl Individual for GeneSum {
    type Gene = f32;

    fn create(chromosome: Chromosome<f32>) -> Self {
        Self { chromosome }
    }

    fn chromosome(&self) -> &Chromosome<f32> {
        &self.chromosome
    }

    fn fitness(&self) -> i32 {
        self.weight() as i32
    }
}

/// A wheel whose shares are the real-valued gene sums.
struct GeneSumWheel;

impl SelectionMethod<GeneSum> for GeneSumWheel {
    fn select<'a>(
        &self,
        rng: &mut ChaCha8Rng,
        population: &'a [GeneSum],
    ) -> Result<&'a GeneSum, EvolutionError> {
        population
            .choose_weighted(rng, |individual| individual.weight())
            .map_err(|_| EvolutionError::NoFitness)
    }
}

/// Moves a gene by a signed amount drawn uniformly below `coeff`.
fn nudge(rng: &mut ChaCha8Rng, gene: f32, coeff: f32, negative: bool) -> f32 {
    let sign = if negative { -1.0 } else { 1.0 };

    gene + sign * coeff * rng.gen::<f32>()
}

/// A mutation that leaves every gene as it is.
struct Untouched;

impl MutationMethod<f32> for Untouched {
    fn mutate(&self, _rng: &mut ChaCha8Rng, _child: &mut Chromosome<f32>) {}
}

fn individual(genes: &[f32]) -> GeneSum {
    GeneSum::create(Chromosome::from_iter(genes.to_vec()))
}

fn same_genes(actual: &GeneSum, expected: &GeneSum) -> bool {
    actual.chromosome.iter().relative_eq(
        expected.chromosome.iter(),
        f32::default_epsilon(),
        f32::default_max_relative(),
    )
}

#[test]
fn lib_test() {
    let mut rng = ChaCha8Rng::from_seed(Default::default());

    let ga = GeneticAlgorithm::new(
        RouletteWheelSelection::new(),
        UniformCrossover::new(),
        GaussianMutation::new(1, 2, 0.5, nudge),
    );

    let mut population = vec![
        individual(&[0.0, 0.0, 0.0]), // fitness = 0
        individual(&[1.0, 1.0, 1.0]), // fitness = 3
        individual(&[1.0, 2.0, 1.0]), // fitness = 4
        individual(&[1.0, 2.0, 4.0]), // fitness = 7
    ];

    for _ in 0..10 {
        (population, _) = ga.evolve(&mut rng, &population).unwrap();
    }

    let expected_population = vec![
        individual(&[1.9421173, 1.8159671, 1.034268]),
        individual(&[1.3453044, 1.1331394, 1.1260643]),
        individual(&[2.4569798, 2.3492906, 0.8240122]),
        individual(&[1.1013913, 1.1331394, 0.9507327]),
    ];

    assert_eq!(population.len(), expected_population.len());
    for (actual, expected) in population.iter().zip(expected_population.iter()) {
        assert!(same_genes(actual, expected), "{:?} != {:?}", actual, expected);
    }
}

#[test]
fn evolve_keeps_the_population_size() {
    let mut rng = ChaCha8Rng::from_seed(Default::default());
    let ga = GeneticAlgorithm::new(RouletteWheelSelection::new(), UniformCrossover::new(), Untouched);
    let population = vec![
        individual(&[0.0, 0.0, 0.0]),
        individual(&[1.0, 1.0, 1.0]),
        individual(&[1.0, 2.0, 1.0]),
        individual(&[1.0, 2.0, 4.0]),
        individual(&[5.0, 5.0, 5.0]),
    ];

    let (next, stats) = ga.evolve(&mut rng, &population).unwrap();

    assert_eq!(next.len(), 5);
    assert_eq!(stats.min_fitness(), 0);
    assert_eq!(stats.max_fitness(), 15);
    assert_eq!(stats.avg_fitness().total, 29);
    assert_eq!(stats.avg_fitness().count, 5);
    // Without mutation every gene of a child stands at the same position in a
    // parent, and a parent of fitness zero is never drawn.
    for child in &next {
        for (position, gene) in child.chromosome().iter().iter().enumerate() {
            assert!(population[1..]
                .iter()
                .any(|parent| parent.chromosome().iter()[position] == *gene));
        }
    }
}

#[test]
fn a_population_of_one_gives_its_genome_back() {
    let mut rng = ChaCha8Rng::from_seed([17; 32]);
    let ga = GeneticAlgorithm::new(
        RouletteWheelSelection::new(),
        UniformCrossover::new(),
        GaussianMutation::new(0, 1, 0.5, nudge),
    );
    let population = vec![individual(&[1.0, 2.0, 4.0])];

    let (next, stats) = ga.evolve(&mut rng, &population).unwrap();

    assert_eq!(next.len(), 1);
    assert_eq!(next[0].chromosome.iter(), &[1.0, 2.0, 4.0]);
    assert_eq!(stats.min_fitness(), 7);
    assert_eq!(stats.max_fitness(), 7);
    assert_eq!(stats.avg_fitness().total, 7);
    assert_eq!(stats.avg_fitness().count, 1);
}

#[test]
fn evolve_hands_on_what_selection_rejects() {
    let mut rng = ChaCha8Rng::from_seed(Default::default());
    let ga = GeneticAlgorithm::new(RouletteWheelSelection::new(), UniformCrossover::new(), Untouched);

    let idle = vec![individual(&[0.0, 0.0]), individual(&[0.25, 0.5])];
    assert_eq!(ga.evolve(&mut rng, &idle).err(), Some(EvolutionError::NoFitness));

    let negative = vec![individual(&[1.0, 2.0]), individual(&[-4.0, 1.0])];
    assert_eq!(ga.evolve(&mut rng, &negative).err(), Some(EvolutionError::NegativeFitness));
}

#[test]
fn evolve_rejects_parents_of_different_lengths() {
    let mut rng = ChaCha8Rng::from_seed(Default::default());
    let ga = GeneticAlgorithm::new(RouletteWheelSelection::new(), UniformCrossover::new(), Untouched);
    let population = vec![individual(&[1.0]), individual(&[1.0, 2.0])];

    let mut outcomes = Vec::new();
    for _ in 0..20 {
        outcomes.push(ga.evolve(&mut rng, &population).map(|(next, _)| next.len()));
    }

    assert!(outcomes.contains(&Err(EvolutionError::GenomeLengthMismatch)));
    assert!(outcomes
        .iter()
        .all(|outcome| *outcome == Ok(2) || *outcome == Err(EvolutionError::GenomeLengthMismatch)));
}

#[test]
fn evolve_is_reproducible() {
    let population = vec![
        individual(&[0.5, 0.25, 4.0]),
        individual(&[1.0, 1.0, 1.0]),
        individual(&[1.0, 2.0, 1.0]),
    ];
    let ga = GeneticAlgorithm::new(
        GeneSumWheel,
        UniformCrossover::new(),
        GaussianMutation::new(1, 2, 0.5, nudge),
    );

    let mut first_rng = ChaCha8Rng::from_seed([7; 32]);
    let mut second_rng = ChaCha8Rng::from_seed([7; 32]);
    let (first, _) = ga.evolve(&mut first_rng, &population).unwrap();
    let (second, _) = ga.evolve(&mut second_rng, &population).unwrap();

    assert_eq!(first.len(), second.len());
    for (a, b) in first.iter().zip(second.iter()) {
        assert_eq!(a.chromosome.iter(), b.chromosome.iter());
    }
}

#[test]
fn breed_rejects_parents_of_different_lengths() {
    let mut rng = ChaCha8Rng::from_seed(Default::default());
    let mut untouched = ChaCha8Rng::from_seed(Default::default());
    let ga = GeneticAlgorithm::new(RouletteWheelSelection::new(), UniformCrossover::new(), Untouched);
    let short = Chromosome::from_iter(vec![1.0]);
    let long = Chromosome::from_iter(vec![1.0, 2.0]);

    let outcome = ga.breed(&mut rng, &short, &long);

    assert_eq!(outcome.err(), Some(EvolutionError::GenomeLengthMismatch));
    assert_eq!(rng, untouched);
    let _ = ga.breed(&mut untouched, &long, &long);
    assert_ne!(rng, untouched);
}

#[test]
fn breed_crosses_and_then_mutates() {
    let mut rng = ChaCha8Rng::from_seed([2; 32]);
    let shift = |_: &mut ChaCha8Rng, gene: i32, coeff: i32, _: bool| gene + coeff;
    let ga = GeneticAlgorithm::new(
        RouletteWheelSelection::new(),
        UniformCrossover::new(),
        GaussianMutation::new(1, 1, 1000, shift),
    );
    let parent_a = Chromosome::from_iter(vec![1, 2, 3, 4, 5, 6, 7, 8]);
    let parent_b = Chromosome::from_iter(vec![-1, -2, -3, -4, -5, -6, -7, -8]);

    let child = ga.breed(&mut rng, &parent_a, &parent_b).unwrap();

    assert_eq!(child.len(), 8);
    for (position, gene) in child.iter().iter().enumerate() {
        let from_a = *parent_a.index(position) + 1000;
        let from_b = *parent_b.index(position) + 1000;
        assert!(*gene == from_a || *gene == from_b);
    }
}

#[test]
fn evolve_takes_its_calls_in_order() {
    let population = vec![
        individual(&[0.5, 0.25, 4.0]),
        individual(&[1.0, 1.0, 1.0]),
        individual(&[1.0, 2.0, 1.0]),
        individual(&[3.0, 2.0, 9.0]),
    ];
    let ga = GeneticAlgorithm::new(
        RouletteWheelSelection::new(),
        UniformCrossover::new(),
        GaussianMutation::new(1, 2, 0.5, nudge),
    );
    let mut rng = ChaCha8Rng::from_seed([29; 32]);
    let mut expected_rng = ChaCha8Rng::from_seed([29; 32]);

    let (next, _) = ga.evolve(&mut rng, &population).unwrap();

    let selection = RouletteWheelSelection::new();
    let mutation = GaussianMutation::new(1, 2, 0.5, nudge);
    for child in &next {
        let parent_a = selection.select(&mut expected_rng, &population).unwrap();
        let parent_b = selection.select(&mut expected_rng, &population).unwrap();
        let mut expected = UniformCrossover::new().crossover(
            &mut expected_rng,
            parent_a.chromosome(),
            parent_b.chromosome(),
        );
        mutation.mutate(&mut expected_rng, &mut expected);
        assert_eq!(child.chromosome.iter(), expected.iter());
    }
    assert_eq!(rng, expected_rng);
}
