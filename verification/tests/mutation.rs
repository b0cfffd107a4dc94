use approx::{AbsDiffEq, RelativeEq};
use evosim::chromosome::Chromosome;
use evosim::mutation::{GaussianMutation, MutationMethod};
use rand::{Rng, SeedableRng};
use rand_chacha::ChaCha8Rng;

/// Moves a gene by a signed amount drawn uniformly below `coeff`.
fn nudge(rng: &mut ChaCha8Rng, gene: f32, coeff: f32, negative: bool) -> f32 {
    let sign = if negative { -1.0 } else { 1.0 };

    gene + sign * coeff * rng.gen::<f32>()
}

fn actual(chance: (u32, u32), coeff: f32) -> Vec<f32> {
    let mut child = Chromosome::from_iter(vec![1.0, 2.0, 3.0, 4.0, 5.0]);

    let mut rng = ChaCha8Rng::from_seed(Default::default());

    GaussianMutation::new(chance.0, chance.1, coeff, nudge).mutate(&mut rng, &mut child);

    child.into_iter()
}

fn assert_relative_eq(actual: &[f32], expected: &[f32]) {
    assert!(
        actual.relative_eq(expected, f32::default_epsilon(), f32::default_max_relative()),
        "{:?} != {:?}",
        actual,
        expected
    );
}

const ZERO_CHANCE: (u32, u32) = (0, 1);
const FIFTY_FIFTY_CHANCE: (u32, u32) = (1, 2);
const MAX_CHANCE: (u32, u32) = (1, 1);

#[test]
fn does_not_change_the_original_chromosome() {
    let actual = actual(ZERO_CHANCE, 0.0);
    let expected = vec![1.0, 2.0, 3.0, 4.0, 5.0];

    assert_relative_eq(actual.as_slice(), expected.as_slice());
}

#[test]
fn lib_does_not_change_the_original_chromosome() {
    let actual = actual(ZERO_CHANCE, 0.5);
    let expected = vec![1.0, 2.0, 3.0, 4.0, 5.0];

    assert_relative_eq(actual.as_slice(), expected.as_slice());
}

#[test]
fn given_fifty_fifty_chance_and_zero_coefficient_does_not_change_the_original_chromosome() {
    let actual = actual(FIFTY_FIFTY_CHANCE, 0.0);
    let expected = vec![1.0, 2.0, 3.0, 4.0, 5.0];

    assert_relative_eq(actual.as_slice(), expected.as_slice());
}

#[test]
fn slightly_changes_the_original_chromosome() {
    let actual = actual(FIFTY_FIFTY_CHANCE, 0.5);
    let expected = vec![1.0, 2.0, 2.7756248, 4.0032997, 4.787391];

    assert_relative_eq(actual.as_slice(), expected.as_slice());
}

#[test]
fn given_max_chance_and_zero_coefficient_does_not_change_the_original_chromosome() {
    let actual = actual(MAX_CHANCE, 0.0);
    let expected = vec![1.0, 2.0, 3.0, 4.0, 5.0];

    assert_relative_eq(actual.as_slice(), expected.as_slice());
}

#[test]
fn entirely_changes_the_original_chromosome() {
    let actual = actual(MAX_CHANCE, 0.5);

    let expected = vec![1.4545316, 2.1162078, 2.7756248, 3.9505124, 4.638691];

    assert_relative_eq(actual.as_slice(), expected.as_slice());
}

#[test]
fn with_a_chance_of_one_every_gene_is_moved() {
    let mut child = Chromosome::from_iter(vec![0u32; 64]);
    let mut rng = ChaCha8Rng::from_seed([3; 32]);
    let count = |_: &mut ChaCha8Rng, gene: u32, step: u32, _: bool| gene + step;

    let method = GaussianMutation::new(7, 7, 1, count);
    method.mutate(&mut rng, &mut child);
    method.mutate(&mut rng, &mut child);

    assert_eq!(child.into_iter(), vec![2u32; 64]);
}

#[test]
fn with_a_chance_of_zero_no_gene_is_moved() {
    let mut child = Chromosome::from_iter(vec![0u32; 64]);
    let mut rng = ChaCha8Rng::from_seed([3; 32]);
    let count = |_: &mut ChaCha8Rng, gene: u32, step: u32, _: bool| gene + step;

    GaussianMutation::new(0, 7, 1, count).mutate(&mut rng, &mut child);

    assert_eq!(child.into_iter(), vec![0u32; 64]);
}

#[test]
fn the_sign_is_drawn_for_every_gene() {
    let mut child = Chromosome::from_iter(vec![0i32; 200]);
    let mut rng = ChaCha8Rng::from_seed([5; 32]);
    let signed = |_: &mut ChaCha8Rng, gene: i32, step: i32, negative: bool| {
        if negative {
            gene - step
        } else {
            gene + step
        }
    };

    GaussianMutation::new(1, 1, 1, signed).mutate(&mut rng, &mut child);

    let genes = child.into_iter();
    assert!(genes.iter().all(|gene| *gene == 1 || *gene == -1));
    assert!(genes.contains(&1));
    assert!(genes.contains(&-1));
}

#[test]
fn mutation_is_reproducible() {
    let mut first = ChaCha8Rng::from_seed([12; 32]);
    let mut second = ChaCha8Rng::from_seed([12; 32]);
    let mut one = Chromosome::from_iter(vec![1.0, 2.0, 3.0, 4.0, 5.0]);
    let mut other = one.clone();
    let method = GaussianMutation::new(1, 2, 0.5, nudge);

    method.mutate(&mut first, &mut one);
    method.mutate(&mut second, &mut other);

    assert_eq!(one.into_iter(), other.into_iter());
}

#[test]
fn the_touch_is_drawn_before_the_sign() {
    let genes = vec![1.0, 2.0, 3.0, 4.0, 5.0, 6.0, 7.0, 8.0];
    let mut child = Chromosome::from_iter(genes.clone());
    let mut rng = ChaCha8Rng::from_seed([14; 32]);
    let mut expected_rng = ChaCha8Rng::from_seed([14; 32]);

    GaussianMutation::new(1, 3, 0.5, nudge).mutate(&mut rng, &mut child);

    let mut expected = genes;
    let mut touched = 0;
    for gene in expected.iter_mut() {
        if expected_rng.gen_ratio(1, 3) {
            let negative = expected_rng.gen_ratio(1, 2);
            *gene = nudge(&mut expected_rng, *gene, 0.5, negative);
            touched += 1;
        }
    }
    assert!(0 < touched && touched < 8);
    assert_eq!(child.into_iter(), expected);
    assert_eq!(rng, expected_rng);
}

#[test]
fn an_empty_genome_leaves_the_generator_alone() {
    let mut child: Chromosome<f32> = Chromosome::from_iter(Vec::new());
    let mut rng = ChaCha8Rng::from_seed([14; 32]);
    let untouched = ChaCha8Rng::from_seed([14; 32]);

    GaussianMutation::new(1, 2, 0.5, nudge).mutate(&mut rng, &mut child);

    assert_eq!(rng, untouched);
    assert_eq!(child.len(), 0);
}
