use evosim::chromosome::Chromosome;
use evosim::individual::Individual;
use evosim::statistics::{Mean, Statistics};

struct Scored {
    fitness: i32,
}

impl Individual for Scored {
    type Gene = f32;

    fn create(_chromosome: Chromosome<f32>) -> Self {
        panic!("not supported for Scored")
    }

    fn chromosome(&self) -> &Chromosome<f32> {
        panic!("not supported for Scored")
    }

    fn fitness(&self) -> i32 {
        self.fitness
    }
}

fn population(scores: &[i32]) -> Vec<Scored> {
    scores.iter().map(|fitness| Scored { fitness: *fitness }).collect()
}

#[test]
fn statistics_of_a_population() {
    let stats = Statistics::new(&population(&[0, 3, 4, 7]));

    assert_eq!(stats.min_fitness(), 0);
    assert_eq!(stats.max_fitness(), 7);
    assert_eq!(stats.avg_fitness(), Mean { total: 14, count: 4 });
    let mean = stats.avg_fitness();
    assert_eq!(mean.total as f32 / mean.count as f32, 3.5);
}

#[test]
fn statistics_of_a_single_individual() {
    let stats = Statistics::new(&population(&[5]));

    assert_eq!(stats.min_fitness(), 5);
    assert_eq!(stats.max_fitness(), 5);
    assert_eq!(stats.avg_fitness(), Mean { total: 5, count: 1 });
}

#[test]
fn statistics_of_negative_fitness() {
    let stats = Statistics::new(&population(&[-2, -1, -4, -3]));

    assert_eq!(stats.max_fitness(), -1);
    assert_eq!(stats.min_fitness(), -4);
    let mean = stats.avg_fitness();
    assert_eq!(mean, Mean { total: -10, count: 4 });
    assert_eq!(mean.total as f32 / mean.count as f32, -2.5);
}

#[test]
fn statistics_of_scores() {
    let stats = Statistics::from_scores(&vec![9, 2, 2, 11, 6]);

    assert_eq!(stats.min_fitness(), 2);
    assert_eq!(stats.max_fitness(), 11);
    assert_eq!(stats.avg_fitness(), Mean { total: 30, count: 5 });
}

#[test]
fn the_sum_of_large_scores_does_not_wrap() {
    let stats = Statistics::from_scores(&vec![i32::MAX, i32::MAX, i32::MAX]);

    assert_eq!(stats.min_fitness(), i32::MAX);
    assert_eq!(stats.max_fitness(), i32::MAX);
    assert_eq!(stats.avg_fitness(), Mean { total: 3 * (i32::MAX as i128), count: 3 });

    let stats = Statistics::from_scores(&vec![i32::MIN, i32::MIN, i32::MAX]);

    assert_eq!(stats.min_fitness(), i32::MIN);
    assert_eq!(stats.max_fitness(), i32::MAX);
    assert_eq!(stats.avg_fitness(), Mean { total: i32::MIN as i128 - 1, count: 3 });
}
