use evosim::simulation::{Simulation, World, ANIMALS, FOODS, SPEED};
use evosim::world::{wrap, Animal, Food, Heading, Point2, REACH, SPAN};
use rand::{Rng, SeedableRng};
use rand_chacha::ChaCha8Rng;

fn point(x: u32, y: u32) -> Point2 {
    Point2::new(x, y).unwrap()
}

fn heading(east: i32, north: i32) -> Heading {
    Heading::new(east, north).unwrap()
}

/// The heading at the given angle, rounded to whole millionths.
fn heading_at(angle: f64) -> Heading {
    heading(
        (angle.cos() * 1_000_000.0).round() as i32,
        (angle.sin() * 1_000_000.0).round() as i32,
    )
}

/// One heading per agent of a fresh world, `turn` apart from each other.
fn headings(turn: f64) -> [Heading; ANIMALS] {
    let mut headings = [heading(1_000_000, 0); ANIMALS];
    for (k, heading) in headings.iter_mut().enumerate() {
        *heading = heading_at(k as f64 * turn);
    }
    headings
}

fn world(animals: &[Animal], foods: &[Food]) -> World {
    let mut world = World::new();
    for animal in animals {
        world.add_animal(*animal);
    }
    for food in foods {
        world.add_food(*food);
    }
    world
}

#[test]
fn wrap_brings_every_value_into_the_world() {
    assert_eq!(wrap(0), 0);
    assert_eq!(wrap(999_999), 999_999);
    assert_eq!(wrap(1_000_000), 0);
    assert_eq!(wrap(1_000_001), 1);
    assert_eq!(wrap(2_500_000), 500_000);
    assert_eq!(wrap(-1), 999_999);
    assert_eq!(wrap(-1_000_000), 0);
    assert_eq!(wrap(-1_000_001), 999_999);
    assert_eq!(wrap(i64::MAX), 775_807);
    assert_eq!(wrap(i64::MIN), 224_192);
    for value in -3_000_000i64..3_000_000 {
        if value % 7919 == 0 {
            assert!(wrap(value) < SPAN);
        }
    }
}

#[test]
fn points_outside_the_world_are_rejected() {
    assert!(Point2::new(0, 0).is_some());
    assert!(Point2::new(SPAN - 1, SPAN - 1).is_some());
    assert!(Point2::new(SPAN, 0).is_none());
    assert!(Point2::new(0, SPAN).is_none());
    assert_eq!(Point2::wrapping(-1, 1_000_003), point(999_999, 3));
}

#[test]
fn a_heading_has_length_one() {
    assert!(Heading::new(1_000_000, 0).is_some());
    assert!(Heading::new(0, -1_000_000).is_some());
    assert!(Heading::new(707_107, 707_107).is_some());
    assert!(Heading::new(-1_000_000, 1).is_some());
    // 1_000_000^2 + 1_414^2 lies just inside the tolerance, and 1_415 just outside.
    assert!(Heading::new(1_000_000, 1_414).is_some());
    assert!(Heading::new(1_000_000, 1_415).is_none());
    assert!(Heading::new(999_999, 0).is_some());
    assert!(Heading::new(999_998, 0).is_none());
    assert!(Heading::new(1_000_001, 0).is_none());
    assert!(Heading::new(0, -1_000_001).is_none());
    assert!(Heading::new(0, 0).is_none());
    assert!(Heading::new(1_000_000, -1_000_000).is_none());
    assert!(Heading::new(i32::MIN, i32::MAX).is_none());
    let heading = heading(600_000, -800_000);
    assert_eq!((heading.east(), heading.north()), (600_000, -800_000));
    for step in 0..720 {
        let _ = heading_at(step as f64 * 0.01);
    }
}

#[test]
fn reach_is_one_hundredth_of_the_world() {
    let here = point(500_000, 500_000);

    assert!(here.reaches(&here));
    assert!(here.reaches(&point(500_000 + REACH, 500_000)));
    assert!(!here.reaches(&point(500_000 + REACH + 1, 500_000)));
    assert!(here.reaches(&point(500_000 - 6_000, 500_000 + 8_000)));
    assert!(!here.reaches(&point(500_000 - 6_000, 500_000 + 8_001)));
    // Reach is measured in a straight line, not around the edge.
    assert!(!point(0, 0).reaches(&point(SPAN - 1, 0)));
}

#[test]
fn random_points_lie_in_the_world() {
    let mut rng = ChaCha8Rng::from_seed([2; 32]);
    let mut seen = Vec::new();
    for _ in 0..200 {
        let point = Point2::random(&mut rng);
        assert!(point.x() < SPAN);
        assert!(point.y() < SPAN);
        seen.push(point);
    }
    assert!(seen.iter().any(|point| *point != seen[0]));
}

#[test]
fn a_random_point_is_two_draws_below_the_span() {
    let mut rng = ChaCha8Rng::from_seed([13; 32]);
    let mut expected = ChaCha8Rng::from_seed([13; 32]);

    for _ in 0..50 {
        let point = Point2::random(&mut rng);

        let x: u32 = expected.gen_range(0..SPAN);
        let y: u32 = expected.gen_range(0..SPAN);
        assert_eq!((point.x(), point.y()), (x, y));
        assert_eq!(rng, expected);
    }
}

#[test]
fn an_animal_moves_by_its_speed_along_its_heading() {
    let animal = Animal::new(point(100_000, 200_000), heading(600_000, -800_000), 5_000);

    let moved = animal.advanced();

    assert_eq!(moved.position(), point(103_000, 196_000));
    assert_eq!(moved.heading(), animal.heading());
    assert_eq!(moved.speed(), 5_000);
}

#[test]
fn strides_are_rounded_towards_zero() {
    let animal = Animal::new(point(500_000, 500_000), heading(707_107, -707_107), 10);

    let moved = animal.advanced();

    // 707_107 * 10 / 1_000_000 = 7.07107
    assert_eq!(moved.position(), point(500_007, 499_993));
}

#[test]
fn an_animal_leaving_on_one_side_enters_on_the_other() {
    let east = Animal::new(point(999_000, 0), heading(1_000_000, 0), 2_000).advanced();
    assert_eq!(east.position(), point(1_000, 0));

    let west = Animal::new(point(500, 0), heading(-1_000_000, 0), 2_000).advanced();
    assert_eq!(west.position(), point(998_500, 0));

    let north = Animal::new(point(7, 999_999), heading(0, 1_000_000), 1).advanced();
    assert_eq!(north.position(), point(7, 0));

    let south = Animal::new(point(7, 0), heading(0, -1_000_000), 1).advanced();
    assert_eq!(south.position(), point(7, 999_999));

    let far = Animal::new(point(1, 1), heading(-1_000_000, 0), u32::MAX).advanced();
    assert_eq!(far.position(), point(wrap(1 - u32::MAX as i64), 1));
    assert_eq!(far.position(), point(32_706, 1));
}

#[test]
fn a_world_keeps_its_members_in_order() {
    let first = Animal::new(point(1, 2), heading(1_000_000, 0), 3);
    let second = Animal::new(point(4, 5), heading(0, 1_000_000), 6);
    let morsel = Food::new(point(7, 8));

    let world = world(&[first, second], &[morsel]);

    assert_eq!(world.animals(), &[first, second]);
    assert_eq!(world.foods(), &[morsel]);
    assert!(World::new().animals().is_empty());
    assert!(World::new().foods().is_empty());
}

#[test]
fn a_tick_moves_the_animals_and_keeps_unreached_food() {
    let mut rng = ChaCha8Rng::from_seed(Default::default());
    let runner = Animal::new(point(100_000, 100_000), heading(1_000_000, 0), 2_000);
    let far = Food::new(point(100_000 + REACH + 1, 100_000));
    let mut simulation = Simulation::new(world(&[runner], &[far]));

    simulation.step(&mut rng);

    assert_eq!(simulation.world().animals(), &[runner.advanced()]);
    assert_eq!(simulation.world().foods(), &[far]);
}

#[test]
fn a_tick_relocates_reached_food() {
    let mut rng = ChaCha8Rng::from_seed(Default::default());
    let mut expected = ChaCha8Rng::from_seed(Default::default());
    let eater = Animal::new(point(100_000, 100_000), heading(0, 1_000_000), 2_000);
    let near = Food::new(point(100_000 + REACH, 100_000));
    let far = Food::new(point(900_000, 900_000));
    let mut simulation = Simulation::new(world(&[eater], &[near, far]));

    simulation.step(&mut rng);

    let relocated = Point2::random(&mut expected);
    assert_ne!(relocated, near.position());
    assert_eq!(simulation.world().foods(), &[Food::new(relocated), far]);
    assert_eq!(simulation.world().animals(), &[eater.advanced()]);
}

#[test]
fn food_is_relocated_once_for_every_animal_that_reaches_it() {
    let mut rng = ChaCha8Rng::from_seed([4; 32]);
    let mut expected = ChaCha8Rng::from_seed([4; 32]);
    let first = Animal::new(point(100_000, 100_000), heading(1_000_000, 0), 0);
    let first_draw = Point2::random(&mut expected);
    // The second animal waits where the first draw sends the food.
    let second = Animal::new(first_draw, heading(1_000_000, 0), 0);
    let second_draw = Point2::random(&mut expected);
    let morsel = Food::new(point(100_000, 100_000));
    let mut simulation = Simulation::new(world(&[first, second], &[morsel]));

    simulation.step(&mut rng);

    assert_eq!(simulation.world().foods(), &[Food::new(second_draw)]);
    assert_eq!(simulation.world().animals(), &[first, second]);
}

#[test]
fn every_position_stays_in_the_world() {
    let mut rng = ChaCha8Rng::from_seed([6; 32]);
    let headings = headings(0.157);
    let mut simulation = Simulation::random(&mut rng, &headings);

    for _ in 0..600 {
        simulation.step(&mut rng);
        for animal in simulation.world().animals() {
            assert!(animal.position().x() < SPAN && animal.position().y() < SPAN);
        }
        for food in simulation.world().foods() {
            assert!(food.position().x() < SPAN && food.position().y() < SPAN);
        }
    }
}

#[test]
fn a_random_world_has_one_animal_per_heading() {
    let mut rng = ChaCha8Rng::from_seed(Default::default());
    let mut expected = ChaCha8Rng::from_seed(Default::default());
    let headings = headings(1.0);

    let simulation = Simulation::random(&mut rng, &headings);

    let world = simulation.world();
    assert_eq!(world.animals().len(), 40);
    for animal in world.animals() {
        assert_eq!(animal.position(), Point2::random(&mut expected));
    }
    for food in world.foods() {
        assert_eq!(food.position(), Point2::random(&mut expected));
    }
    assert_eq!(rng, expected);
    assert_eq!(world.foods().len(), FOODS);
    assert_eq!(FOODS, 60);
    assert_eq!(ANIMALS, 40);
    for (animal, heading) in world.animals().iter().zip(headings.iter()) {
        assert_eq!(animal.heading(), *heading);
        assert_eq!(animal.speed(), SPEED);
    }
}

#[test]
fn ticks_are_reproducible() {
    let headings = headings(0.3);
    let mut first_rng = ChaCha8Rng::from_seed([11; 32]);
    let mut second_rng = ChaCha8Rng::from_seed([11; 32]);
    let mut first = Simulation::random(&mut first_rng, &headings);
    let mut second = Simulation::random(&mut second_rng, &headings);

    for _ in 0..300 {
        first.step(&mut first_rng);
        second.step(&mut second_rng);
    }

    assert_eq!(first.world().animals(), second.world().animals());
    assert_eq!(first.world().foods(), second.world().foods());
}

#[test]
fn a_tick_without_a_meal_leaves_the_generator_alone() {
    let mut rng = ChaCha8Rng::from_seed([19; 32]);
    let untouched = ChaCha8Rng::from_seed([19; 32]);
    let walker = Animal::new(point(100_000, 100_000), heading(0, 1_000_000), 2_000);
    let far = Food::new(point(100_000 + 2 * REACH, 100_000));
    let mut simulation = Simulation::new(world(&[walker], &[far]));

    simulation.step(&mut rng);

    assert_eq!(rng, untouched);
    assert_eq!(simulation.world().foods(), &[far]);
}

#[test]
fn one_draw_is_taken_for_every_meal() {
    let mut rng = ChaCha8Rng::from_seed([23; 32]);
    let mut expected = ChaCha8Rng::from_seed([23; 32]);
    let eater = Animal::new(point(100_000, 100_000), heading(1_000_000, 0), 0);
    let here = Food::new(point(100_000, 100_000));
    let far = Food::new(point(100_000 + 2 * REACH, 100_000));
    let near = Food::new(point(100_000, 100_000 - REACH));
    let mut simulation = Simulation::new(world(&[eater], &[here, far, near]));

    simulation.step(&mut rng);

    let first = Point2::random(&mut expected);
    let second = Point2::random(&mut expected);
    assert_eq!(simulation.world().foods(), &[Food::new(first), far, Food::new(second)]);
    assert_eq!(rng, expected);
}
