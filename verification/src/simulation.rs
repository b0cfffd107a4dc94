//! The world and its ticks.
//!
//! A tick has two phases, always in this order. First every agent meets every
//! food item: an item within reach of the agent is consumed and reappears at
//! a place drawn from the generator. Then every agent moves on by its speed
//! along its heading, wrapping around at the edges.

use crate::world::{stride, within_reach, wrapped, Animal, Food, Heading, Point2, SPAN};
use rand_chacha::ChaCha8Rng;
use vstd::prelude::*;

verus! {

/// Number of agents in a freshly drawn world.
pub const ANIMALS: usize = 40;

/// Number of food items in a freshly drawn world.
pub const FOODS: usize = 60;

/// Distance that an agent of a freshly drawn world covers per tick.
pub const SPEED: u32 = 2_000;

/// The agents and the food items of one simulation, each in a fixed order.
/// Every position in a world lies in the world.
#[derive(Debug)]
pub struct World {
    animals: Vec<Animal>,
    foods: Vec<Food>,
}

impl World {
    #[verifier::type_invariant]
    spec fn well_formed(&self) -> bool {
        &&& forall|i: int|
            0 <= i < self.animals@.len() ==> (#[trigger] self.animals@[i]).spec_position().in_world()
        &&& forall|j: int|
            0 <= j < self.foods@.len() ==> (#[trigger] self.foods@[j]).spec_position().in_world()
    }

    pub closed spec fn spec_animals(&self) -> Seq<Animal> {
        self.animals@
    }

    pub closed spec fn spec_foods(&self) -> Seq<Food> {
        self.foods@
    }

    /// Every agent and every food item stands inside the world.
    pub open spec fn all_inside(&self) -> bool {
        &&& forall|i: int|
            0 <= i < self.spec_animals().len() ==> (#[trigger] self.spec_animals()[i]).spec_position().in_world()
        &&& forall|j: int|
            0 <= j < self.spec_foods().len() ==> (#[trigger] self.spec_foods()[j]).spec_position().in_world()
    }

    /// A world without agents and without food.
    pub fn new() -> (world: World)
        ensures
            world.spec_animals().len() == 0,
            world.spec_foods().len() == 0,
            world.all_inside(),
    {
        World { animals: Vec::new(), foods: Vec::new() }
    }

    /// The places of everything in the world: first the agents', then the
    /// food's, each in order.
    pub open spec fn places(&self) -> Seq<Point2> {
        Seq::new(self.spec_animals().len(), |i: int| self.spec_animals()[i].spec_position())
            + places_of(self.spec_foods())
    }

    /// A world with `ANIMALS` agents, one per heading and in the order of the
    /// headings, and `FOODS` food items. Every agent moves at `SPEED`.
    ///
    /// Every place is what a call of `Point2::random` has returned, first the
    /// agents' and then the food's: the first call reads the generator as it
    /// was handed in, every further one reads it as the one before left it,
    /// and the generator is handed back as the last one left it. Two things
    /// may well share a place.
    pub fn random(rng: &mut ChaCha8Rng, headings: &[Heading; ANIMALS]) -> (world: World)
        ensures
            world.spec_animals().len() == ANIMALS,
            forall|i: int|
                0 <= i < ANIMALS ==> {
                    &&& (#[trigger] world.spec_animals()[i]).spec_heading() == headings@[i]
                    &&& world.spec_animals()[i].spec_speed() == SPEED
                },
            world.spec_foods().len() == FOODS,
            exists|draws: Seq<&mut ChaCha8Rng>|
                #![trigger draws.len()]
                {
                    &&& draws.len() == ANIMALS + FOODS
                    &&& forall|t: int|
                        0 <= t < draws.len() ==> call_ensures(
                            Point2::random,
                            (#[trigger] draws[t],),
                            world.places()[t],
                        )
                    &&& forall|t: int|
                        0 <= t < draws.len() ==> *(#[trigger] draws[t]) == (if t == 0 {
                            *old(rng)
                        } else {
                            *final(draws[t - 1])
                        })
                    &&& *final(rng) == *final(draws[draws.len() - 1])
                },
            world.all_inside(),
    {
        let ghost mut places: Seq<Point2> = Seq::empty();
        assert(Seq::<&mut ChaCha8Rng>::empty().len() == 0);
        let mut animals: Vec<Animal> = Vec::new();
        let mut i: usize = 0;
        while i < ANIMALS
            invariant
                0 <= i <= ANIMALS,
                animals@.len() == i,
                places.len() == i,
                forall|k: int|
                    0 <= k < i ==> {
                        &&& (#[trigger] animals@[k]).spec_heading() == headings@[k]
                        &&& animals@[k].spec_speed() == SPEED
                        &&& animals@[k].spec_position().in_world()
                        &&& animals@[k].spec_position() == places[k]
                    },
                exists|draws: Seq<&mut ChaCha8Rng>|
                    #![trigger draws.len()]
                    {
                        &&& draws.len() == places.len()
                        &&& forall|t: int|
                            0 <= t < draws.len() ==> call_ensures(
                                Point2::random,
                                (#[trigger] draws[t],),
                                places[t],
                            )
                        &&& forall|t: int|
                            0 <= t < draws.len() ==> *(#[trigger] draws[t]) == (if t == 0 {
                                *old(rng)
                            } else {
                                *final(draws[t - 1])
                            })
                        &&& *rng == (if draws.len() == 0 {
                            *old(rng)
                        } else {
                            *final(draws[draws.len() - 1])
                        })
                    },
            decreases ANIMALS - i,
        {
            let ghost rng_before = *rng;
            let place = Point2::random(rng);
            proof {
                let places_before = places;
                places = places.push(place);
                let earlier = choose|draws: Seq<&mut ChaCha8Rng>|
                    #![trigger draws.len()]
                    {
                        &&& draws.len() == places_before.len()
                        &&& forall|t: int|
                            0 <= t < draws.len() ==> call_ensures(
                                Point2::random,
                                (#[trigger] draws[t],),
                                places_before[t],
                            )
                        &&& forall|t: int|
                            0 <= t < draws.len() ==> *(#[trigger] draws[t]) == (if t == 0 {
                                *old(rng)
                            } else {
                                *final(draws[t - 1])
                            })
                        &&& rng_before == (if draws.len() == 0 {
                            *old(rng)
                        } else {
                            *final(draws[draws.len() - 1])
                        })
                    };
                let draw = choose|draw: &mut ChaCha8Rng| #[trigger]
                    call_ensures(Point2::random, (draw,), place) && *draw == rng_before
                        && *final(draw) == *rng;
                let draws = earlier.push(draw);
                assert(draws.len() == places.len());
                assert forall|t: int| 0 <= t < draws.len() implies call_ensures(
                    Point2::random,
                    (#[trigger] draws[t],),
                    places[t],
                ) by {
                    if t < earlier.len() {
                        assert(draws[t] == earlier[t] && places[t] == places_before[t]);
                    }
                }
                assert forall|t: int| 0 <= t < draws.len() implies *(#[trigger] draws[t]) == (if t
                    == 0 {
                    *old(rng)
                } else {
                    *final(draws[t - 1])
                }) by {
                    if t < earlier.len() {
                        assert(draws[t] == earlier[t]);
                    }
                    if t > 0 {
                        assert(draws[t - 1] == earlier[t - 1]);
                    }
                }
                assert(*rng == *final(draws[draws.len() - 1]));
            }
            animals.push(Animal::new(place, headings[i], SPEED));
            i = i + 1;
        }
        let mut foods: Vec<Food> = Vec::new();
        let mut j: usize = 0;
        while j < FOODS
            invariant
                0 <= j <= FOODS,
                animals@.len() == ANIMALS,
                foods@.len() == j,
                places.len() == ANIMALS + j,
                forall|k: int| 0 <= k < ANIMALS ==> (#[trigger] animals@[k]).spec_position() == places[k],
                forall|k: int|
                    0 <= k < j ==> {
                        &&& (#[trigger] foods@[k]).spec_position().in_world()
                        &&& foods@[k].spec_position() == places[ANIMALS + k]
                    },
                exists|draws: Seq<&mut ChaCha8Rng>|
                    #![trigger draws.len()]
                    {
                        &&& draws.len() == places.len()
                        &&& forall|t: int|
                            0 <= t < draws.len() ==> call_ensures(
                                Point2::random,
                                (#[trigger] draws[t],),
                                places[t],
                            )
                        &&& forall|t: int|
                            0 <= t < draws.len() ==> *(#[trigger] draws[t]) == (if t == 0 {
                                *old(rng)
                            } else {
                                *final(draws[t - 1])
                            })
                        &&& *rng == (if draws.len() == 0 {
                            *old(rng)
                        } else {
                            *final(draws[draws.len() - 1])
                        })
                    },
            decreases FOODS - j,
        {
            let ghost rng_before = *rng;
            let place = Point2::random(rng);
            proof {
                let places_before = places;
                places = places.push(place);
                let earlier = choose|draws: Seq<&mut ChaCha8Rng>|
                    #![trigger draws.len()]
                    {
                        &&& draws.len() == places_before.len()
                        &&& forall|t: int|
                            0 <= t < draws.len() ==> call_ensures(
                                Point2::random,
                                (#[trigger] draws[t],),
                                places_before[t],
                            )
                        &&& forall|t: int|
                            0 <= t < draws.len() ==> *(#[trigger] draws[t]) == (if t == 0 {
                                *old(rng)
                            } else {
                                *final(draws[t - 1])
                            })
                        &&& rng_before == (if draws.len() == 0 {
                            *old(rng)
                        } else {
                            *final(draws[draws.len() - 1])
                        })
                    };
                let draw = choose|draw: &mut ChaCha8Rng| #[trigger]
                    call_ensures(Point2::random, (draw,), place) && *draw == rng_before
                        && *final(draw) == *rng;
                let draws = earlier.push(draw);
                assert(draws.len() == places.len());
                assert forall|t: int| 0 <= t < draws.len() implies call_ensures(
                    Point2::random,
                    (#[trigger] draws[t],),
                    places[t],
                ) by {
                    if t < earlier.len() {
                        assert(draws[t] == earlier[t] && places[t] == places_before[t]);
                    }
                }
                assert forall|t: int| 0 <= t < draws.len() implies *(#[trigger] draws[t]) == (if t
                    == 0 {
                    *old(rng)
                } else {
                    *final(draws[t - 1])
                }) by {
                    if t < earlier.len() {
                        assert(draws[t] == earlier[t]);
                    }
                    if t > 0 {
                        assert(draws[t - 1] == earlier[t - 1]);
                    }
                }
                assert(*rng == *final(draws[draws.len() - 1]));
            }
            foods.push(Food::new(place));
            j = j + 1;
        }
        let world = World { animals, foods };
        proof {
            assert(world.places() =~= places);
        }
        world
    }

    /// Adds an agent behind those already there.
    pub fn add_animal(&mut self, animal: Animal)
        ensures
            final(self).spec_animals() == old(self).spec_animals().push(animal),
            final(self).spec_foods() == old(self).spec_foods(),
            final(self).all_inside(),
    {
        proof {
            use_type_invariant(&*self);
        }
        let place = animal.position();
        assert(place.in_world());
        let mut taken = World::new();
        core::mem::swap(self, &mut taken);
        let World { mut animals, foods } = taken;
        animals.push(animal);
        *self = World { animals, foods };
    }

    /// Adds a food item behind those already there.
    pub fn add_food(&mut self, food: Food)
        ensures
            final(self).spec_foods() == old(self).spec_foods().push(food),
            final(self).spec_animals() == old(self).spec_animals(),
            final(self).all_inside(),
    {
        proof {
            use_type_invariant(&*self);
        }
        let place = food.position();
        assert(place.in_world());
        let mut taken = World::new();
        core::mem::swap(self, &mut taken);
        let World { animals, mut foods } = taken;
        foods.push(food);
        *self = World { animals, foods };
    }

    /// The agents, in order.
    pub fn animals(&self) -> (animals: &[Animal])
        ensures
            animals@ == self.spec_animals(),
            self.all_inside(),
    {
        proof {
            use_type_invariant(self);
        }
        self.animals.as_slice()
    }

    /// The food items, in order.
    pub fn foods(&self) -> (foods: &[Food])
        ensures
            foods@ == self.spec_foods(),
            self.all_inside(),
    {
        proof {
            use_type_invariant(self);
        }
        self.foods.as_slice()
    }
}


/// The places of the food items, in order.
pub open spec fn places_of(foods: Seq<Food>) -> Seq<Point2> {
    Seq::new(foods.len(), |j: int| foods[j].spec_position())
}

/// One agent, standing at `agent`, meets the first `upto` of the items, in
/// order. An item within reach of the agent is sent to the next place of
/// `drawn` that is not used yet, `used` of them being used before.
///
/// Gives the places of the items afterwards and how many places of `drawn`
/// are used then.
pub open spec fn after_agent(
    agent: Point2,
    items: Seq<Point2>,
    drawn: Seq<Point2>,
    used: nat,
    upto: nat,
) -> (Seq<Point2>, nat)
    decreases upto,
{
    if upto == 0 {
        (items, used)
    } else {
        let met = after_agent(agent, items, drawn, used, (upto - 1) as nat);
        if within_reach(agent, met.0[upto - 1]) {
            (met.0.update(upto - 1, drawn[met.1 as int]), met.1 + 1)
        } else {
            met
        }
    }
}

/// The first `upto` agents meet all items, one agent after the other: the
/// places of the items afterwards, and how many places of `drawn` are used.
pub open spec fn after_agents(
    animals: Seq<Animal>,
    items: Seq<Point2>,
    drawn: Seq<Point2>,
    upto: nat,
) -> (Seq<Point2>, nat)
    decreases upto,
{
    if upto == 0 {
        (items, 0nat)
    } else {
        let met = after_agents(animals, items, drawn, (upto - 1) as nat);
        after_agent(animals[upto - 1].spec_position(), met.0, drawn, met.1, items.len())
    }
}

/// No item lies within reach of any agent.
pub open spec fn nothing_in_reach(animals: Seq<Animal>, items: Seq<Point2>) -> bool {
    forall|a: int, j: int|
        0 <= a < animals.len() && 0 <= j < items.len() ==> !within_reach(
            (#[trigger] animals[a]).spec_position(),
            #[trigger] items[j],
        )
}

/// One agent's meetings keep the number of items, leave the items it has not
/// met yet where they are, and use up places one by one.
pub proof fn lemma_after_agent_shape(
    agent: Point2,
    items: Seq<Point2>,
    drawn: Seq<Point2>,
    used: nat,
    upto: nat,
)
    requires
        upto <= items.len(),
    ensures
        after_agent(agent, items, drawn, used, upto).0.len() == items.len(),
        used <= after_agent(agent, items, drawn, used, upto).1 <= used + upto,
        forall|j: int|
            upto <= j < items.len() ==> after_agent(agent, items, drawn, used, upto).0[j]
                == items[j],
    decreases upto,
{
    if upto > 0 {
        lemma_after_agent_shape(agent, items, drawn, used, (upto - 1) as nat);
    }
}

/// The agents' meetings keep the number of items.
pub proof fn lemma_after_agents_shape(
    animals: Seq<Animal>,
    items: Seq<Point2>,
    drawn: Seq<Point2>,
    upto: nat,
)
    ensures
        after_agents(animals, items, drawn, upto).0.len() == items.len(),
        upto > 0 ==> after_agents(animals, items, drawn, (upto - 1) as nat).1 <= after_agents(
            animals,
            items,
            drawn,
            upto,
        ).1,
    decreases upto,
{
    if upto > 0 {
        lemma_after_agents_shape(animals, items, drawn, (upto - 1) as nat);
        let met = after_agents(animals, items, drawn, (upto - 1) as nat);
        lemma_after_agent_shape(animals[upto - 1].spec_position(), met.0, drawn, met.1, items.len());
    }
}

/// One agent's meetings read only the places that they use: places added
/// behind those make no difference.
pub proof fn lemma_after_agent_reads_what_it_uses(
    agent: Point2,
    items: Seq<Point2>,
    drawn: Seq<Point2>,
    longer: Seq<Point2>,
    used: nat,
    upto: nat,
)
    requires
        upto <= items.len(),
        after_agent(agent, items, drawn, used, upto).1 <= drawn.len() <= longer.len(),
        forall|t: int| 0 <= t < drawn.len() ==> drawn[t] == longer[t],
    ensures
        after_agent(agent, items, longer, used, upto) == after_agent(
            agent,
            items,
            drawn,
            used,
            upto,
        ),
    decreases upto,
{
    if upto > 0 {
        lemma_after_agent_reads_what_it_uses(
            agent,
            items,
            drawn,
            longer,
            used,
            (upto - 1) as nat,
        );
    }
}

/// The agents' meetings read only the places that they use.
pub proof fn lemma_after_agents_read_what_they_use(
    animals: Seq<Animal>,
    items: Seq<Point2>,
    drawn: Seq<Point2>,
    longer: Seq<Point2>,
    upto: nat,
)
    requires
        after_agents(animals, items, drawn, upto).1 <= drawn.len() <= longer.len(),
        forall|t: int| 0 <= t < drawn.len() ==> drawn[t] == longer[t],
    ensures
        after_agents(animals, items, longer, upto) == after_agents(animals, items, drawn, upto),
    decreases upto,
{
    if upto > 0 {
        lemma_after_agents_shape(animals, items, drawn, upto);
        lemma_after_agents_shape(animals, items, drawn, (upto - 1) as nat);
        lemma_after_agents_read_what_they_use(animals, items, drawn, longer, (upto - 1) as nat);
        let met = after_agents(animals, items, drawn, (upto - 1) as nat);
        lemma_after_agent_reads_what_it_uses(
            animals[upto - 1].spec_position(),
            met.0,
            drawn,
            longer,
            met.1,
            items.len(),
        );
    }
}

/// The simulation: a world that is advanced tick by tick.
#[derive(Debug)]
pub struct Simulation {
    world: World,
}

impl Simulation {
    pub closed spec fn spec_world(&self) -> World {
        self.world
    }

    /// A simulation of the given world.
    pub fn new(world: World) -> (simulation: Simulation)
        ensures
            simulation.spec_world() == world,
    {
        Simulation { world }
    }

    /// A simulation of a freshly drawn world: `ANIMALS` agents, one per
    /// heading, and `FOODS` food items, each at a place drawn by a call of
    /// `Point2::random`, one call reading the generator as the one before
    /// left it.
    pub fn random(rng: &mut ChaCha8Rng, headings: &[Heading; ANIMALS]) -> (simulation: Simulation)
        ensures
            simulation.spec_world().spec_animals().len() == ANIMALS,
            forall|i: int|
                0 <= i < ANIMALS ==> {
                    &&& (#[trigger] simulation.spec_world().spec_animals()[i]).spec_heading()
                        == headings@[i]
                    &&& simulation.spec_world().spec_animals()[i].spec_speed() == SPEED
                },
            simulation.spec_world().spec_foods().len() == FOODS,
            exists|draws: Seq<&mut ChaCha8Rng>|
                #![trigger draws.len()]
                {
                    &&& draws.len() == ANIMALS + FOODS
                    &&& forall|t: int|
                        0 <= t < draws.len() ==> call_ensures(
                            Point2::random,
                            (#[trigger] draws[t],),
                            simulation.spec_world().places()[t],
                        )
                    &&& forall|t: int|
                        0 <= t < draws.len() ==> *(#[trigger] draws[t]) == (if t == 0 {
                            *old(rng)
                        } else {
                            *final(draws[t - 1])
                        })
                    &&& *final(rng) == *final(draws[draws.len() - 1])
                },
            simulation.spec_world().all_inside(),
    {
        Simulation { world: World::random(rng, headings) }
    }

    /// The world as it stands.
    pub fn world(&self) -> (world: &World)
        ensures
            *world == self.spec_world(),
            world.all_inside(),
    {
        proof {
            use_type_invariant(&self.world);
        }
        &self.world
    }

    /// The first phase of a tick. Agents take their turns in order, and each
    /// agent meets the food items in order; an item within reach of the agent
    /// is sent to a freshly drawn place at once, so that a later agent meets
    /// it there.
    ///
    /// One place is drawn for every meeting that finds the item within reach,
    /// each by a call of `Point2::random`: the first reads the generator as it
    /// was handed in, every further one reads it as the one before left it,
    /// and the generator is handed back as the last one left it. The items end
    /// where `after_agents` leads them with those places. Where no item is
    /// within reach of any agent, nothing is drawn and the generator is left
    /// as it was.
    #[verifier::rlimit(60)]
    fn process_collisions(&mut self, rng: &mut ChaCha8Rng)
        ensures
            final(self).spec_world().spec_animals() == old(self).spec_world().spec_animals(),
            final(self).spec_world().spec_foods().len() == old(self).spec_world().spec_foods().len(),
            exists|drawn: Seq<Point2>, draws: Seq<&mut ChaCha8Rng>|
                #![trigger after_agents(old(self).spec_world().spec_animals(), places_of(old(self).spec_world().spec_foods()), drawn, old(self).spec_world().spec_animals().len()), draws.len()]
                {
                    &&& draws.len() == drawn.len()
                    &&& forall|t: int|
                        0 <= t < draws.len() ==> call_ensures(
                            Point2::random,
                            (#[trigger] draws[t],),
                            drawn[t],
                        )
                    &&& forall|t: int|
                        0 <= t < draws.len() ==> *(#[trigger] draws[t]) == (if t == 0 {
                            *old(rng)
                        } else {
                            *final(draws[t - 1])
                        })
                    &&& *final(rng) == (if draws.len() == 0 {
                        *old(rng)
                    } else {
                        *final(draws[draws.len() - 1])
                    })
                    &&& after_agents(
                        old(self).spec_world().spec_animals(),
                        places_of(old(self).spec_world().spec_foods()),
                        drawn,
                        old(self).spec_world().spec_animals().len(),
                    ) == (places_of(final(self).spec_world().spec_foods()), drawn.len())
                },
            nothing_in_reach(
                old(self).spec_world().spec_animals(),
                places_of(old(self).spec_world().spec_foods()),
            ) ==> *final(rng) == *old(rng),
            final(self).spec_world().all_inside(),
    {
        let mut taken = World::new();
        core::mem::swap(&mut self.world, &mut taken);
        proof {
            use_type_invariant(&taken);
        }
        let World { animals, mut foods } = taken;
        let ghost start = places_of(foods@);
        let ghost mut drawn: Seq<Point2> = Seq::empty();
        assert(Seq::<&mut ChaCha8Rng>::empty().len() == 0);
        let mut a: usize = 0;
        while a < animals.len()
            invariant
                0 <= a <= animals@.len(),
                foods@.len() == start.len(),
                after_agents(animals@, start, drawn, a as nat) == (
                    places_of(foods@),
                    drawn.len(),
                ),
                forall|j: int| 0 <= j < start.len() ==> (#[trigger] foods@[j]).spec_position().in_world(),
                forall|i: int|
                    0 <= i < animals@.len() ==> (#[trigger] animals@[i]).spec_position().in_world(),
                exists|draws: Seq<&mut ChaCha8Rng>|
                    #![trigger draws.len()]
                    {
                        &&& draws.len() == drawn.len()
                        &&& forall|t: int|
                            0 <= t < draws.len() ==> call_ensures(
                                Point2::random,
                                (#[trigger] draws[t],),
                                drawn[t],
                            )
                        &&& forall|t: int|
                            0 <= t < draws.len() ==> *(#[trigger] draws[t]) == (if t == 0 {
                                *old(rng)
                            } else {
                                *final(draws[t - 1])
                            })
                        &&& *rng == (if draws.len() == 0 {
                            *old(rng)
                        } else {
                            *final(draws[draws.len() - 1])
                        })
                    },
            decreases animals@.len() - a,
        {
            let ghost base = after_agents(animals@, start, drawn, a as nat);
            let mut j: usize = 0;
            while j < foods.len()
                invariant
                    0 <= a < animals@.len(),
                    0 <= j <= foods@.len(),
                    foods@.len() == start.len(),
                    base.0.len() == start.len(),
                    base.1 <= drawn.len(),
                    after_agents(animals@, start, drawn, a as nat) == base,
                    after_agent(
                        animals@[a as int].spec_position(),
                        base.0,
                        drawn,
                        base.1,
                        j as nat,
                    ) == (places_of(foods@), drawn.len()),
                    forall|m: int|
                        0 <= m < start.len() ==> (#[trigger] foods@[m]).spec_position().in_world(),
                    exists|draws: Seq<&mut ChaCha8Rng>|
                    #![trigger draws.len()]
                    {
                        &&& draws.len() == drawn.len()
                        &&& forall|t: int|
                            0 <= t < draws.len() ==> call_ensures(
                                Point2::random,
                                (#[trigger] draws[t],),
                                drawn[t],
                            )
                        &&& forall|t: int|
                            0 <= t < draws.len() ==> *(#[trigger] draws[t]) == (if t == 0 {
                                *old(rng)
                            } else {
                                *final(draws[t - 1])
                            })
                        &&& *rng == (if draws.len() == 0 {
                            *old(rng)
                        } else {
                            *final(draws[draws.len() - 1])
                        })
                    },
                decreases foods@.len() - j,
            {
                let ghost agent = animals@[a as int].spec_position();
                let ghost met = after_agent(agent, base.0, drawn, base.1, j as nat);
                proof {
                    assert(met.0[j as int] == foods@[j as int].spec_position());
                }
                if animals[a].position().reaches(&foods[j].position()) {
                    let ghost rng_before = *rng;
                    let ghost drawn_before = drawn;
                    let ghost places_before = places_of(foods@);
                    let place = Point2::random(rng);
                    proof {
                        drawn = drawn.push(place);
                        lemma_after_agents_read_what_they_use(
                            animals@,
                            start,
                            drawn_before,
                            drawn,
                            a as nat,
                        );
                        lemma_after_agent_reads_what_it_uses(
                            agent,
                            base.0,
                            drawn_before,
                            drawn,
                            base.1,
                            j as nat,
                        );
                        let earlier = choose|draws: Seq<&mut ChaCha8Rng>|
                            #![trigger draws.len()]
                            {
                                &&& draws.len() == drawn_before.len()
                                &&& forall|t: int|
                                    0 <= t < draws.len() ==> call_ensures(
                                        Point2::random,
                                        (#[trigger] draws[t],),
                                        drawn_before[t],
                                    )
                                &&& forall|t: int|
                                    0 <= t < draws.len() ==> *(#[trigger] draws[t]) == (if t == 0 {
                                        *old(rng)
                                    } else {
                                        *final(draws[t - 1])
                                    })
                                &&& rng_before == (if draws.len() == 0 {
                                    *old(rng)
                                } else {
                                    *final(draws[draws.len() - 1])
                                })
                            };
                        let draw = choose|draw: &mut ChaCha8Rng| #[trigger]
                            call_ensures(Point2::random, (draw,), place) && *draw == rng_before
                                && *final(draw) == *rng;
                        let draws = earlier.push(draw);
                        assert(draws.len() == drawn.len());
                        assert forall|t: int| 0 <= t < draws.len() implies call_ensures(
                            Point2::random,
                            (#[trigger] draws[t],),
                            drawn[t],
                        ) by {
                            if t < earlier.len() {
                                assert(draws[t] == earlier[t] && drawn[t] == drawn_before[t]);
                            }
                        }
                        assert forall|t: int| 0 <= t < draws.len() implies *(#[trigger] draws[t])
                            == (if t == 0 {
                            *old(rng)
                        } else {
                            *final(draws[t - 1])
                        }) by {
                            if t < earlier.len() {
                                assert(draws[t] == earlier[t]);
                            }
                            if t > 0 {
                                assert(draws[t - 1] == earlier[t - 1]);
                            }
                        }
                        assert(*rng == *final(draws[draws.len() - 1]));
                    }
                    foods[j] = Food::new(place);
                    proof {
                        assert(places_of(foods@) =~= places_before.update(j as int, place));
                        assert(drawn[drawn_before.len() as int] == place);
                    }
                }
                j = j + 1;
            }
            a = a + 1;
        }
        proof {
            if nothing_in_reach(animals@, start) {
                lemma_nothing_in_reach_draws_nothing(animals@, start, drawn, animals@.len());
            }
        }
        self.world = World { animals, foods };
        proof {
            assert(self.spec_world().spec_animals() == old(self).spec_world().spec_animals());
            assert(start == places_of(old(self).spec_world().spec_foods()));
            assert(after_agents(
                old(self).spec_world().spec_animals(),
                places_of(old(self).spec_world().spec_foods()),
                drawn,
                old(self).spec_world().spec_animals().len(),
            ) == (places_of(self.spec_world().spec_foods()), drawn.len()));
        }
    }

    /// The second phase of a tick: every agent moves on by its speed along
    /// its heading and is wrapped back into the world. Headings and speeds
    /// stay as they are, and so does the food.
    fn process_movements(&mut self)
        ensures
            final(self).spec_world().spec_foods() == old(self).spec_world().spec_foods(),
            final(self).spec_world().spec_animals().len() == old(
                self,
            ).spec_world().spec_animals().len(),
            forall|i: int|
                0 <= i < old(self).spec_world().spec_animals().len() ==> (
                #[trigger] final(self).spec_world().spec_animals()[i]).is_advance_of(
                    old(self).spec_world().spec_animals()[i],
                ),
            final(self).spec_world().all_inside(),
    {
        let mut taken = World::new();
        core::mem::swap(&mut self.world, &mut taken);
        proof {
            use_type_invariant(&taken);
        }
        let World { mut animals, foods } = taken;
        let ghost start = animals@;
        let mut i: usize = 0;
        while i < animals.len()
            invariant
                0 <= i <= animals@.len(),
                animals@.len() == start.len(),
                forall|k: int| 0 <= k < i ==> (#[trigger] animals@[k]).is_advance_of(start[k]),
                forall|k: int| i <= k < start.len() ==> animals@[k] == start[k],
                forall|k: int|
                    0 <= k < start.len() ==> (#[trigger] animals@[k]).spec_position().in_world(),
            decreases animals@.len() - i,
        {
            let moved = animals[i].advanced();
            animals[i] = moved;
            i = i + 1;
        }
        self.world = World { animals, foods };
    }

    /// Advances the world by one tick: first the meetings of agents and food,
    /// then the movement of the agents.
    ///
    /// Afterwards every agent has moved one stride from where it stood. One
    /// place has been drawn for every meeting that found the item within
    /// reach of the agent as it stood before the tick, each draw reading the
    /// generator as the one before left it, and every food item lies where
    /// `after_agents` leads it with those places. Every position lies in the
    /// world.
    pub fn step(&mut self, rng: &mut ChaCha8Rng)
        ensures
            final(self).spec_world().spec_animals().len() == old(
                self,
            ).spec_world().spec_animals().len(),
            final(self).spec_world().spec_foods().len() == old(self).spec_world().spec_foods().len(),
            forall|i: int|
                0 <= i < old(self).spec_world().spec_animals().len() ==> (
                #[trigger] final(self).spec_world().spec_animals()[i]).is_advance_of(
                    old(self).spec_world().spec_animals()[i],
                ),
            exists|drawn: Seq<Point2>, draws: Seq<&mut ChaCha8Rng>|
                #![trigger after_agents(old(self).spec_world().spec_animals(), places_of(old(self).spec_world().spec_foods()), drawn, old(self).spec_world().spec_animals().len()), draws.len()]
                {
                    &&& draws.len() == drawn.len()
                    &&& forall|t: int|
                        0 <= t < draws.len() ==> call_ensures(
                            Point2::random,
                            (#[trigger] draws[t],),
                            drawn[t],
                        )
                    &&& forall|t: int|
                        0 <= t < draws.len() ==> *(#[trigger] draws[t]) == (if t == 0 {
                            *old(rng)
                        } else {
                            *final(draws[t - 1])
                        })
                    &&& *final(rng) == (if draws.len() == 0 {
                        *old(rng)
                    } else {
                        *final(draws[draws.len() - 1])
                    })
                    &&& after_agents(
                        old(self).spec_world().spec_animals(),
                        places_of(old(self).spec_world().spec_foods()),
                        drawn,
                        old(self).spec_world().spec_animals().len(),
                    ) == (places_of(final(self).spec_world().spec_foods()), drawn.len())
                },
            nothing_in_reach(
                old(self).spec_world().spec_animals(),
                places_of(old(self).spec_world().spec_foods()),
            ) ==> *final(rng) == *old(rng),
            final(self).spec_world().all_inside(),
    {
        self.process_collisions(rng);
        self.process_movements();
    }
}

/// A wrapped coordinate lies in the world, whatever was wrapped: negative
/// values and values past the far edge included.
pub proof fn lemma_wrapped_lies_in_world(value: int)
    ensures
        0 <= wrapped(value) < SPAN,
        (value - wrapped(value)) % (SPAN as int) == 0,
        0 <= value < SPAN ==> wrapped(value) == value,
{
    assert((value - value % (SPAN as int)) % (SPAN as int) == 0) by (nonlinear_arith);
}

/// After a stride an animal stands inside the world.
pub proof fn lemma_advance_stays_in_world(after: Animal, before: Animal)
    requires
        after.is_advance_of(before),
    ensures
        after.spec_position().in_world(),
{
    lemma_wrapped_lies_in_world(
        before.spec_position()@.0 + stride(before.spec_heading()@.0, before.spec_speed() as int),
    );
    lemma_wrapped_lies_in_world(
        before.spec_position()@.1 + stride(before.spec_heading()@.1, before.spec_speed() as int),
    );
}

/// Movement leaves nothing to chance: where an animal stands, which way it
/// faces and how fast it is after a stride follow from the animal before it.
pub proof fn lemma_advance_is_determined(one: Animal, other: Animal, before: Animal)
    requires
        one.is_advance_of(before),
        other.is_advance_of(before),
    ensures
        one.spec_position()@ == other.spec_position()@,
        one.spec_heading() == other.spec_heading(),
        one.spec_speed() == other.spec_speed(),
{
}

/// Where no item is within reach of any agent, the items stay where they are
/// and no place is used.
pub proof fn lemma_nothing_in_reach_draws_nothing(
    animals: Seq<Animal>,
    items: Seq<Point2>,
    drawn: Seq<Point2>,
    upto: nat,
)
    requires
        upto <= animals.len(),
        nothing_in_reach(animals, items),
    ensures
        after_agents(animals, items, drawn, upto) == (items, 0nat),
    decreases upto,
{
    if upto > 0 {
        lemma_nothing_in_reach_draws_nothing(animals, items, drawn, (upto - 1) as nat);
        lemma_idle_agent(animals[upto - 1].spec_position(), items, drawn, 0, items.len());
    }
}

proof fn lemma_idle_agent(
    agent: Point2,
    items: Seq<Point2>,
    drawn: Seq<Point2>,
    used: nat,
    upto: nat,
)
    requires
        upto <= items.len(),
        forall|j: int| 0 <= j < items.len() ==> !within_reach(agent, #[trigger] items[j]),
    ensures
        after_agent(agent, items, drawn, used, upto) == (items, used),
    decreases upto,
{
    if upto > 0 {
        lemma_idle_agent(agent, items, drawn, used, (upto - 1) as nat);
    }
}

/// What one agent's meetings do to one item: an item that the agent has met
/// and found within reach lies at one of the places used by this agent, and
/// any other item lies where it lay.
pub proof fn lemma_after_agent_at(
    agent: Point2,
    items: Seq<Point2>,
    drawn: Seq<Point2>,
    used: nat,
    upto: nat,
    j: int,
)
    requires
        upto <= items.len(),
        0 <= j < items.len(),
    ensures
        j < upto && within_reach(agent, items[j]) ==> exists|t: int|
            used <= t < after_agent(agent, items, drawn, used, upto).1 && after_agent(
                agent,
                items,
                drawn,
                used,
                upto,
            ).0[j] == #[trigger] drawn[t],
        !(j < upto && within_reach(agent, items[j])) ==> after_agent(
            agent,
            items,
            drawn,
            used,
            upto,
        ).0[j] == items[j],
    decreases upto,
{
    if upto > 0 {
        let met = after_agent(agent, items, drawn, used, (upto - 1) as nat);
        lemma_after_agent_at(agent, items, drawn, used, (upto - 1) as nat, j);
        lemma_after_agent_shape(agent, items, drawn, used, (upto - 1) as nat);
        if j == upto - 1 {
            if within_reach(agent, items[j]) {
                assert(after_agent(agent, items, drawn, used, upto).0[j] == drawn[met.1 as int]);
            }
        } else if j < upto - 1 && within_reach(agent, items[j]) {
            let t = choose|t: int| used <= t < met.1 && met.0[j] == #[trigger] drawn[t];
            assert(after_agent(agent, items, drawn, used, upto).0[j] == drawn[t]);
        }
    }
}

/// After the first `upto` agents an item lies where it started, if none of
/// them was within reach of that place, and else at one of the places used.
pub proof fn lemma_settles(
    animals: Seq<Animal>,
    items: Seq<Point2>,
    drawn: Seq<Point2>,
    upto: nat,
    j: int,
)
    requires
        upto <= animals.len(),
        0 <= j < items.len(),
    ensures
        (forall|a: int| 0 <= a < upto ==> !within_reach(
            (#[trigger] animals[a]).spec_position(),
            items[j],
        )) ==> after_agents(animals, items, drawn, upto).0[j] == items[j],
        (exists|a: int| 0 <= a < upto && within_reach(
            (#[trigger] animals[a]).spec_position(),
            items[j],
        )) ==> exists|t: int|
            0 <= t < after_agents(animals, items, drawn, upto).1 && after_agents(
                animals,
                items,
                drawn,
                upto,
            ).0[j] == #[trigger] drawn[t],
    decreases upto,
{
    if upto > 0 {
        let met = after_agents(animals, items, drawn, (upto - 1) as nat);
        let agent = animals[upto - 1].spec_position();
        let now = after_agents(animals, items, drawn, upto);
        lemma_settles(animals, items, drawn, (upto - 1) as nat, j);
        lemma_after_agents_shape(animals, items, drawn, (upto - 1) as nat);
        lemma_after_agent_at(agent, met.0, drawn, met.1, items.len(), j);
        lemma_after_agent_shape(agent, met.0, drawn, met.1, items.len());
        if within_reach(agent, met.0[j]) {
            let t = choose|t: int| met.1 <= t < now.1 && now.0[j] == #[trigger] drawn[t];
            assert(0 <= t < now.1 && now.0[j] == drawn[t]);
        } else {
            assert(now.0[j] == met.0[j]);
            if exists|a: int| 0 <= a < upto - 1 && within_reach(
                (#[trigger] animals[a]).spec_position(),
                items[j],
            ) {
                let t = choose|t: int| 0 <= t < met.1 && met.0[j] == #[trigger] drawn[t];
                assert(0 <= t < now.1 && now.0[j] == drawn[t]);
            } else {
                assert(met.0[j] == items[j]);
                assert(!within_reach(animals[upto - 1].spec_position(), items[j]));
                assert forall|a: int| 0 <= a < upto implies !within_reach(
                    (#[trigger] animals[a]).spec_position(),
                    items[j],
                ) by {}
            }
        }
    }
}

/// A food item that no agent reaches stays where it is.
pub proof fn lemma_unreached_food_stays(
    animals: Seq<Animal>,
    items: Seq<Point2>,
    drawn: Seq<Point2>,
    j: int,
)
    requires
        0 <= j < items.len(),
        forall|a: int|
            0 <= a < animals.len() ==> !within_reach((#[trigger] animals[a]).spec_position(), items[j]),
    ensures
        after_agents(animals, items, drawn, animals.len()).0[j] == items[j],
{
    lemma_settles(animals, items, drawn, animals.len(), j);
}

/// A food item within reach of at least one agent is consumed: it ends the
/// phase at one of the places that were drawn and used.
pub proof fn lemma_reached_food_is_relocated(
    animals: Seq<Animal>,
    items: Seq<Point2>,
    drawn: Seq<Point2>,
    j: int,
    eater: int,
)
    requires
        0 <= j < items.len(),
        0 <= eater < animals.len(),
        within_reach(animals[eater].spec_position(), items[j]),
    ensures
        exists|t: int|
            0 <= t < after_agents(animals, items, drawn, animals.len()).1 && after_agents(
                animals,
                items,
                drawn,
                animals.len(),
            ).0[j] == #[trigger] drawn[t],
{
    lemma_settles(animals, items, drawn, animals.len(), j);
}

} // verus!
