//! What the world is made of: places, directions, agents and food.
//!
//! The world is a square that wraps around at its edges. Lengths are whole
//! numbers of world units; the square is `SPAN` units wide, so a coordinate
//! `c` stands for the fraction `c / SPAN` of the width and always lies in
//! `0 .. SPAN`.

use crate::random::{draws_below, lemma_draw_is_recorded, uniform_below};
use rand_chacha::ChaCha8Rng;
use vstd::prelude::*;

verus! {

/// Width and height of the world, in world units.
pub const SPAN: u32 = 1_000_000;

/// An agent consumes a food item that is at most this far away: one
/// hundredth of the world's width.
pub const REACH: u32 = 10_000;

/// The coordinate in `0 .. SPAN` that `value` wraps to: leaving the world on
/// one side means entering it on the opposite side.
pub open spec fn wrapped(value: int) -> int {
    value % (SPAN as int)
}

/// Wraps a coordinate back into the world.
pub fn wrap(value: i64) -> (coordinate: u32)
    ensures
        coordinate == wrapped(value as int),
        coordinate < SPAN,
{
    let span: i64 = SPAN as i64;
    let remainder: i64 = value % span;
    if remainder < 0 {
        (remainder + span) as u32
    } else {
        remainder as u32
    }
}

/// A place in the world.
#[derive(Clone, Copy, Debug, PartialEq, Eq)]
pub struct Point2 {
    x: u32,
    y: u32,
}

impl View for Point2 {
    type V = (int, int);

    closed spec fn view(&self) -> (int, int) {
        (self.x as int, self.y as int)
    }
}

impl Point2 {
    #[verifier::type_invariant]
    spec fn inside(self) -> bool {
        self.x < SPAN && self.y < SPAN
    }

    /// Both coordinates lie in `0 .. SPAN`.
    pub open spec fn in_world(&self) -> bool {
        0 <= self@.0 < SPAN && 0 <= self@.1 < SPAN
    }

    /// The point with the given coordinates, if they lie in the world.
    pub fn new(x: u32, y: u32) -> (point: Option<Point2>)
        ensures
            point is Some <==> x < SPAN && y < SPAN,
            point matches Some(p) ==> p@ == (x as int, y as int) && p.in_world(),
    {
        if x < SPAN && y < SPAN {
            Some(Point2 { x, y })
        } else {
            None
        }
    }

    /// The point that the given coordinates wrap to.
    pub fn wrapping(x: i64, y: i64) -> (point: Point2)
        ensures
            point@ == (wrapped(x as int), wrapped(y as int)),
            point.in_world(),
    {
        Point2 { x: wrap(x), y: wrap(y) }
    }

    /// A point drawn uniformly from the world: first `x`, then `y`.
    ///
    /// Each coordinate is what one draw from the integers below `SPAN` has
    /// given. The draw for `x` reads the generator as it was handed in, the
    /// draw for `y` reads it as the first draw left it, and the generator is
    /// handed back as the second draw left it.
    pub fn random(rng: &mut ChaCha8Rng) -> (point: Point2)
        ensures
            point.in_world(),
            exists|first: &mut ChaCha8Rng, second: &mut ChaCha8Rng, x: u32, y: u32|
                #![trigger draws_below(first, SPAN, x), draws_below(second, SPAN, y)]
                {
                    &&& *first == *old(rng)
                    &&& draws_below(first, SPAN, x)
                    &&& *second == *final(first)
                    &&& draws_below(second, SPAN, y)
                    &&& *final(rng) == *final(second)
                    &&& point@ == (x as int, y as int)
                },
    {
        let x = uniform_below(rng, SPAN);
        let y = uniform_below(rng, SPAN);
        proof {
            assert forall|drawn_from: &mut ChaCha8Rng, value: u32| #[trigger]
                call_ensures(uniform_below, (drawn_from, SPAN), value) implies draws_below(
                drawn_from,
                SPAN,
                value,
            ) by {
                lemma_draw_is_recorded(drawn_from, SPAN, value);
            }
        }
        Point2 { x, y }
    }

    /// The coordinate along `x`.
    pub fn x(&self) -> (x: u32)
        ensures
            x == self@.0,
            x < SPAN,
    {
        proof {
            use_type_invariant(self);
        }
        self.x
    }

    /// The coordinate along `y`.
    pub fn y(&self) -> (y: u32)
        ensures
            y == self@.1,
            y < SPAN,
    {
        proof {
            use_type_invariant(self);
        }
        self.y
    }

    /// Whether `other` lies within `REACH` of this point, in a straight line.
    pub fn reaches(&self, other: &Point2) -> (near: bool)
        ensures
            near == within_reach(*self, *other),
    {
        proof {
            use_type_invariant(self);
            use_type_invariant(other);
        }
        let dx: i64 = self.x as i64 - other.x as i64;
        let dy: i64 = self.y as i64 - other.y as i64;
        let reach: i64 = REACH as i64;
        assert(0 <= dx * dx <= SPAN * SPAN) by (nonlinear_arith)
            requires
                -SPAN <= dx <= SPAN,
        ;
        assert(0 <= dy * dy <= SPAN * SPAN) by (nonlinear_arith)
            requires
                -SPAN <= dy <= SPAN,
        ;
        dx * dx + dy * dy <= reach * reach
    }
}

/// Square of the straight-line distance between two points.
pub open spec fn distance_squared(a: Point2, b: Point2) -> int {
    (a@.0 - b@.0) * (a@.0 - b@.0) + (a@.1 - b@.1) * (a@.1 - b@.1)
}

/// The two points are at most `REACH` apart.
pub open spec fn within_reach(a: Point2, b: Point2) -> bool {
    distance_squared(a, b) <= REACH * REACH
}

/// How far an agent of the given speed gets in one tick along one axis when
/// its heading has the given component along that axis: the component's share
/// of the speed, rounded towards zero.
pub open spec fn stride(component: int, speed: int) -> int {
    if component >= 0 {
        component * speed / (SPAN as int)
    } else {
        -((-component) * speed / (SPAN as int))
    }
}

/// Whether `(east, north)` are the components, in millionths, of a direction
/// of length one, give or take the rounding to whole millionths.
pub open spec fn is_direction(east: int, north: int) -> bool {
    &&& -SPAN <= east <= SPAN
    &&& -SPAN <= north <= SPAN
    &&& SPAN * SPAN - 2 * SPAN <= east * east + north * north <= SPAN * SPAN + 2 * SPAN
}

/// A direction, given by its components along the two axes in millionths:
/// `(SPAN, 0)` points along `x`, `(0, SPAN)` along `y`.
#[derive(Clone, Copy, Debug, PartialEq, Eq)]
pub struct Heading {
    east: i32,
    north: i32,
}

impl View for Heading {
    type V = (int, int);

    closed spec fn view(&self) -> (int, int) {
        (self.east as int, self.north as int)
    }
}

impl Heading {
    #[verifier::type_invariant]
    spec fn unit(self) -> bool {
        is_direction(self.east as int, self.north as int)
    }

    /// The heading with the given components, if they are those of a
    /// direction of length one.
    pub fn new(east: i32, north: i32) -> (heading: Option<Heading>)
        ensures
            heading is Some <==> is_direction(east as int, north as int),
            heading matches Some(h) ==> h@ == (east as int, north as int),
    {
        let span: i64 = SPAN as i64;
        let e: i64 = east as i64;
        let n: i64 = north as i64;
        if -span <= e && e <= span && -span <= n && n <= span {
            assert(0 <= e * e <= SPAN * SPAN) by (nonlinear_arith)
                requires
                    -SPAN <= e <= SPAN,
            ;
            assert(0 <= n * n <= SPAN * SPAN) by (nonlinear_arith)
                requires
                    -SPAN <= n <= SPAN,
            ;
            let length_squared: i64 = e * e + n * n;
            if span * span - 2 * span <= length_squared && length_squared <= span * span + 2
                * span {
                return Some(Heading { east, north });
            }
        }
        None
    }

    /// The component along `x`, in millionths.
    pub fn east(&self) -> (east: i32)
        ensures
            east == self@.0,
            is_direction(self@.0, self@.1),
    {
        proof {
            use_type_invariant(self);
        }
        self.east
    }

    /// The component along `y`, in millionths.
    pub fn north(&self) -> (north: i32)
        ensures
            north == self@.1,
            is_direction(self@.0, self@.1),
    {
        proof {
            use_type_invariant(self);
        }
        self.north
    }
}

/// One tick's progress along one axis.
fn stride_along(component: i32, speed: u32) -> (progress: i64)
    requires
        -SPAN <= component <= SPAN,
    ensures
        progress == stride(component as int, speed as int),
        -speed <= progress <= speed,
{
    let magnitude: u64 = if component >= 0 {
        component as u64
    } else {
        (-component) as u64
    };
    assert(0 <= magnitude * speed <= SPAN * u32::MAX) by (nonlinear_arith)
        requires
            0 <= magnitude <= SPAN,
            0 <= speed <= u32::MAX,
    ;
    assert(magnitude * speed / (SPAN as int) <= speed) by (nonlinear_arith)
        requires
            0 <= magnitude <= SPAN,
            0 <= speed,
    ;
    let share: u64 = magnitude * (speed as u64) / (SPAN as u64);
    if component >= 0 {
        share as i64
    } else {
        -(share as i64)
    }
}

/// An agent: where it is, which way it faces, and how far it gets per tick.
#[derive(Clone, Copy, Debug, PartialEq, Eq)]
pub struct Animal {
    position: Point2,
    heading: Heading,
    speed: u32,
}

impl Animal {
    pub closed spec fn spec_position(&self) -> Point2 {
        self.position
    }

    pub closed spec fn spec_heading(&self) -> Heading {
        self.heading
    }

    pub closed spec fn spec_speed(&self) -> u32 {
        self.speed
    }

    /// Whether this animal is `before` one tick later: moved by its speed
    /// along its heading and wrapped back into the world, facing the same way
    /// at the same speed.
    pub open spec fn is_advance_of(&self, before: Animal) -> bool {
        &&& self.spec_heading() == before.spec_heading()
        &&& self.spec_speed() == before.spec_speed()
        &&& self.spec_position()@.0 == wrapped(
            before.spec_position()@.0 + stride(
                before.spec_heading()@.0,
                before.spec_speed() as int,
            ),
        )
        &&& self.spec_position()@.1 == wrapped(
            before.spec_position()@.1 + stride(
                before.spec_heading()@.1,
                before.spec_speed() as int,
            ),
        )
    }

    /// An animal at the given place, facing the given way, that covers
    /// `speed` world units per tick.
    pub fn new(position: Point2, heading: Heading, speed: u32) -> (animal: Animal)
        ensures
            animal.spec_position() == position,
            animal.spec_heading() == heading,
            animal.spec_speed() == speed,
    {
        Animal { position, heading, speed }
    }

    /// Where the animal stands.
    #[verifier::when_used_as_spec(spec_position)]
    pub fn position(&self) -> (position: Point2)
        ensures
            position == self.spec_position(),
            position.in_world(),
    {
        proof {
            use_type_invariant(&self.position);
        }
        self.position
    }

    /// Which way the animal faces.
    #[verifier::when_used_as_spec(spec_heading)]
    pub fn heading(&self) -> (heading: Heading)
        ensures
            heading == self.spec_heading(),
    {
        self.heading
    }

    /// How many world units the animal covers per tick.
    #[verifier::when_used_as_spec(spec_speed)]
    pub fn speed(&self) -> (speed: u32)
        ensures
            speed == self.spec_speed(),
    {
        self.speed
    }

    /// This animal one tick later.
    pub fn advanced(&self) -> (after: Animal)
        ensures
            after.is_advance_of(*self),
            after.spec_position().in_world(),
    {
        let east = stride_along(self.heading.east(), self.speed);
        let north = stride_along(self.heading.north(), self.speed);
        let position = Point2::wrapping(
            self.position.x() as i64 + east,
            self.position.y() as i64 + north,
        );
        Animal { position, heading: self.heading, speed: self.speed }
    }
}

/// A food item: it has a place and nothing else.
#[derive(Clone, Copy, Debug, PartialEq, Eq)]
pub struct Food {
    position: Point2,
}

impl Food {
    pub closed spec fn spec_position(&self) -> Point2 {
        self.position
    }

    /// A food item at the given place.
    pub fn new(position: Point2) -> (food: Food)
        ensures
            food.spec_position() == position,
    {
        Food { position }
    }

    /// Where the item lies.
    #[verifier::when_used_as_spec(spec_position)]
    pub fn position(&self) -> (position: Point2)
        ensures
            position == self.spec_position(),
            position.in_world(),
    {
        proof {
            use_type_invariant(&self.position);
        }
        self.position
    }
}

} // verus!
