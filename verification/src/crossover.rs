//! Combining two parent genomes into a child genome.

use crate::chromosome::Chromosome;
use crate::random::{draws_flag, lemma_flag_is_recorded, ratio_draw};
use rand_chacha::ChaCha8Rng;
use vstd::prelude::*;

verus! {

/// A way of combining two parents of equal length into one child.
pub trait CrossoverMethod<G> {
    fn crossover(
        &self,
        rng: &mut ChaCha8Rng,
        parent_a: &Chromosome<G>,
        parent_b: &Chromosome<G>,
    ) -> (child: Chromosome<G>)
        requires
            parent_a@.len() == parent_b@.len(),
        ensures
            child@.len() == parent_a@.len(),
    ;
}

/// The child that takes position `i` from `parent_a` where `from_a[i]` holds
/// and from `parent_b` where it does not.
pub open spec fn mix<G>(from_a: Seq<bool>, parent_a: Seq<G>, parent_b: Seq<G>) -> Seq<G> {
    Seq::new(
        from_a.len(),
        |i: int|
            if from_a[i] {
                parent_a[i]
            } else {
                parent_b[i]
            },
    )
}

/// Uniform crossover: every position of the child is taken from one parent or
/// the other, each with probability one half, independently of the rest.
#[derive(Clone, Copy, Debug)]
pub struct UniformCrossover;

impl UniformCrossover {
    /// Uniform crossover needs no settings.
    pub fn new() -> (method: Self)
        ensures
            method == UniformCrossover,
    {
        UniformCrossover
    }

    /// Builds the child that the given choices describe: position `i` comes
    /// from `parent_a` where `from_a[i]` holds, from `parent_b` otherwise.
    pub fn combine<G: Copy>(
        from_a: &Vec<bool>,
        parent_a: &Chromosome<G>,
        parent_b: &Chromosome<G>,
    ) -> (child: Chromosome<G>)
        requires
            from_a@.len() == parent_a@.len(),
            parent_a@.len() == parent_b@.len(),
        ensures
            child@ == mix(from_a@, parent_a@, parent_b@),
    {
        let mut genes: Vec<G> = Vec::new();
        let mut i: usize = 0;
        while i < from_a.len()
            invariant
                0 <= i <= from_a@.len(),
                from_a@.len() == parent_a@.len(),
                parent_a@.len() == parent_b@.len(),
                genes@ == mix(from_a@, parent_a@, parent_b@).take(i as int),
            decreases from_a@.len() - i,
        {
            let gene = if from_a[i] {
                *parent_a.index(i)
            } else {
                *parent_b.index(i)
            };
            genes.push(gene);
            assert(genes@ == mix(from_a@, parent_a@, parent_b@).take(i + 1));
            i = i + 1;
        }
        assert(genes@ == mix(from_a@, parent_a@, parent_b@));
        Chromosome::from_iter(genes)
    }
}

impl<G: Copy> CrossoverMethod<G> for UniformCrossover {
    /// Draws one fair boolean per position, first position first, and
    /// combines the parents accordingly.
    ///
    /// The child is the mix of the parents by as many fair draws as there
    /// are positions. The first draw reads the generator as it was handed
    /// in, every further draw reads it as the draw before left it, and the
    /// generator is handed back as the last draw left it; parents without
    /// genes leave it as it was.
    fn crossover(
        &self,
        rng: &mut ChaCha8Rng,
        parent_a: &Chromosome<G>,
        parent_b: &Chromosome<G>,
    ) -> (child: Chromosome<G>)
        ensures
            exists|from_a: Seq<bool>, draws: Seq<&mut ChaCha8Rng>|
                #![trigger mix(from_a, parent_a@, parent_b@), draws.len()]
                {
                    &&& from_a.len() == parent_a@.len()
                    &&& draws.len() == parent_a@.len()
                    &&& forall|k: int|
                        0 <= k < draws.len() ==> draws_flag(#[trigger] draws[k], 1, 2, from_a[k])
                    &&& forall|k: int|
                        0 <= k < draws.len() ==> *(#[trigger] draws[k]) == (if k == 0 {
                            *old(rng)
                        } else {
                            *final(draws[k - 1])
                        })
                    &&& *final(rng) == (if draws.len() == 0 {
                        *old(rng)
                    } else {
                        *final(draws[draws.len() - 1])
                    })
                    &&& child@ == mix(from_a, parent_a@, parent_b@)
                },
            forall|i: int|
                0 <= i < child@.len() ==> child@[i] == parent_a@[i] || child@[i] == parent_b@[i],
    {
        let n = parent_a.len();
        let mut from_a: Vec<bool> = Vec::new();
        let mut i: usize = 0;
        assert(Seq::<&mut ChaCha8Rng>::empty().len() == 0);
        while i < n
            invariant
                0 <= i <= n,
                from_a@.len() == i,
                exists|draws: Seq<&mut ChaCha8Rng>|
                    #![trigger draws.len()]
                    {
                        &&& draws.len() == i
                        &&& forall|k: int|
                            0 <= k < draws.len() ==> draws_flag(
                                #[trigger] draws[k],
                                1,
                                2,
                                from_a@[k],
                            )
                        &&& forall|k: int|
                            0 <= k < draws.len() ==> *(#[trigger] draws[k]) == (if k == 0 {
                                *old(rng)
                            } else {
                                *final(draws[k - 1])
                            })
                        &&& *rng == (if draws.len() == 0 {
                            *old(rng)
                        } else {
                            *final(draws[draws.len() - 1])
                        })
                    },
            decreases n - i,
        {
            let ghost before = *rng;
            let ghost flags = from_a@;
            let flag = ratio_draw(rng, 1, 2);
            from_a.push(flag);
            i = i + 1;
            proof {
                let earlier = choose|draws: Seq<&mut ChaCha8Rng>|
                    #![trigger draws.len()]
                    {
                        &&& draws.len() == i - 1
                        &&& forall|k: int|
                            0 <= k < draws.len() ==> draws_flag(
                                #[trigger] draws[k],
                                1,
                                2,
                                flags[k],
                            )
                        &&& forall|k: int|
                            0 <= k < draws.len() ==> *(#[trigger] draws[k]) == (if k == 0 {
                                *old(rng)
                            } else {
                                *final(draws[k - 1])
                            })
                        &&& before == (if draws.len() == 0 {
                            *old(rng)
                        } else {
                            *final(draws[draws.len() - 1])
                        })
                    };
                let draw = choose|draw: &mut ChaCha8Rng| #[trigger]
                    call_ensures(ratio_draw, (draw, 1u32, 2u32), flag) && *draw == before
                        && *final(draw) == *rng;
                lemma_flag_is_recorded(draw, 1, 2, flag);
                let draws = earlier.push(draw);
                assert(draws.len() == i);
                assert forall|k: int| 0 <= k < draws.len() implies draws_flag(
                    #[trigger] draws[k],
                    1,
                    2,
                    from_a@[k],
                ) by {
                    if k < i - 1 {
                        assert(draws[k] == earlier[k] && from_a@[k] == flags[k]);
                    }
                }
                assert forall|k: int| 0 <= k < draws.len() implies *(#[trigger] draws[k]) == (if k
                    == 0 {
                    *old(rng)
                } else {
                    *final(draws[k - 1])
                }) by {
                    if k < i - 1 {
                        assert(draws[k] == earlier[k]);
                        if k > 0 {
                            assert(draws[k - 1] == earlier[k - 1]);
                        }
                    } else if k > 0 {
                        assert(draws[k - 1] == earlier[k - 1]);
                    }
                }
                assert(*rng == *final(draws[draws.len() - 1]));
            }
        }
        let child = UniformCrossover::combine(&from_a, parent_a, parent_b);
        assert(child@ == mix(from_a@, parent_a@, parent_b@));
        child
    }
}

} // verus!
