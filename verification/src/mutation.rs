//! Perturbing a genome in place.

use crate::chromosome::Chromosome;
use crate::random::{draws_flag, is_drawn_flag, lemma_flag_is_recorded, ratio_draw};
use rand_chacha::ChaCha8Rng;
use vstd::prelude::*;

verus! {

/// A way of perturbing a child's genes. The genome keeps its length: genes
/// change where they stand, none is added or dropped.
pub trait MutationMethod<G> {
    fn mutate(&self, rng: &mut ChaCha8Rng, child: &mut Chromosome<G>)
        ensures
            final(child)@.len() == old(child)@.len(),
    ;
}

/// Mutation that touches each gene with a fixed chance and moves a touched
/// gene by a signed amount below a fixed coefficient.
///
/// The chance is the ratio of two whole numbers. What it means to move a
/// gene is said by `nudge`: it is handed the generator, the gene, the
/// coefficient and whether the sign drawn is negative, and it gives the gene
/// moved.
#[verifier::reject_recursive_types(G)]
pub struct GaussianMutation<G: Copy, N: Fn(&mut ChaCha8Rng, G, G, bool) -> G> {
    chance_numerator: u32,
    chance_denominator: u32,
    coeff: G,
    nudge: N,
}

impl<G: Copy, N: Fn(&mut ChaCha8Rng, G, G, bool) -> G> GaussianMutation<G, N> {
    #[verifier::type_invariant]
    spec fn sound(self) -> bool {
        &&& 0 < self.chance_denominator
        &&& self.chance_numerator <= self.chance_denominator
        &&& forall|rng: &mut ChaCha8Rng, gene: G, coeff: G, negative: bool|
            call_requires(self.nudge, (rng, gene, coeff, negative))
    }

    /// The chance of touching a gene, as `(numerator, denominator)`.
    pub closed spec fn chance(&self) -> (u32, u32) {
        (self.chance_numerator, self.chance_denominator)
    }

    /// The bound on how far a touched gene is moved.
    pub closed spec fn coeff(&self) -> G {
        self.coeff
    }

    /// The step that moves a gene.
    pub closed spec fn nudge(&self) -> N {
        self.nudge
    }

    /// `after` is what the step that moves a gene has made of `before`, with
    /// a sign that a fair draw has given.
    pub open spec fn moves(&self, before: G, after: G) -> bool {
        exists|rng: &mut ChaCha8Rng, negative: bool|
            {
                &&& is_drawn_flag(1, 2, negative)
                &&& #[trigger] call_ensures(
                    self.nudge(),
                    (rng, before, self.coeff(), negative),
                    after,
                )
            }
    }

    /// A mutation with the chance `chance_numerator / chance_denominator`,
    /// which has to be a chance: a ratio between zero and one.
    pub fn new(chance_numerator: u32, chance_denominator: u32, coeff: G, nudge: N) -> (method: Self)
        requires
            0 < chance_denominator,
            chance_numerator <= chance_denominator,
            forall|rng: &mut ChaCha8Rng, gene: G, coeff: G, negative: bool|
                call_requires(nudge, (rng, gene, coeff, negative)),
        ensures
            method.chance() == (chance_numerator, chance_denominator),
            method.coeff() == coeff,
            method.nudge() == nudge,
    {
        GaussianMutation { chance_numerator, chance_denominator, coeff, nudge }
    }
}

impl<G: Copy, N: Fn(&mut ChaCha8Rng, G, G, bool) -> G> MutationMethod<G> for GaussianMutation<
    G,
    N,
> {
    /// For every gene, first to last: it is drawn whether to touch the gene;
    /// for a gene that is touched a sign is drawn, and the gene is moved.
    ///
    /// With `states[i]` being the generator as gene `i` finds it: a gene is
    /// left as it was where the draw at the mutation's chance gives `false`,
    /// and that draw is all that is taken for it. Where it gives `true`, the
    /// sign is what a fair draw gives, taken from the generator as the first
    /// draw left it, and the gene is what the step makes of it with that
    /// sign, taken from the generator as the second draw left it. The next
    /// gene finds the generator as this one left it, and the generator is
    /// handed back as the last gene left it.
    ///
    /// With a chance of zero the genome is left as it was; with a chance of
    /// one every gene has been moved.
    fn mutate(&self, rng: &mut ChaCha8Rng, child: &mut Chromosome<G>)
        ensures
            exists|states: Seq<ChaCha8Rng>|
                #![trigger states[0]]
                {
                    &&& states.len() == old(child)@.len() + 1
                    &&& states[0] == *old(rng)
                    &&& states[old(child)@.len() as int] == *final(rng)
                    &&& forall|i: int|
                        0 <= i < old(child)@.len() ==> {
                    ||| {
                        &&& #[trigger] final(child)@[i] == old(child)@[i]
                        &&& exists|touch: &mut ChaCha8Rng|
                            {
                                &&& *touch == states[i]
                                &&& #[trigger] draws_flag(
                                    touch,
                                    self.chance().0,
                                    self.chance().1,
                                    false,
                                )
                                &&& *final(touch) == states[i + 1]
                            }
                    }
                    ||| exists|
                        touch: &mut ChaCha8Rng,
                        sign: &mut ChaCha8Rng,
                        step: &mut ChaCha8Rng,
                        negative: bool,
                    |
                        {
                            &&& *touch == states[i]
                            &&& #[trigger] draws_flag(
                                touch,
                                self.chance().0,
                                self.chance().1,
                                true,
                            )
                            &&& *sign == *final(touch)
                            &&& #[trigger] draws_flag(sign, 1, 2, negative)
                            &&& *step == *final(sign)
                            &&& #[trigger] call_ensures(
                                self.nudge(),
                                (step, old(child)@[i], self.coeff(), negative),
                                final(child)@[i],
                            )
                            &&& *final(step) == states[i + 1]
                        }
                }
                },
            forall|i: int|
                0 <= i < old(child)@.len() ==> #[trigger] final(child)@[i] == old(child)@[i]
                    || self.moves(old(child)@[i], final(child)@[i]),
            self.chance().0 == 0 ==> final(child)@ == old(child)@,
            self.chance().0 == self.chance().1 ==> forall|i: int|
                0 <= i < old(child)@.len() ==> self.moves(
                    old(child)@[i],
                    #[trigger] final(child)@[i],
                ),
    {
        proof {
            use_type_invariant(self);
        }
        let ghost before = child@;
        let ghost mut states: Seq<ChaCha8Rng> = seq![*rng];
        let genes = child.iter_mut();
        let mut i: usize = 0;
        while i < genes.len()
            invariant
                0 <= i <= genes@.len(),
                genes@.len() == before.len(),
                self.sound(),
                states.len() == i + 1,
                states[0] == *old(rng),
                states[i as int] == *rng,
                forall|k: int| i <= k < before.len() ==> genes@[k] == before[k],
                forall|k: int|
                    0 <= k < i ==> {
                    ||| {
                        &&& #[trigger] genes@[k] == before[k]
                        &&& exists|touch: &mut ChaCha8Rng|
                            {
                                &&& *touch == states[k]
                                &&& #[trigger] draws_flag(
                                    touch,
                                    self.chance().0,
                                    self.chance().1,
                                    false,
                                )
                                &&& *final(touch) == states[k + 1]
                            }
                    }
                    ||| exists|
                        touch: &mut ChaCha8Rng,
                        sign: &mut ChaCha8Rng,
                        step: &mut ChaCha8Rng,
                        negative: bool,
                    |
                        {
                            &&& *touch == states[k]
                            &&& #[trigger] draws_flag(
                                touch,
                                self.chance().0,
                                self.chance().1,
                                true,
                            )
                            &&& *sign == *final(touch)
                            &&& #[trigger] draws_flag(sign, 1, 2, negative)
                            &&& *step == *final(sign)
                            &&& #[trigger] call_ensures(
                                self.nudge(),
                                (step, before[k], self.coeff(), negative),
                                genes@[k],
                            )
                            &&& *final(step) == states[k + 1]
                        }
                },
                forall|k: int|
                    0 <= k < i ==> #[trigger] genes@[k] == before[k] || self.moves(
                        before[k],
                        genes@[k],
                    ),
                self.chance().0 == 0 ==> genes@ == before,
                self.chance().0 == self.chance().1 ==> forall|k: int|
                    0 <= k < i ==> self.moves(before[k], #[trigger] genes@[k]),
            decreases genes@.len() - i,
        {
            proof {
                assert(self.nudge() == self.nudge && self.coeff() == self.coeff);
                assert(self.chance() == (self.chance_numerator, self.chance_denominator));
            }
            let ghost earlier = genes@;
            let ghost states_before = states;
            let touched = ratio_draw(rng, self.chance_numerator, self.chance_denominator);
            proof {
                assert forall|draw: &mut ChaCha8Rng, n: u32, d: u32, flag: bool| #[trigger]
                    call_ensures(ratio_draw, (draw, n, d), flag) implies draws_flag(
                    draw,
                    n,
                    d,
                    flag,
                ) by {
                    lemma_flag_is_recorded(draw, n, d, flag);
                }
                assert(is_drawn_flag(self.chance().0, self.chance().1, touched));
            }
            if touched {
                let negative = ratio_draw(rng, 1, 2);
                proof {
                    assert forall|draw: &mut ChaCha8Rng, n: u32, d: u32, flag: bool| #[trigger]
                        call_ensures(ratio_draw, (draw, n, d), flag) implies draws_flag(
                        draw,
                        n,
                        d,
                        flag,
                    ) by {
                        lemma_flag_is_recorded(draw, n, d, flag);
                    }
                    assert(is_drawn_flag(1, 2, negative));
                }
                let moved = (self.nudge)(rng, genes[i], self.coeff, negative);
                assert(self.moves(before[i as int], moved));
                assert(exists|
                    touch: &mut ChaCha8Rng,
                    sign: &mut ChaCha8Rng,
                    step: &mut ChaCha8Rng,
                    negative: bool,
                |
                    {
                        &&& *touch == states_before[i as int]
                        &&& #[trigger] draws_flag(touch, self.chance().0, self.chance().1, true)
                        &&& *sign == *final(touch)
                        &&& #[trigger] draws_flag(sign, 1, 2, negative)
                        &&& *step == *final(sign)
                        &&& #[trigger] call_ensures(
                            self.nudge(),
                            (step, before[i as int], self.coeff(), negative),
                            moved,
                        )
                        &&& *final(step) == *rng
                    });
                genes[i] = moved;
            } else {
                assert(exists|touch: &mut ChaCha8Rng|
                    {
                        &&& *touch == states_before[i as int]
                        &&& #[trigger] draws_flag(touch, self.chance().0, self.chance().1, false)
                        &&& *final(touch) == *rng
                    });
            }
            proof {
                states = states.push(*rng);
            }
            i = i + 1;
            proof {
                assert forall|k: int| 0 <= k < i implies {
                    ||| {
                        &&& #[trigger] genes@[k] == before[k]
                        &&& exists|touch: &mut ChaCha8Rng|
                            {
                                &&& *touch == states[k]
                                &&& #[trigger] draws_flag(
                                    touch,
                                    self.chance().0,
                                    self.chance().1,
                                    false,
                                )
                                &&& *final(touch) == states[k + 1]
                            }
                    }
                    ||| exists|
                        touch: &mut ChaCha8Rng,
                        sign: &mut ChaCha8Rng,
                        step: &mut ChaCha8Rng,
                        negative: bool,
                    |
                        {
                            &&& *touch == states[k]
                            &&& #[trigger] draws_flag(
                                touch,
                                self.chance().0,
                                self.chance().1,
                                true,
                            )
                            &&& *sign == *final(touch)
                            &&& #[trigger] draws_flag(sign, 1, 2, negative)
                            &&& *step == *final(sign)
                            &&& #[trigger] call_ensures(
                                self.nudge(),
                                (step, before[k], self.coeff(), negative),
                                genes@[k],
                            )
                            &&& *final(step) == states[k + 1]
                        }
                } by {
                    if k < i - 1 {
                        assert(genes@[k] == earlier[k]);
                        assert(states[k] == states_before[k] && states[k + 1] == states_before[k
                            + 1]);
                    } else {
                        assert(states[k] == states_before[k] && states[k + 1] == *rng);
                    }
                }
            }
        }
    }
}

/// Where the step that moves a gene leaves every gene as it is, as it does
/// when the amount it adds is bounded by a coefficient of zero, mutation
/// leaves the genome as it was, whatever the chance.
pub proof fn lemma_idle_step_changes_nothing<G: Copy, N: Fn(&mut ChaCha8Rng, G, G, bool) -> G>(
    method: GaussianMutation<G, N>,
    before: Seq<G>,
    after: Seq<G>,
)
    requires
        after.len() == before.len(),
        forall|i: int|
            0 <= i < before.len() ==> #[trigger] after[i] == before[i] || method.moves(
                before[i],
                after[i],
            ),
        forall|gene: G, moved: G| #[trigger] method.moves(gene, moved) ==> moved == gene,
    ensures
        after == before,
{
    assert(after =~= before);
}

} // verus!
