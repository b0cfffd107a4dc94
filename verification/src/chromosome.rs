//! The genome container: an ordered sequence of genes.

use vstd::prelude::*;

verus! {

/// An ordered sequence of genes. Positions are meaningful: crossover and
/// mutation act position by position, and nothing here reorders genes.
#[derive(Clone, Debug)]
pub struct Chromosome<G> {
    genes: Vec<G>,
}

impl<G> Chromosome<G> {
    /// The genes, in order.
    pub closed spec fn view(&self) -> Seq<G> {
        self.genes@
    }

    /// Number of genes.
    pub fn len(&self) -> (n: usize)
        ensures
            n == self@.len(),
    {
        self.genes.len()
    }

    /// The genes for reading, in order.
    pub fn iter(&self) -> (genes: &[G])
        ensures
            genes@ == self@,
    {
        self.genes.as_slice()
    }

    /// The genes for writing, in order. Whatever is written through the
    /// returned slice is what the chromosome holds afterwards.
    pub fn iter_mut(&mut self) -> (genes: &mut [G])
        ensures
            genes@ == old(self)@,
            final(genes)@ == final(self)@,
    {
        self.genes.as_mut_slice()
    }

    /// The gene at `index`.
    pub fn index(&self, index: usize) -> (gene: &G)
        requires
            index < self@.len(),
        ensures
            *gene == self@[index as int],
    {
        &self.genes[index]
    }

    /// Builds a chromosome holding exactly `genes`, in the given order.
    pub fn from_iter(genes: Vec<G>) -> (chromosome: Self)
        ensures
            chromosome@ == genes@,
    {
        Chromosome { genes }
    }

    /// Gives the genes back, in order.
    pub fn into_iter(self) -> (genes: Vec<G>)
        ensures
            genes@ == self@,
    {
        self.genes
    }
}

} // verus!
