//! Inversion mutation of binary genotypes.

use vstd::prelude::*;
use crate::random::{draw_below, rng_from_seed};

verus! {

/// `genes` with every gene from `lo` to `hi` inverted.
pub open spec fn inverted(genes: Seq<bool>, lo: int, hi: int) -> Seq<bool> {
    Seq::new(
        genes.len(),
        |p: int|
            if lo <= p <= hi {
                !genes[p]
            } else {
                genes[p]
            },
    )
}

/// What inversion mutation may leave of `before`: its genes with one
/// stretch of them inverted.
pub open spec fn inversion_outcome(before: Seq<bool>, after: Seq<bool>) -> bool {
    exists|lo: int, hi: int|
        0 <= lo <= hi < before.len() && after == #[trigger] inverted(before, lo, hi)
}

/// Inverts every gene from `lo` to `hi`.
pub fn inversion_mutation_at(individual: &mut Vec<bool>, lo: usize, hi: usize)
    requires
        lo <= hi < old(individual)@.len(),
    ensures
        final(individual)@ == inverted(old(individual)@, lo as int, hi as int),
{
    let mut idx: usize = lo;
    while idx <= hi
        invariant
            lo <= idx <= hi + 1,
            hi < individual.len(),
            individual.len() == old(individual).len(),
            forall|p: int| lo <= p < idx ==> individual[p] == !old(individual)[p],
            forall|p: int|
                0 <= p < individual.len() && !(lo <= p < idx) ==> individual[p] == old(
                    individual,
                )[p],
        decreases hi + 1 - idx,
    {
        let gene = individual[idx];
        individual.set(idx, !gene);
        idx += 1;
    }
    assert(individual@ =~= inverted(old(individual)@, lo as int, hi as int));
}

/// Inversion mutation: draws two positions at random, from a generator
/// seeded with `seed`, or from the system's entropy where `seed` is
/// `None`, and inverts every gene from the lower one to the higher one.
/// The individual is not empty.
pub fn inversion_mutation(individual: &mut Vec<bool>, seed: Option<u64>)
    requires
        old(individual)@.len() > 0,
    ensures
        inversion_outcome(old(individual)@, final(individual)@),
{
    let mut rng = rng_from_seed(seed);
    let n = individual.len();
    let first = draw_below(&mut rng, n);
    let second = draw_below(&mut rng, n);
    if second < first {
        inversion_mutation_at(individual, second, first);
    } else {
        inversion_mutation_at(individual, first, second);
    }
}

} // verus!
