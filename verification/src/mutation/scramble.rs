//! Scramble mutation of binary genotypes.

use vstd::prelude::*;
use crate::random::{draw_below, rng_from_seed, shuffle_between};

verus! {

/// `after` is `before` with the genes from `lo` to `hi` in another order:
/// the stretch holds each gene as often as before, and no gene outside it
/// has changed.
pub open spec fn scrambled(before: Seq<bool>, after: Seq<bool>, lo: int, hi: int) -> bool {
    &&& after.len() == before.len()
    &&& after.subrange(0, lo) == before.subrange(0, lo)
    &&& after.subrange(hi + 1, before.len() as int) == before.subrange(
        hi + 1,
        before.len() as int,
    )
    &&& after.subrange(lo, hi + 1).to_multiset() == before.subrange(lo, hi + 1).to_multiset()
}

/// What scramble mutation may leave of `before`: its genes with one
/// stretch of them in another order.
pub open spec fn scramble_outcome(before: Seq<bool>, after: Seq<bool>) -> bool {
    exists|lo: int, hi: int|
        0 <= lo <= hi < before.len() && #[trigger] scrambled(before, after, lo, hi)
}

/// Scramble mutation: draws two positions at random, from a generator
/// seeded with `seed`, or from the system's entropy where `seed` is
/// `None`, and shuffles the genes from the lower one to the higher one
/// with the same generator. The individual is not empty.
pub fn scramble_mutation(individual: &mut Vec<bool>, seed: Option<u64>)
    requires
        old(individual)@.len() > 0,
    ensures
        scramble_outcome(old(individual)@, final(individual)@),
{
    let mut rng = rng_from_seed(seed);
    let n = individual.len();
    let first = draw_below(&mut rng, n);
    let second = draw_below(&mut rng, n);
    let lo = if second < first { second } else { first };
    let hi = if second < first { first } else { second };
    shuffle_between(&mut rng, individual, lo, hi);
    assert(scrambled(old(individual)@, individual@, lo as int, hi as int));
}

} // verus!
