//! Swap mutation of vector encoded genotypes.

use vstd::prelude::*;
use crate::permutation::positions_up_to;
use crate::random::{picked_at, rng_from_seed, sample_items};

verus! {

/// `genes` with the genes at `a` and `b` trading places.
pub open spec fn swapped<T>(genes: Seq<T>, a: int, b: int) -> Seq<T> {
    genes.update(a, genes[b]).update(b, genes[a])
}

/// What swap mutation may leave of `before`: its genes with those at two
/// different positions trading places.
pub open spec fn swap_outcome<T>(before: Seq<T>, after: Seq<T>) -> bool {
    exists|a: int, b: int|
        0 <= a < before.len() && 0 <= b < before.len() && a != b && after == #[trigger] swapped(
            before,
            a,
            b,
        )
}

/// Lets the genes at `a` and `b` trade places.
pub fn swap_mutation_at<T: Copy>(individual: &mut Vec<T>, a: usize, b: usize)
    requires
        a < old(individual)@.len(),
        b < old(individual)@.len(),
    ensures
        final(individual)@ == swapped(old(individual)@, a as int, b as int),
{
    let first = individual[a];
    let second = individual[b];
    individual.set(a, second);
    individual.set(b, first);
}

/// Swap mutation: draws two different positions at random, from a
/// generator seeded with `seed`, or from the system's entropy where `seed`
/// is `None`, and lets the genes there trade places. An individual with
/// fewer than two genes is left as it is, and the error says why.
pub fn swap_mutation<T: Copy>(
    individual: &mut Vec<T>,
    seed: Option<u64>,
) -> (r: Result<(), &'static str>)
    ensures
        old(individual)@.len() < 2 ==> r is Err && final(individual)@ == old(individual)@,
        old(individual)@.len() >= 2 ==> r is Ok && swap_outcome(
            old(individual)@,
            final(individual)@,
        ),
        r matches Err(message) ==> message@ == "Need atleast two bits for swapping"@,
{
    let mut rng = rng_from_seed(seed);
    let n = individual.len();
    if n < 2 {
        return Err("Need atleast two bits for swapping");
    }
    let positions = positions_up_to(n);
    let picked = sample_items(&mut rng, &positions, 2);
    proof {
        let places = choose|places: Seq<int>| picked_at(positions@, picked@, places);
        assert(places[0] != places[1]);
        assert(picked@[0] == places[0] as usize);
        assert(picked@[1] == places[1] as usize);
    }
    swap_mutation_at(individual, picked[0], picked[1]);
    Ok(())
}

} // verus!
