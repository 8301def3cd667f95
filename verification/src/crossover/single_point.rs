//! Single point crossover of binary genotypes: the children trade
//! everything from one point onwards.

use vstd::prelude::*;
use crate::random::{draw_below, rng_from_seed};

verus! {

/// The two children that trade their genes from `point` onwards.
pub open spec fn single_point_children(parent1: Seq<bool>, parent2: Seq<bool>, point: int) -> (
    Seq<bool>,
    Seq<bool>,
) {
    (
        parent1.subrange(0, point) + parent2.subrange(point, parent2.len() as int),
        parent2.subrange(0, point) + parent1.subrange(point, parent1.len() as int),
    )
}

/// What single point crossover may hand back: the children that belong to
/// one crossover point.
pub open spec fn single_point_outcome(
    parent1: Seq<bool>,
    parent2: Seq<bool>,
    children: (Seq<bool>, Seq<bool>),
) -> bool {
    exists|point: int|
        0 <= point < parent1.len() && children == #[trigger] single_point_children(
            parent1,
            parent2,
            point,
        )
}

/// Single point crossover at the point given: each child holds the genes
/// of its own parent before `point`, and those of the other parent from
/// there on.
pub fn single_point_crossover_at(
    parent1: &Vec<bool>,
    parent2: &Vec<bool>,
    point: usize,
) -> (children: (Vec<bool>, Vec<bool>))
    requires
        parent1@.len() == parent2@.len(),
        point <= parent1@.len(),
    ensures
        (children.0@, children.1@) == single_point_children(parent1@, parent2@, point as int),
{
    let n = parent1.len();
    let mut child1: Vec<bool> = Vec::with_capacity(n);
    let mut child2: Vec<bool> = Vec::with_capacity(n);
    let mut i: usize = 0;
    while i < n
        invariant
            i <= n,
            n == parent1.len(),
            n == parent2.len(),
            child1.len() == i,
            child2.len() == i,
            forall|p: int|
                0 <= p < i ==> #[trigger] child1[p] == (if p < point {
                    parent1[p]
                } else {
                    parent2[p]
                }),
            forall|p: int|
                0 <= p < i ==> #[trigger] child2[p] == (if p < point {
                    parent2[p]
                } else {
                    parent1[p]
                }),
        decreases n - i,
    {
        if i < point {
            child1.push(parent1[i]);
            child2.push(parent2[i]);
        } else {
            child1.push(parent2[i]);
            child2.push(parent1[i]);
        }
        i += 1;
    }
    proof {
        let expected = single_point_children(parent1@, parent2@, point as int);
        assert(child1@ =~= expected.0);
        assert(child2@ =~= expected.1);
    }
    (child1, child2)
}

/// Single point crossover at a point drawn at random among the positions,
/// from a generator seeded with `seed`, or from the system's entropy where
/// `seed` is `None`. The parents are of one length and not empty.
pub fn single_point_crossover(
    parent1: &Vec<bool>,
    parent2: &Vec<bool>,
    seed: Option<u64>,
) -> (children: (Vec<bool>, Vec<bool>))
    requires
        parent1@.len() == parent2@.len(),
        parent1@.len() > 0,
    ensures
        single_point_outcome(parent1@, parent2@, (children.0@, children.1@)),
{
    let mut rng = rng_from_seed(seed);
    let point = draw_below(&mut rng, parent1.len());
    single_point_crossover_at(parent1, parent2, point)
}

} // verus!
