//! Shuffle crossover of binary genotypes: both parents are shuffled in the
//! same way, crossed at a single point, and the children are put back in
//! order.

use vstd::prelude::*;
use crate::permutation::{
    is_permutation, lemma_permutation_contains, lemma_rearranged_positions, positions_up_to,
};
use crate::random::{rng_from_seed, shuffle_between};
use crate::crossover::single_point::{single_point_children, single_point_crossover};

verus! {

/// The children of shuffle crossover for the shuffled order `order` and
/// the crossover point `point`: each child holds the genes of its own
/// parent at the positions that stand before `point` in `order`, and those
/// of the other parent at the rest.
pub open spec fn shuffle_children(
    parent1: Seq<bool>,
    parent2: Seq<bool>,
    order: Seq<usize>,
    point: int,
) -> (Seq<bool>, Seq<bool>) {
    (
        Seq::new(
            parent1.len(),
            |q: int|
                if order.index_of(q as usize) < point {
                    parent1[q]
                } else {
                    parent2[q]
                },
        ),
        Seq::new(
            parent1.len(),
            |q: int|
                if order.index_of(q as usize) < point {
                    parent2[q]
                } else {
                    parent1[q]
                },
        ),
    )
}

/// What shuffle crossover may hand back: the children that belong to one
/// order of the positions and one crossover point.
pub open spec fn shuffle_outcome(
    parent1: Seq<bool>,
    parent2: Seq<bool>,
    children: (Seq<bool>, Seq<bool>),
) -> bool {
    exists|order: Seq<usize>, point: int|
        {
            &&& is_permutation(order)
            &&& order.len() == parent1.len()
            &&& 0 <= point < parent1.len()
            &&& children == #[trigger] shuffle_children(parent1, parent2, order, point)
        }
}

/// Reads `genes` in the order given.
fn in_order(genes: &Vec<bool>, order: &Vec<usize>) -> (shuffled: Vec<bool>)
    requires
        order@.len() == genes@.len(),
        is_permutation(order@),
    ensures
        shuffled@.len() == genes@.len(),
        forall|t: int| 0 <= t < shuffled@.len() ==> shuffled@[t] == genes@[order@[t] as int],
{
    let n = genes.len();
    let mut shuffled: Vec<bool> = Vec::with_capacity(n);
    let mut t: usize = 0;
    while t < n
        invariant
            t <= n,
            n == genes.len(),
            n == order.len(),
            is_permutation(order@),
            shuffled.len() == t,
            forall|a: int| 0 <= a < t ==> shuffled[a] == genes[order[a] as int],
        decreases n - t,
    {
        shuffled.push(genes[order[t]]);
        t += 1;
    }
    shuffled
}

/// Puts the genes that were read in the order given back in place.
fn back_in_place(shuffled: &Vec<bool>, order: &Vec<usize>) -> (genes: Vec<bool>)
    requires
        order@.len() == shuffled@.len(),
        is_permutation(order@),
    ensures
        genes@.len() == shuffled@.len(),
        forall|t: int| 0 <= t < shuffled@.len() ==> genes@[order@[t] as int] == shuffled@[t],
{
    let n = shuffled.len();
    let mut genes: Vec<bool> = vec![false; n];
    let mut t: usize = 0;
    while t < n
        invariant
            t <= n,
            n == shuffled.len(),
            n == order.len(),
            n == genes.len(),
            is_permutation(order@),
            forall|a: int| 0 <= a < t ==> genes[order[a] as int] == shuffled[a],
        decreases n - t,
    {
        genes.set(order[t], shuffled[t]);
        proof {
            assert forall|a: int| 0 <= a < t + 1 implies genes[order[a] as int] == shuffled[a] by {
                if a < t {
                    assert(order[a] != order[t as int]);
                }
            }
        }
        t += 1;
    }
    genes
}

/// Shuffle crossover: the positions are shuffled by a generator seeded
/// with `seed`, or from the system's entropy where `seed` is `None`; the
/// parents, read in that order, go through single point crossover with
/// the same `seed`; and the children are put back in place. The parents
/// are of one length and not empty.
pub fn shuffle_crossover(
    parent1: &Vec<bool>,
    parent2: &Vec<bool>,
    seed: Option<u64>,
) -> (children: (Vec<bool>, Vec<bool>))
    requires
        parent1@.len() == parent2@.len(),
        parent1@.len() > 0,
    ensures
        shuffle_outcome(parent1@, parent2@, (children.0@, children.1@)),
{
    let n = parent1.len();
    let mut rng = rng_from_seed(seed);
    let mut indices = positions_up_to(n);
    let ghost before = indices@;
    shuffle_between(&mut rng, &mut indices, 0, n - 1);
    proof {
        assert(indices@.subrange(0, n as int) =~= indices@);
        assert(before.subrange(0, n as int) =~= before);
        lemma_rearranged_positions(indices@, n as nat);
    }
    let shuffled_parent1 = in_order(parent1, &indices);
    let shuffled_parent2 = in_order(parent2, &indices);
    let shuffled_children = single_point_crossover(&shuffled_parent1, &shuffled_parent2, seed);
    let child1 = back_in_place(&shuffled_children.0, &indices);
    let child2 = back_in_place(&shuffled_children.1, &indices);
    proof {
        let order = indices@;
        let point = choose|point: int|
            0 <= point < n && (shuffled_children.0@, shuffled_children.1@)
                == #[trigger] single_point_children(shuffled_parent1@, shuffled_parent2@, point);
        let expected = shuffle_children(parent1@, parent2@, order, point);
        assert forall|q: int| 0 <= q < n implies child1@[q] == expected.0[q] && child2@[q]
            == expected.1[q] by {
            lemma_permutation_contains(order, q as usize);
            let t = order.index_of(q as usize);
            assert(child1@[order[t] as int] == shuffled_children.0@[t]);
            assert(child2@[order[t] as int] == shuffled_children.1@[t]);
        }
        assert(child1@ =~= expected.0);
        assert(child2@ =~= expected.1);
    }
    (child1, child2)
}

} // verus!
