//! Uniform partially mapped crossover: partially mapped crossover in which
//! every position of the segment has a decision of its own on whether the
//! step there is taken.

use vstd::prelude::*;
use crate::permutation::{is_permutation, is_position_index, position_index};
use crate::crossover::{CrossoverError, rejection, check_parents, valid_cut_points};
use crate::random::{draw_cut_points, rng_from_seed};
use crate::crossover::partially_mapped::{
    exchange_at, exchange_values, lemma_pmx_step, pmx_children, pmx_step,
};

verus! {

/// Whether the step at the `t`-th position of the segment is taken: a
/// position that `swaps` has no entry for is left alone.
pub open spec fn swap_decided(swaps: Seq<bool>, t: int) -> bool {
    0 <= t < swaps.len() && swaps[t]
}

/// The children of uniform partially mapped crossover over the segment
/// `i..=j`: the parents after the steps at those of the positions `i`,
/// `i + 1`, up to `j`, in this order, that `swaps` decides for.
pub open spec fn upmx_children(
    parent1: Seq<usize>,
    parent2: Seq<usize>,
    i: int,
    j: int,
    swaps: Seq<bool>,
) -> (Seq<usize>, Seq<usize>)
    decreases j + 1 - i,
{
    if j < i {
        (parent1, parent2)
    } else {
        let before = upmx_children(parent1, parent2, i, j - 1, swaps);
        if swap_decided(swaps, j - i) {
            pmx_step(before, j)
        } else {
            before
        }
    }
}

/// Both children of uniform partially mapped crossover are permutations of
/// the parents' length.
pub proof fn lemma_upmx_children(
    parent1: Seq<usize>,
    parent2: Seq<usize>,
    i: int,
    j: int,
    swaps: Seq<bool>,
)
    requires
        is_permutation(parent1),
        is_permutation(parent2),
        parent1.len() == parent2.len(),
        0 <= i,
        j < parent1.len(),
    ensures
        is_permutation(upmx_children(parent1, parent2, i, j, swaps).0),
        is_permutation(upmx_children(parent1, parent2, i, j, swaps).1),
        upmx_children(parent1, parent2, i, j, swaps).0.len() == parent1.len(),
        upmx_children(parent1, parent2, i, j, swaps).1.len() == parent1.len(),
    decreases j + 1 - i,
{
    if j >= i {
        lemma_upmx_children(parent1, parent2, i, j - 1, swaps);
        if swap_decided(swaps, j - i) {
            lemma_pmx_step(upmx_children(parent1, parent2, i, j - 1, swaps), j);
        }
    }
}

/// Two equal permutations come out of uniform partially mapped crossover
/// as they went in, whatever is decided.
pub proof fn lemma_upmx_children_of_equal_parents(
    parent: Seq<usize>,
    i: int,
    j: int,
    swaps: Seq<bool>,
)
    ensures
        upmx_children(parent, parent, i, j, swaps) == (parent, parent),
    decreases j + 1 - i,
{
    if j >= i {
        lemma_upmx_children_of_equal_parents(parent, i, j - 1, swaps);
        assert(exchange_values(parent, parent[j], parent[j]) =~= parent);
    }
}

/// Where no step is decided for, the children are the parents.
pub proof fn lemma_upmx_no_swap(
    parent1: Seq<usize>,
    parent2: Seq<usize>,
    i: int,
    j: int,
    swaps: Seq<bool>,
)
    requires
        forall|t: int| 0 <= t <= j - i ==> !swap_decided(swaps, t),
    ensures
        upmx_children(parent1, parent2, i, j, swaps) == (parent1, parent2),
    decreases j + 1 - i,
{
    if j >= i {
        lemma_upmx_no_swap(parent1, parent2, i, j - 1, swaps);
        assert(!swap_decided(swaps, j - i));
    }
}

/// Where every step is decided for, the children are those of partially
/// mapped crossover.
pub proof fn lemma_upmx_every_swap(
    parent1: Seq<usize>,
    parent2: Seq<usize>,
    i: int,
    j: int,
    swaps: Seq<bool>,
)
    requires
        forall|t: int| 0 <= t <= j - i ==> swap_decided(swaps, t),
    ensures
        upmx_children(parent1, parent2, i, j, swaps) == pmx_children(parent1, parent2, i, j),
    decreases j + 1 - i,
{
    if j >= i {
        lemma_upmx_every_swap(parent1, parent2, i, j - 1, swaps);
        assert(swap_decided(swaps, j - i));
    }
}

/// Uniform partially mapped crossover at the cut points `(i, j)`, with the
/// decisions given: `swaps[t]` says whether the step at position `i + t`
/// is taken, and a position without an entry is left alone.
///
/// A pair of parents that differs in length, or that holds a sequence that
/// is no permutation of `0..n`, is rejected. Both children of any other
/// pair are permutations.
pub fn uniform_partially_mapped_crossover_at(
    parent1: &Vec<usize>,
    parent2: &Vec<usize>,
    i: usize,
    j: usize,
    swaps: &Vec<bool>,
) -> (r: Result<(Vec<usize>, Vec<usize>), CrossoverError>)
    requires
        valid_cut_points(parent1@.len(), i as int, j as int),
    ensures
        match rejection(parent1@, parent2@) {
            Some(e) => r == Err::<(Vec<usize>, Vec<usize>), CrossoverError>(e),
            None => r matches Ok(children) && {
                &&& (children.0@, children.1@) == upmx_children(
                    parent1@,
                    parent2@,
                    i as int,
                    j as int,
                    swaps@,
                )
                &&& is_permutation(children.0@)
                &&& is_permutation(children.1@)
                &&& children.0@.len() == parent1@.len()
                &&& children.1@.len() == parent1@.len()
                &&& parent1@ == parent2@ ==> children.0@ == parent1@ && children.1@ == parent1@
            },
        },
{
    match check_parents(parent1, parent2) {
        Err(e) => Err(e),
        Ok(()) => {
            let n = parent1.len();
            let mut index1 = position_index(parent1);
            let mut index2 = position_index(parent2);
            let mut child1 = parent1.clone();
            let mut child2 = parent2.clone();
            let mut k: usize = i;
            while k <= j
                invariant
                    i <= k <= j + 1,
                    j < n,
                    n == parent1.len(),
                    child1.len() == n,
                    child2.len() == n,
                    is_permutation(child1@),
                    is_permutation(child2@),
                    is_position_index(index1@, child1@),
                    is_position_index(index2@, child2@),
                    (child1@, child2@) == upmx_children(
                        parent1@,
                        parent2@,
                        i as int,
                        k - 1,
                        swaps@,
                    ),
                decreases j + 1 - k,
            {
                if k - i < swaps.len() && swaps[k - i] {
                    exchange_at(&mut child1, &mut child2, &mut index1, &mut index2, k);
                }
                k += 1;
            }
            proof {
                if parent1@ == parent2@ {
                    lemma_upmx_children_of_equal_parents(parent1@, i as int, j as int, swaps@);
                }
            }
            Ok((child1, child2))
        },
    }
}

/// What uniform partially mapped crossover may hand back for two
/// permutations of length `n` and the decisions given: the children that
/// belong to one pair of cut points, which are distinct where there are
/// two positions to pick from.
pub open spec fn upmx_outcome(
    parent1: Seq<usize>,
    parent2: Seq<usize>,
    swaps: Seq<bool>,
    child1: Seq<usize>,
    child2: Seq<usize>,
) -> bool {
    exists|i: int, j: int|
        {
            &&& #[trigger] valid_cut_points(parent1.len(), i, j)
            &&& parent1.len() >= 2 ==> i < j
            &&& (child1, child2) == upmx_children(parent1, parent2, i, j, swaps)
        }
}

/// Uniform partially mapped crossover at cut points drawn at random: two
/// distinct positions, from a generator seeded with `seed`, or from the
/// system's entropy where `seed` is `None`. The decisions are given:
/// `swaps[t]` says whether the step at the `t`-th position of the segment
/// is taken, and a position without an entry is left alone.
///
/// A pair of parents that differs in length, or that holds a sequence that
/// is no permutation of `0..n`, is rejected before anything is drawn. The
/// children of any other pair are those of
/// `uniform_partially_mapped_crossover_at` at the cut points drawn; with a
/// single position both cut points are that position, and two empty
/// parents have empty children.
pub fn uniform_partially_mapped_crossover(
    parent1: &Vec<usize>,
    parent2: &Vec<usize>,
    swaps: &Vec<bool>,
    seed: Option<u64>,
) -> (r: Result<(Vec<usize>, Vec<usize>), CrossoverError>)
    ensures
        match rejection(parent1@, parent2@) {
            Some(e) => r == Err::<(Vec<usize>, Vec<usize>), CrossoverError>(e),
            None => r matches Ok(children) && {
                &&& is_permutation(children.0@)
                &&& is_permutation(children.1@)
                &&& children.0@.len() == parent1@.len()
                &&& children.1@.len() == parent1@.len()
                &&& parent1@.len() > 0 ==> upmx_outcome(
                    parent1@,
                    parent2@,
                    swaps@,
                    children.0@,
                    children.1@,
                )
                &&& parent1@ == parent2@ ==> children.0@ == parent1@ && children.1@ == parent1@
            },
        },
{
    match check_parents(parent1, parent2) {
        Err(e) => Err(e),
        Ok(()) => {
            let mut rng = rng_from_seed(seed);
            match draw_cut_points(&mut rng, parent1.len()) {
                None => {
                    let child1: Vec<usize> = Vec::new();
                    let child2: Vec<usize> = Vec::new();
                    assert(child1@ =~= parent1@ && child2@ =~= parent1@);
                    Ok((child1, child2))
                },
                Some((i, j)) => {
                    let r = uniform_partially_mapped_crossover_at(parent1, parent2, i, j, swaps);
                    assert(valid_cut_points(parent1@.len(), i as int, j as int));
                    r
                },
            }
        },
    }
}

} // verus!
