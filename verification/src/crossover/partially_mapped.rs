//! Partially mapped crossover: at every position of a segment the two
//! children trade the values they hold there, and each child moves the
//! value it gives away to the place where it held the value it receives.

use vstd::prelude::*;
use crate::permutation::{
    is_permutation, is_position_index, lemma_index_of_position, lemma_permutation_contains,
    lemma_position_index_inverse, position_index,
};
use crate::crossover::{CrossoverError, rejection, check_parents, valid_cut_points};
use crate::random::{draw_cut_points, rng_from_seed};

verus! {

/// The transposition of the values `a` and `b`.
pub open spec fn transposition(a: usize, b: usize) -> spec_fn(usize) -> usize {
    |v: usize|
        if v == a {
            b
        } else if v == b {
            a
        } else {
            v
        }
}

/// `s` with the values `a` and `b` trading places.
pub open spec fn exchange_values(s: Seq<usize>, a: usize, b: usize) -> Seq<usize> {
    s.map_values(transposition(a, b))
}

/// One step of the exchange: the values that the two sequences hold at
/// position `k` trade places in both of them.
pub open spec fn pmx_step(children: (Seq<usize>, Seq<usize>), k: int) -> (Seq<usize>, Seq<usize>) {
    let a = children.0[k];
    let b = children.1[k];
    (exchange_values(children.0, a, b), exchange_values(children.1, a, b))
}

/// The children of partially mapped crossover over the segment `i..=j`:
/// the parents after the steps at `i`, `i + 1`, up to `j`, in this order.
pub open spec fn pmx_children(parent1: Seq<usize>, parent2: Seq<usize>, i: int, j: int) -> (
    Seq<usize>,
    Seq<usize>,
)
    decreases j + 1 - i,
{
    if j < i {
        (parent1, parent2)
    } else {
        pmx_step(pmx_children(parent1, parent2, i, j - 1), j)
    }
}

/// A sequence keeps its length under an exchange of values; a permutation
/// stays one, and the exchange touches just the two positions that hold
/// the values.
pub proof fn lemma_exchange_values(s: Seq<usize>, a: usize, b: usize)
    requires
        is_permutation(s),
        a < s.len(),
        b < s.len(),
    ensures
        exchange_values(s, a, b).len() == s.len(),
        is_permutation(exchange_values(s, a, b)),
        exchange_values(s, a, b) == s.update(s.index_of(a), b).update(s.index_of(b), a),
        exchange_values(exchange_values(s, a, b), a, b) == s,
        exchange_values(s, a, b) == exchange_values(s, b, a),
{
    let f = transposition(a, b);
    let e = exchange_values(s, a, b);
    lemma_permutation_contains(s, a);
    lemma_permutation_contains(s, b);
    let pa = s.index_of(a);
    let pb = s.index_of(b);
    assert forall|p: int| 0 <= p < s.len() implies #[trigger] e[p] == f(s[p]) by {}
    assert forall|p: int, q: int| 0 <= p < q < e.len() implies e[p] != e[q] by {
        assert(s[p] != s[q]);
    }
    assert(e =~= s.update(pa, b).update(pb, a)) by {
        assert forall|p: int| 0 <= p < s.len() implies e[p] == s.update(pa, b).update(pb, a)[p] by {
            lemma_index_of_position(s, p);
        }
    }
    assert(exchange_values(e, a, b) =~= s);
    assert(e =~= exchange_values(s, b, a));
}

/// One step keeps two permutations of equal length what they are, and
/// leaves at position `k` the values traded.
pub proof fn lemma_pmx_step(children: (Seq<usize>, Seq<usize>), k: int)
    requires
        is_permutation(children.0),
        is_permutation(children.1),
        children.0.len() == children.1.len(),
        0 <= k < children.0.len(),
    ensures
        is_permutation(pmx_step(children, k).0),
        is_permutation(pmx_step(children, k).1),
        pmx_step(children, k).0.len() == children.0.len(),
        pmx_step(children, k).1.len() == children.0.len(),
        pmx_step(children, k).0[k] == children.1[k],
        pmx_step(children, k).1[k] == children.0[k],
{
    lemma_exchange_values(children.0, children.0[k], children.1[k]);
    lemma_exchange_values(children.1, children.0[k], children.1[k]);
}

/// Both children of partially mapped crossover are permutations of the
/// parents' length.
pub proof fn lemma_pmx_children(parent1: Seq<usize>, parent2: Seq<usize>, i: int, j: int)
    requires
        is_permutation(parent1),
        is_permutation(parent2),
        parent1.len() == parent2.len(),
        0 <= i,
        j < parent1.len(),
    ensures
        is_permutation(pmx_children(parent1, parent2, i, j).0),
        is_permutation(pmx_children(parent1, parent2, i, j).1),
        pmx_children(parent1, parent2, i, j).0.len() == parent1.len(),
        pmx_children(parent1, parent2, i, j).1.len() == parent1.len(),
    decreases j + 1 - i,
{
    if j >= i {
        lemma_pmx_children(parent1, parent2, i, j - 1);
        lemma_pmx_step(pmx_children(parent1, parent2, i, j - 1), j);
    }
}

/// Two equal permutations come out of partially mapped crossover as they
/// went in.
pub proof fn lemma_pmx_children_of_equal_parents(parent: Seq<usize>, i: int, j: int)
    ensures
        pmx_children(parent, parent, i, j) == (parent, parent),
    decreases j + 1 - i,
{
    if j >= i {
        lemma_pmx_children_of_equal_parents(parent, i, j - 1);
        assert(exchange_values(parent, parent[j], parent[j]) =~= parent);
    }
}

/// A step is its own inverse: taken twice at one position, it leaves both
/// sequences as they were.
pub proof fn lemma_pmx_step_twice(children: (Seq<usize>, Seq<usize>), k: int)
    requires
        0 <= k < children.0.len(),
        0 <= k < children.1.len(),
    ensures
        pmx_step(pmx_step(children, k), k) == children,
{
    let once = pmx_step(children, k);
    let twice = pmx_step(once, k);
    assert(once.0[k] == children.1[k] && once.1[k] == children.0[k]);
    assert(twice.0 =~= children.0);
    assert(twice.1 =~= children.1);
}

/// The two parents play the same role: with the parents swapped, the
/// children come out swapped.
pub proof fn lemma_pmx_children_swapped(parent1: Seq<usize>, parent2: Seq<usize>, i: int, j: int)
    ensures
        pmx_children(parent2, parent1, i, j) == (
            pmx_children(parent1, parent2, i, j).1,
            pmx_children(parent1, parent2, i, j).0,
        ),
    decreases j + 1 - i,
{
    if j >= i {
        lemma_pmx_children_swapped(parent1, parent2, i, j - 1);
        let before = pmx_children(parent1, parent2, i, j - 1);
        let a = before.0[j];
        let b = before.1[j];
        assert(exchange_values(before.0, a, b) =~= exchange_values(before.0, b, a));
        assert(exchange_values(before.1, a, b) =~= exchange_values(before.1, b, a));
    }
}

/// The pairs of values that the parents hold at two positions of the
/// segment are the same pair or have no value in common, whichever two
/// positions are taken.
pub open spec fn exchanges_commute(
    parent1: Seq<usize>,
    parent2: Seq<usize>,
    i: int,
    j: int,
) -> bool {
    forall|k: int, l: int|
        i <= k <= j && i <= l <= j && k != l ==> (parent1[k] == parent2[l] <==> parent2[k]
            == parent1[l])
}

/// At position `l`, `children` hold the pair of values that the parents
/// hold there, in this order or the other.
pub open spec fn pair_kept(
    children: (Seq<usize>, Seq<usize>),
    parent1: Seq<usize>,
    parent2: Seq<usize>,
    l: int,
) -> bool {
    ||| children.0[l] == parent1[l] && children.1[l] == parent2[l]
    ||| children.0[l] == parent2[l] && children.1[l] == parent1[l]
}

/// At every position of the segment, `children` hold the pair of values
/// that the parents hold there.
pub open spec fn pairs_kept(
    children: (Seq<usize>, Seq<usize>),
    parent1: Seq<usize>,
    parent2: Seq<usize>,
    i: int,
    j: int,
) -> bool {
    &&& children.0.len() == parent1.len()
    &&& children.1.len() == parent1.len()
    &&& forall|l: int| i <= l <= j ==> #[trigger] pair_kept(children, parent1, parent2, l)
}

/// Where the exchanges commute, a step inside the segment leaves every
/// pair of the segment in place.
proof fn lemma_step_keeps_pairs(
    children: (Seq<usize>, Seq<usize>),
    parent1: Seq<usize>,
    parent2: Seq<usize>,
    i: int,
    j: int,
    k: int,
)
    requires
        is_permutation(parent1),
        is_permutation(parent2),
        parent1.len() == parent2.len(),
        0 <= i <= k <= j < parent1.len(),
        exchanges_commute(parent1, parent2, i, j),
        pairs_kept(children, parent1, parent2, i, j),
    ensures
        pairs_kept(pmx_step(children, k), parent1, parent2, i, j),
{
    let after = pmx_step(children, k);
    assert(after.0.len() == children.0.len());
    assert(after.1.len() == children.1.len());
    assert(pair_kept(children, parent1, parent2, k));
    assert forall|l: int| i <= l <= j implies #[trigger] pair_kept(after, parent1, parent2, l) by {
        assert(pair_kept(children, parent1, parent2, l));
        if l != k {
            assert(parent1[k] == parent2[l] <==> parent2[k] == parent1[l]);
            if l < k {
                assert(parent1[l] != parent1[k]);
                assert(parent2[l] != parent2[k]);
            } else {
                assert(parent1[k] != parent1[l]);
                assert(parent2[k] != parent2[l]);
            }
        }
    }
}

/// Where the exchanges commute, the steps at two positions of the segment
/// can be taken in either order.
proof fn lemma_steps_commute(
    children: (Seq<usize>, Seq<usize>),
    parent1: Seq<usize>,
    parent2: Seq<usize>,
    i: int,
    j: int,
    k: int,
    l: int,
)
    requires
        is_permutation(parent1),
        is_permutation(parent2),
        parent1.len() == parent2.len(),
        0 <= i <= k <= j < parent1.len(),
        i <= l <= j,
        k != l,
        exchanges_commute(parent1, parent2, i, j),
        pairs_kept(children, parent1, parent2, i, j),
    ensures
        pmx_step(pmx_step(children, k), l) == pmx_step(pmx_step(children, l), k),
{
    let after_k = pmx_step(children, k);
    let after_l = pmx_step(children, l);
    lemma_step_keeps_pairs(children, parent1, parent2, i, j, k);
    lemma_step_keeps_pairs(children, parent1, parent2, i, j, l);
    assert(pair_kept(children, parent1, parent2, k));
    assert(pair_kept(children, parent1, parent2, l));
    assert(pair_kept(after_k, parent1, parent2, l));
    assert(pair_kept(after_l, parent1, parent2, k));
    assert(parent1[k] == parent2[l] <==> parent2[k] == parent1[l]);
    if k < l {
        assert(parent1[k] != parent1[l]);
        assert(parent2[k] != parent2[l]);
    } else {
        assert(parent1[l] != parent1[k]);
        assert(parent2[l] != parent2[k]);
    }
    assert(pmx_step(after_k, l).0 =~= pmx_step(after_l, k).0);
    assert(pmx_step(after_k, l).1 =~= pmx_step(after_l, k).1);
}

/// Where the exchanges commute, the steps up to `t` leave every pair of
/// the segment in place.
proof fn lemma_steps_keep_pairs(
    children: (Seq<usize>, Seq<usize>),
    parent1: Seq<usize>,
    parent2: Seq<usize>,
    i: int,
    j: int,
    t: int,
)
    requires
        is_permutation(parent1),
        is_permutation(parent2),
        parent1.len() == parent2.len(),
        0 <= i <= j < parent1.len(),
        t <= j,
        exchanges_commute(parent1, parent2, i, j),
        pairs_kept(children, parent1, parent2, i, j),
    ensures
        pairs_kept(pmx_children(children.0, children.1, i, t), parent1, parent2, i, j),
    decreases t + 1 - i,
{
    if t >= i {
        lemma_steps_keep_pairs(children, parent1, parent2, i, j, t - 1);
        lemma_step_keeps_pairs(
            pmx_children(children.0, children.1, i, t - 1),
            parent1,
            parent2,
            i,
            j,
            t,
        );
    }
}

/// Where the exchanges commute, a step at `k` can be taken before the
/// steps up to `t` or behind them, for `t` before `k`.
proof fn lemma_step_moves_behind(
    children: (Seq<usize>, Seq<usize>),
    parent1: Seq<usize>,
    parent2: Seq<usize>,
    i: int,
    j: int,
    k: int,
    t: int,
)
    requires
        is_permutation(parent1),
        is_permutation(parent2),
        parent1.len() == parent2.len(),
        0 <= i <= k <= j < parent1.len(),
        t < k,
        exchanges_commute(parent1, parent2, i, j),
        pairs_kept(children, parent1, parent2, i, j),
    ensures
        ({
            let stepped = pmx_step(children, k);
            pmx_children(stepped.0, stepped.1, i, t) == pmx_step(
                pmx_children(children.0, children.1, i, t),
                k,
            )
        }),
    decreases t + 1 - i,
{
    if t >= i {
        let stepped = pmx_step(children, k);
        let before = pmx_children(children.0, children.1, i, t - 1);
        lemma_step_moves_behind(children, parent1, parent2, i, j, k, t - 1);
        lemma_steps_keep_pairs(children, parent1, parent2, i, j, t - 1);
        lemma_steps_commute(before, parent1, parent2, i, j, k, t);
    }
}

/// Round trip: where the pairs of values that the parents hold at two
/// positions of the segment are the same pair or have no value in common,
/// partially mapped crossover applied to its own children at the same cut
/// points gives the parents back, and applied to the children in the other
/// order it gives the parents back in the other order. A segment of a
/// single position always is of this kind.
pub proof fn lemma_pmx_round_trip(parent1: Seq<usize>, parent2: Seq<usize>, i: int, j: int)
    requires
        is_permutation(parent1),
        is_permutation(parent2),
        parent1.len() == parent2.len(),
        0 <= i,
        j < parent1.len(),
        exchanges_commute(parent1, parent2, i, j),
    ensures
        ({
            let children = pmx_children(parent1, parent2, i, j);
            &&& pmx_children(children.0, children.1, i, j) == (parent1, parent2)
            &&& pmx_children(children.1, children.0, i, j) == (parent2, parent1)
        }),
    decreases j + 1 - i,
{
    let children = pmx_children(parent1, parent2, i, j);
    lemma_pmx_children(parent1, parent2, i, j);
    lemma_pmx_children_swapped(children.0, children.1, i, j);
    if j >= i {
        let parents = (parent1, parent2);
        let before = pmx_children(parent1, parent2, i, j - 1);
        assert(pairs_kept(parents, parent1, parent2, i, j));
        assert(exchanges_commute(parent1, parent2, i, j - 1));
        lemma_pmx_round_trip(parent1, parent2, i, j - 1);
        lemma_steps_keep_pairs(parents, parent1, parent2, i, j, j - 1);
        lemma_step_moves_behind(before, parent1, parent2, i, j, j, j - 1);
        lemma_pmx_step_twice(parents, j);
    }
}

/// What partially mapped crossover may hand back for two permutations of
/// length `n`: the children that belong to one pair of cut points, which
/// are distinct where there are two positions to pick from.
pub open spec fn pmx_outcome(
    parent1: Seq<usize>,
    parent2: Seq<usize>,
    child1: Seq<usize>,
    child2: Seq<usize>,
) -> bool {
    exists|i: int, j: int|
        {
            &&& #[trigger] valid_cut_points(parent1.len(), i, j)
            &&& parent1.len() >= 2 ==> i < j
            &&& (child1, child2) == pmx_children(parent1, parent2, i, j)
        }
}

/// Performs one step of the exchange at position `k`, and keeps both
/// position indexes in line with their children.
pub(crate) fn exchange_at(
    child1: &mut Vec<usize>,
    child2: &mut Vec<usize>,
    index1: &mut Vec<usize>,
    index2: &mut Vec<usize>,
    k: usize,
)
    requires
        is_permutation(old(child1)@),
        is_permutation(old(child2)@),
        old(child1)@.len() == old(child2)@.len(),
        k < old(child1)@.len(),
        is_position_index(old(index1)@, old(child1)@),
        is_position_index(old(index2)@, old(child2)@),
    ensures
        (final(child1)@, final(child2)@) == pmx_step((old(child1)@, old(child2)@), k as int),
        is_permutation(final(child1)@),
        is_permutation(final(child2)@),
        final(child1)@.len() == old(child1)@.len(),
        final(child2)@.len() == old(child1)@.len(),
        is_position_index(final(index1)@, final(child1)@),
        is_position_index(final(index2)@, final(child2)@),
{
    let value1 = child1[k];
    let value2 = child2[k];
    proof {
        lemma_position_index_inverse(index1@, child1@);
        lemma_position_index_inverse(index2@, child2@);
        lemma_exchange_values(child1@, value1, value2);
        lemma_exchange_values(child2@, value1, value2);
        lemma_index_of_position(child1@, k as int);
        lemma_index_of_position(child2@, k as int);
        lemma_permutation_contains(child1@, value2);
        lemma_permutation_contains(child2@, value1);
        assert(index1[value2 as int] == child1@.index_of(value2));
        assert(index2[value1 as int] == child2@.index_of(value1));
    }
    let held1 = index1[value2];
    let held2 = index2[value1];
    child1.set(k, value2);
    child1.set(held1, value1);
    child2.set(k, value1);
    child2.set(held2, value2);
    index1.set(value1, held1);
    index1.set(value2, k);
    index2.set(value1, k);
    index2.set(value2, held2);
    proof {
        assert(child1@ =~= exchange_values(old(child1)@, value1, value2));
        assert(child2@ =~= exchange_values(old(child2)@, value1, value2));
        assert forall|p: int| 0 <= p < child1@.len() implies index1[(#[trigger] child1[p]) as int]
            == p by {
            assert(old(index1)[old(child1)[p] as int] == p);
        }
        assert forall|p: int| 0 <= p < child2@.len() implies index2[(#[trigger] child2[p]) as int]
            == p by {
            assert(old(index2)[old(child2)[p] as int] == p);
        }
    }
}

/// Partially mapped crossover at the cut points `(i, j)`.
///
/// A pair of parents that differs in length, or that holds a sequence that
/// is no permutation of `0..n`, is rejected. Any other pair goes through
/// the steps at `i`, `i + 1`, up to `j`; both children are permutations.
pub fn partially_mapped_crossover_at(
    parent1: &Vec<usize>,
    parent2: &Vec<usize>,
    i: usize,
    j: usize,
) -> (r: Result<(Vec<usize>, Vec<usize>), CrossoverError>)
    requires
        valid_cut_points(parent1@.len(), i as int, j as int),
    ensures
        match rejection(parent1@, parent2@) {
            Some(e) => r == Err::<(Vec<usize>, Vec<usize>), CrossoverError>(e),
            None => r matches Ok(children) && {
                &&& (children.0@, children.1@) == pmx_children(
                    parent1@,
                    parent2@,
                    i as int,
                    j as int,
                )
                &&& is_permutation(children.0@)
                &&& is_permutation(children.1@)
                &&& children.0@.len() == parent1@.len()
                &&& children.1@.len() == parent1@.len()
                &&& parent1@ == parent2@ ==> children.0@ == parent1@ && children.1@ == parent1@
            },
        },
{
    match check_parents(parent1, parent2) {
        Err(e) => Err(e),
        Ok(()) => {
            let n = parent1.len();
            let mut index1 = position_index(parent1);
            let mut index2 = position_index(parent2);
            let mut child1 = parent1.clone();
            let mut child2 = parent2.clone();
            let mut k: usize = i;
            while k <= j
                invariant
                    i <= k <= j + 1,
                    j < n,
                    n == parent1.len(),
                    child1.len() == n,
                    child2.len() == n,
                    is_permutation(child1@),
                    is_permutation(child2@),
                    is_position_index(index1@, child1@),
                    is_position_index(index2@, child2@),
                    (child1@, child2@) == pmx_children(parent1@, parent2@, i as int, k - 1),
                decreases j + 1 - k,
            {
                exchange_at(&mut child1, &mut child2, &mut index1, &mut index2, k);
                k += 1;
            }
            proof {
                if parent1@ == parent2@ {
                    lemma_pmx_children_of_equal_parents(parent1@, i as int, j as int);
                }
            }
            Ok((child1, child2))
        },
    }
}

/// Partially mapped crossover at cut points drawn at random: two distinct
/// positions, from a generator seeded with `seed`, or from the system's
/// entropy where `seed` is `None`.
///
/// A pair of parents that differs in length, or that holds a sequence that
/// is no permutation of `0..n`, is rejected before anything is drawn. The
/// children of any other pair are those of `partially_mapped_crossover_at`
/// at the cut points drawn; with a single position both cut points are
/// that position, and two empty parents have empty children.
pub fn partially_mapped_crossover(
    parent1: &Vec<usize>,
    parent2: &Vec<usize>,
    seed: Option<u64>,
) -> (r: Result<(Vec<usize>, Vec<usize>), CrossoverError>)
    ensures
        match rejection(parent1@, parent2@) {
            Some(e) => r == Err::<(Vec<usize>, Vec<usize>), CrossoverError>(e),
            None => r matches Ok(children) && {
                &&& is_permutation(children.0@)
                &&& is_permutation(children.1@)
                &&& children.0@.len() == parent1@.len()
                &&& children.1@.len() == parent1@.len()
                &&& parent1@.len() > 0 ==> pmx_outcome(
                    parent1@,
                    parent2@,
                    children.0@,
                    children.1@,
                )
                &&& parent1@ == parent2@ ==> children.0@ == parent1@ && children.1@ == parent1@
            },
        },
{
    match check_parents(parent1, parent2) {
        Err(e) => Err(e),
        Ok(()) => {
            let mut rng = rng_from_seed(seed);
            match draw_cut_points(&mut rng, parent1.len()) {
                None => {
                    let child1: Vec<usize> = Vec::new();
                    let child2: Vec<usize> = Vec::new();
                    assert(child1@ =~= parent1@ && child2@ =~= parent1@);
                    Ok((child1, child2))
                },
                Some((i, j)) => {
                    let r = partially_mapped_crossover_at(parent1, parent2, i, j);
                    assert(valid_cut_points(parent1@.len(), i as int, j as int));
                    r
                },
            }
        },
    }
}

} // verus!
