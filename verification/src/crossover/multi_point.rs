//! Multi point crossover of binary genotypes: the children trade every
//! second stretch between the cut points.

use vstd::prelude::*;
use rand::rngs::StdRng;
use crate::permutation::{
    ascending_positions, lemma_filter_keeps_all, lemma_filter_keeps_none, positions_up_to,
};
use crate::random::{picked_at, rng_from_seed, sample_items};

verus! {

/// Holds of the cut points at or before position `p`.
pub open spec fn at_or_before(p: int) -> spec_fn(usize) -> bool {
    |cut: usize| cut <= p
}

/// The number of cut points at or before position `p`.
pub open spec fn cuts_passed(cuts: Seq<usize>, p: int) -> nat {
    cuts.filter(at_or_before(p)).len()
}

/// Whether the children trade the gene at position `p`: they do where the
/// number of cut points at or before `p` is odd, and behind the last cut
/// point where `k`, the number of cut points asked for, is odd.
pub open spec fn traded(cuts: Seq<usize>, k: usize, p: int) -> bool {
    let passed = cuts_passed(cuts, p);
    if passed == cuts.len() {
        k % 2 == 1
    } else {
        passed % 2 == 1
    }
}

/// The children of multi point crossover at the cut points `cuts`, of
/// which `k` were asked for.
pub open spec fn multi_point_children(
    parent1: Seq<bool>,
    parent2: Seq<bool>,
    cuts: Seq<usize>,
    k: usize,
) -> (Seq<bool>, Seq<bool>) {
    (
        Seq::new(
            parent1.len(),
            |p: int|
                if traded(cuts, k, p) {
                    parent2[p]
                } else {
                    parent1[p]
                },
        ),
        Seq::new(
            parent1.len(),
            |p: int|
                if traded(cuts, k, p) {
                    parent1[p]
                } else {
                    parent2[p]
                },
        ),
    )
}

/// Cut points in ascending order.
pub open spec fn ascending(cuts: Seq<usize>) -> bool {
    forall|a: int, b: int| 0 <= a <= b < cuts.len() ==> cuts[a] <= cuts[b]
}

/// What multi point crossover with `k` cut points may hand back: the
/// children that belong to `k` distinct positions as cut points, or to
/// all positions where there are fewer than `k`.
pub open spec fn multi_point_outcome(
    parent1: Seq<bool>,
    parent2: Seq<bool>,
    k: usize,
    children: (Seq<bool>, Seq<bool>),
) -> bool {
    exists|cuts: Seq<usize>|
        {
            &&& cuts.len() == (if k <= parent1.len() {
                k as nat
            } else {
                parent1.len()
            })
            &&& forall|a: int, b: int| 0 <= a < b < cuts.len() ==> cuts[a] < cuts[b]
            &&& forall|a: int| 0 <= a < cuts.len() ==> (#[trigger] cuts[a]) < parent1.len()
            &&& children == #[trigger] multi_point_children(parent1, parent2, cuts, k)
        }
}

/// In ascending cut points of which the first `t` are at or before `p` and
/// the others behind it, `t` are passed at `p`.
pub proof fn lemma_cuts_passed(cuts: Seq<usize>, p: int, t: int)
    requires
        0 <= t <= cuts.len(),
        forall|a: int| 0 <= a < t ==> (#[trigger] cuts[a]) <= p,
        forall|a: int| t <= a < cuts.len() ==> (#[trigger] cuts[a]) > p,
    ensures
        cuts_passed(cuts, p) == t,
{
    let pred = at_or_before(p);
    let before = cuts.take(t);
    let behind = cuts.skip(t);
    assert(cuts =~= before + behind);
    lemma_filter_keeps_all(before, pred);
    lemma_filter_keeps_none(behind, pred);
    Seq::filter_distributes_over_add(before, behind, pred);
}

/// Calls `sort` of the standard library, which puts the items in
/// ascending order and keeps each of them as often as it was there.
#[verifier::external_body]
fn sort_ascending(items: &mut Vec<usize>)
    ensures
        final(items)@.len() == old(items)@.len(),
        final(items)@.to_multiset() == old(items)@.to_multiset(),
        ascending(final(items)@),
{
    items.sort()
}

/// Multi point crossover at the cut points given, in ascending order:
/// from each cut point on, the children take their genes from the other
/// parent than before it. Behind the last cut point the first child takes
/// those of `parent1` where `k` is even and those of `parent2` where it
/// is odd.
pub fn multi_point_crossover_at(
    parent1: &Vec<bool>,
    parent2: &Vec<bool>,
    cuts: &Vec<usize>,
    k: usize,
) -> (children: (Vec<bool>, Vec<bool>))
    requires
        parent1@.len() == parent2@.len(),
        ascending(cuts@),
        forall|a: int| 0 <= a < cuts@.len() ==> (#[trigger] cuts@[a]) <= parent1@.len(),
    ensures
        (children.0@, children.1@) == multi_point_children(parent1@, parent2@, cuts@, k),
{
    let n = parent1.len();
    let ghost expected = multi_point_children(parent1@, parent2@, cuts@, k);
    let mut child1: Vec<bool> = Vec::with_capacity(n);
    let mut child2: Vec<bool> = Vec::with_capacity(n);
    let mut at: usize = 0;
    let mut t: usize = 0;
    while t < cuts.len()
        invariant
            t <= cuts.len(),
            at <= n,
            n == parent1.len(),
            n == parent2.len(),
            child1.len() == at,
            child2.len() == at,
            ascending(cuts@),
            forall|a: int| 0 <= a < cuts@.len() ==> (#[trigger] cuts@[a]) <= n,
            forall|a: int| 0 <= a < t ==> (#[trigger] cuts@[a]) <= at,
            expected == multi_point_children(parent1@, parent2@, cuts@, k),
            forall|p: int| 0 <= p < at ==> child1[p] == expected.0[p],
            forall|p: int| 0 <= p < at ==> child2[p] == expected.1[p],
        decreases cuts.len() - t,
    {
        let cut = cuts[t];
        while at < cut
            invariant
                t < cuts.len(),
                cut == cuts[t as int],
                cut <= n,
                at <= n,
                n == parent1.len(),
                n == parent2.len(),
                child1.len() == at,
                child2.len() == at,
                ascending(cuts@),
                forall|a: int| 0 <= a < t ==> (#[trigger] cuts@[a]) <= at,
                expected == multi_point_children(parent1@, parent2@, cuts@, k),
                forall|p: int| 0 <= p < at ==> child1[p] == expected.0[p],
                forall|p: int| 0 <= p < at ==> child2[p] == expected.1[p],
            decreases cut - at,
        {
            proof {
                assert forall|a: int| t <= a < cuts@.len() implies (#[trigger] cuts@[a]) > at by {
                    assert(cuts@[t as int] <= cuts@[a]);
                }
                lemma_cuts_passed(cuts@, at as int, t as int);
            }
            if t % 2 == 0 {
                child1.push(parent1[at]);
                child2.push(parent2[at]);
            } else {
                child1.push(parent2[at]);
                child2.push(parent1[at]);
            }
            at += 1;
        }
        t += 1;
    }
    while at < n
        invariant
            at <= n,
            n == parent1.len(),
            n == parent2.len(),
            child1.len() == at,
            child2.len() == at,
            forall|a: int| 0 <= a < cuts@.len() ==> (#[trigger] cuts@[a]) <= at,
            expected == multi_point_children(parent1@, parent2@, cuts@, k),
            forall|p: int| 0 <= p < at ==> child1[p] == expected.0[p],
            forall|p: int| 0 <= p < at ==> child2[p] == expected.1[p],
        decreases n - at,
    {
        proof {
            lemma_cuts_passed(cuts@, at as int, cuts@.len() as int);
        }
        if k % 2 == 0 {
            child1.push(parent1[at]);
            child2.push(parent2[at]);
        } else {
            child1.push(parent2[at]);
            child2.push(parent1[at]);
        }
        at += 1;
    }
    proof {
        assert(child1@ =~= expected.0);
        assert(child2@ =~= expected.1);
    }
    (child1, child2)
}

/// Draws `k` of the positions `0..n`, none of them twice, and puts them in
/// ascending order; `positions` holds the positions to draw from.
fn draw_cuts(rng: &mut StdRng, positions: &Vec<usize>, k: usize) -> (cuts: Vec<usize>)
    requires
        positions@ == ascending_positions(positions@.len()),
        k < positions@.len(),
    ensures
        cuts@.len() == k,
        forall|a: int, b: int| 0 <= a < b < cuts@.len() ==> cuts@[a] < cuts@[b],
        forall|a: int| 0 <= a < cuts@.len() ==> (#[trigger] cuts@[a]) < positions@.len(),
{
    let n = positions.len();
    let mut cuts = sample_items(rng, positions, k);
    let ghost drawn = cuts@;
    sort_ascending(&mut cuts);
    proof {
        broadcast use vstd::seq_lib::group_to_multiset_ensures;

        let places = choose|places: Seq<int>| picked_at(positions@, drawn, places);
        assert forall|p: int| 0 <= p < n implies #[trigger] positions@[p] == p by {
            assert(ascending_positions(n as nat)[p] == p as usize);
        }
        assert(drawn.no_duplicates()) by {
            assert forall|a: int, b: int|
                0 <= a < drawn.len() && 0 <= b < drawn.len() && a != b implies drawn[a]
                != drawn[b] by {
                assert(places[a] != places[b]);
                assert(drawn[a] == positions@[places[a]]);
                assert(drawn[b] == positions@[places[b]]);
            }
        }
        drawn.lemma_multiset_has_no_duplicates();
        cuts@.lemma_multiset_has_no_duplicates_conv();
        assert forall|a: int| 0 <= a < cuts@.len() implies (#[trigger] cuts@[a])
            < positions@.len() by {
            assert(cuts@.contains(cuts@[a]));
            assert(cuts@.to_multiset().count(cuts@[a]) > 0);
            assert(drawn.contains(cuts@[a]));
            let q = choose|q: int| 0 <= q < drawn.len() && drawn[q] == cuts@[a];
            assert(0 <= places[q] < positions@.len());
        }
        assert forall|a: int, b: int| 0 <= a < b < cuts@.len() implies cuts@[a] < cuts@[b] by {
            assert(cuts@[a] <= cuts@[b]);
            assert(cuts@[a] != cuts@[b]);
        }
    }
    cuts
}

/// Multi point crossover at `k` cut points drawn at random among the
/// positions, none of them twice, from a generator seeded with `seed`, or
/// from the system's entropy where `seed` is `None`. Where the parents
/// have no more than `k` positions, every position is a cut point and
/// nothing is left to draw. The parents are of one length.
pub fn multi_point_crossover(
    parent1: &Vec<bool>,
    parent2: &Vec<bool>,
    k: usize,
    seed: Option<u64>,
) -> (children: (Vec<bool>, Vec<bool>))
    requires
        parent1@.len() == parent2@.len(),
    ensures
        multi_point_outcome(parent1@, parent2@, k, (children.0@, children.1@)),
{
    let mut rng = rng_from_seed(seed);
    let n = parent1.len();
    let positions = positions_up_to(n);
    let cuts = if k < n {
        draw_cuts(&mut rng, &positions, k)
    } else {
        positions
    };
    let children = multi_point_crossover_at(parent1, parent2, &cuts, k);
    proof {
        assert((children.0@, children.1@) == multi_point_children(parent1@, parent2@, cuts@, k));
    }
    children
}

} // verus!
