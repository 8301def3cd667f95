//! Order crossover: a child takes a contiguous segment from one parent at
//! the same positions, and fills the rest with the other parent's remaining
//! values in the order in which that parent holds them.

use vstd::prelude::*;
use vstd::seq_lib::seq_to_set_is_finite;
use vstd::set_lib::lemma_set_difference_len;
use crate::permutation::{
    is_permutation, lemma_filter_keeps_all, lemma_filter_keeps_none, lemma_filter_no_duplicates,
    lemma_permutation_contains,
};
use crate::random::{draw_cut_points, rng_from_seed};
use crate::crossover::{CrossoverError, rejection, check_parents, valid_cut_points};

verus! {

/// Holds of the values that `donor` does not hold in `i..=j`.
pub open spec fn outside_segment(donor: Seq<usize>, i: int, j: int) -> spec_fn(usize) -> bool {
    |v: usize| !donor.subrange(i, j + 1).contains(v)
}

/// `owner` read once round, starting behind position `j`.
pub open spec fn read_round(owner: Seq<usize>, j: int) -> Seq<usize> {
    owner.subrange(j + 1, owner.len() as int) + owner.subrange(0, j + 1)
}

/// The values of `owner` that the segment `i..=j` of `donor` leaves over,
/// in the order in which `owner` holds them from behind the segment
/// onwards, wrapping past its end.
pub open spec fn ox_survivors(
    owner: Seq<usize>,
    donor: Seq<usize>,
    i: int,
    j: int,
) -> Seq<usize> {
    read_round(owner, j).filter(outside_segment(donor, i, j))
}

/// The child of order crossover that `owner` fills round the segment
/// `i..=j` of `donor`: the survivors are laid out from behind the segment
/// onwards, wrapping past the end, and the segment stands where it stood
/// in `donor`.
pub open spec fn ox_child(owner: Seq<usize>, donor: Seq<usize>, i: int, j: int) -> Seq<usize> {
    let rest = ox_survivors(owner, donor, i, j);
    let behind = owner.len() - 1 - j;
    rest.subrange(behind, rest.len() as int) + donor.subrange(i, j + 1) + rest.subrange(0, behind)
}

/// The survivors are exactly as many as the segment leaves room for, they
/// are distinct values below `n`, and none of them is in the segment.
pub proof fn lemma_ox_survivors(owner: Seq<usize>, donor: Seq<usize>, i: int, j: int)
    requires
        is_permutation(owner),
        is_permutation(donor),
        owner.len() == donor.len(),
        valid_cut_points(owner.len(), i, j),
    ensures
        ox_survivors(owner, donor, i, j).len() == owner.len() - (j - i + 1),
        ox_survivors(owner, donor, i, j).no_duplicates(),
        forall|q: int|
            0 <= q < ox_survivors(owner, donor, i, j).len() ==> {
                &&& (#[trigger] ox_survivors(owner, donor, i, j)[q]) < owner.len()
                &&& !donor.subrange(i, j + 1).contains(ox_survivors(owner, donor, i, j)[q])
            },
{
    let n = owner.len() as int;
    let behind = n - 1 - j;
    let round = read_round(owner, j);
    let segment = donor.subrange(i, j + 1);
    let pred = outside_segment(donor, i, j);
    let rest = ox_survivors(owner, donor, i, j);
    assert(round.len() == n);
    assert forall|t: int| 0 <= t < n implies #[trigger] round[t] == owner[if t < behind {
        j + 1 + t
    } else {
        t - behind
    }] by {}
    assert(round.no_duplicates()) by {
        assert forall|a: int, b: int| 0 <= a < n && 0 <= b < n && a != b implies round[a]
            != round[b] by {
            let pa = if a < behind { j + 1 + a } else { a - behind };
            let pb = if b < behind { j + 1 + b } else { b - behind };
            if pa < pb {
                assert(owner[pa] != owner[pb]);
            } else {
                assert(owner[pb] != owner[pa]);
            }
        }
    }
    assert(segment.no_duplicates()) by {
        assert forall|a: int, b: int|
            0 <= a < segment.len() && 0 <= b < segment.len() && a != b implies segment[a]
            != segment[b] by {
            if a < b {
                assert(donor[i + a] != donor[i + b]);
            } else {
                assert(donor[i + b] != donor[i + a]);
            }
        }
    }
    lemma_filter_no_duplicates(round, pred);
    assert forall|q: int| 0 <= q < rest.len() implies (#[trigger] rest[q]) < n
        && !segment.contains(rest[q]) by {
        round.lemma_filter_pred(pred, q);
        assert(rest.contains(rest[q]));
        round.lemma_filter_contains_rev(pred, rest[q]);
        let t = choose|t: int| 0 <= t < round.len() && round[t] == rest[q];
        assert(round[t] < n);
    }
    let all = round.to_set();
    let taken = segment.to_set();
    rest.unique_seq_to_set();
    round.unique_seq_to_set();
    segment.unique_seq_to_set();
    seq_to_set_is_finite(round);
    seq_to_set_is_finite(segment);
    assert(all.intersect(taken) =~= taken) by {
        assert forall|v: usize| taken.contains(v) implies all.contains(v) by {
            let a = choose|a: int| 0 <= a < segment.len() && segment[a] == v;
            assert(donor[i + a] == v);
            lemma_permutation_contains(owner, v);
            let p = owner.index_of(v);
            let t = if p > j { p - (j + 1) } else { p + behind };
            assert(round[t] == v);
        }
    }
    assert(rest.to_set() =~= all.difference(taken)) by {
        assert forall|v: usize| rest.to_set().contains(v) <==> all.difference(taken).contains(
            v,
        ) by {
            if rest.contains(v) {
                let q = choose|q: int| 0 <= q < rest.len() && rest[q] == v;
                round.lemma_filter_pred(pred, q);
                round.lemma_filter_contains_rev(pred, v);
            }
            if all.contains(v) && !taken.contains(v) {
                let t = choose|t: int| 0 <= t < round.len() && round[t] == v;
                assert(pred(round[t]));
                round.lemma_filter_contains(pred, t);
            }
        }
    }
    lemma_set_difference_len(all, taken);
}

/// A child of order crossover is a permutation, and holds the segment of
/// `donor` where `donor` holds it.
pub proof fn lemma_ox_child(owner: Seq<usize>, donor: Seq<usize>, i: int, j: int)
    requires
        is_permutation(owner),
        is_permutation(donor),
        owner.len() == donor.len(),
        valid_cut_points(owner.len(), i, j),
    ensures
        is_permutation(ox_child(owner, donor, i, j)),
        ox_child(owner, donor, i, j).len() == owner.len(),
        ox_child(owner, donor, i, j).subrange(i, j + 1) == donor.subrange(i, j + 1),
{
    let n = owner.len() as int;
    let behind = n - 1 - j;
    let rest = ox_survivors(owner, donor, i, j);
    let segment = donor.subrange(i, j + 1);
    let child = ox_child(owner, donor, i, j);
    lemma_ox_survivors(owner, donor, i, j);
    assert(child.len() == n);
    assert forall|p: int| 0 <= p < n implies #[trigger] child[p] == (if p < i {
        rest[behind + p]
    } else if p <= j {
        donor[p]
    } else {
        rest[p - j - 1]
    }) by {}
    assert(child.subrange(i, j + 1) =~= segment);
    assert forall|p: int| 0 <= p < n implies (#[trigger] child[p]) < n by {}
    assert forall|a: int, b: int| 0 <= a < b < n implies child[a] != child[b] by {
        let in_a = i <= a <= j;
        let in_b = i <= b <= j;
        if in_a && in_b {
        } else if in_a {
            assert(segment[a - i] == donor[a]);
            assert(segment.contains(child[a]));
        } else if in_b {
            assert(segment[b - i] == donor[b]);
            assert(segment.contains(child[b]));
        } else {
            let qa = if a < i { behind + a } else { a - j - 1 };
            let qb = if b < i { behind + b } else { b - j - 1 };
            assert(qa != qb);
            assert(rest[qa] != rest[qb]);
        }
    }
}

/// A permutation crossed with itself comes back as it is.
pub proof fn lemma_ox_child_of_equal_parents(parent: Seq<usize>, i: int, j: int)
    requires
        is_permutation(parent),
        valid_cut_points(parent.len(), i, j),
    ensures
        ox_child(parent, parent, i, j) == parent,
{
    let n = parent.len() as int;
    let pred = outside_segment(parent, i, j);
    let segment = parent.subrange(i, j + 1);
    let tail = parent.subrange(j + 1, n);
    let head = parent.subrange(0, i);
    assert(read_round(parent, j) =~= tail + head + segment);
    assert forall|a: int| 0 <= a < tail.len() implies pred(#[trigger] tail[a]) by {
        if segment.contains(tail[a]) {
            let b = choose|b: int| 0 <= b < segment.len() && segment[b] == tail[a];
            assert(parent[i + b] != parent[j + 1 + a]);
        }
    }
    assert forall|a: int| 0 <= a < head.len() implies pred(#[trigger] head[a]) by {
        if segment.contains(head[a]) {
            let b = choose|b: int| 0 <= b < segment.len() && segment[b] == head[a];
            assert(parent[a] != parent[i + b]);
        }
    }
    assert forall|a: int| 0 <= a < segment.len() implies !pred(#[trigger] segment[a]) by {
        assert(segment.contains(segment[a]));
    }
    lemma_filter_keeps_all(tail, pred);
    lemma_filter_keeps_all(head, pred);
    lemma_filter_keeps_none(segment, pred);
    Seq::filter_distributes_over_add(tail + head, segment, pred);
    Seq::filter_distributes_over_add(tail, head, pred);
    let rest = ox_survivors(parent, parent, i, j);
    assert(rest == tail + head);
    assert forall|a: int| 0 <= a < head.len() implies rest[tail.len() + a] == head[a] by {
        assert((tail + head)[tail.len() + a] == head[a]);
    }
    assert(rest.subrange(tail.len() as int, rest.len() as int) =~= head);
    assert(rest.subrange(0, tail.len() as int) =~= tail);
    assert(head + segment + tail =~= parent);
}

/// What order crossover may hand back for two permutations of length `n`:
/// the two children that belong to one pair of cut points, which are
/// distinct where there are two positions to pick from.
pub open spec fn ox_outcome(
    parent1: Seq<usize>,
    parent2: Seq<usize>,
    child1: Seq<usize>,
    child2: Seq<usize>,
) -> bool {
    exists|i: int, j: int|
        {
            &&& #[trigger] valid_cut_points(parent1.len(), i, j)
            &&& parent1.len() >= 2 ==> i < j
            &&& child1 == ox_child(parent1, parent2, i, j)
            &&& child2 == ox_child(parent2, parent1, i, j)
        }
}

/// Builds the child that `owner` fills round the segment `i..=j` of
/// `donor`.
fn order_child(owner: &Vec<usize>, donor: &Vec<usize>, i: usize, j: usize) -> (child: Vec<usize>)
    requires
        is_permutation(owner@),
        is_permutation(donor@),
        owner.len() == donor.len(),
        valid_cut_points(owner@.len(), i as int, j as int),
    ensures
        child@ == ox_child(owner@, donor@, i as int, j as int),
{
    let n = owner.len();
    let ghost segment = donor@.subrange(i as int, j + 1);
    let ghost pred = outside_segment(donor@, i as int, j as int);
    let ghost round = read_round(owner@, j as int);
    let ghost rest = ox_survivors(owner@, donor@, i as int, j as int);
    let ghost behind = n - 1 - j;
    let mut child: Vec<usize> = owner.clone();
    let mut holes: Vec<bool> = vec![false; n];
    let mut k: usize = i;
    while k <= j
        invariant
            i <= k <= j + 1,
            j < n,
            n == owner.len(),
            n == donor.len(),
            child.len() == n,
            holes.len() == n,
            is_permutation(donor@),
            forall|q: int| i <= q < k ==> child[q] == donor[q],
            forall|v: int|
                0 <= v < n ==> (#[trigger] holes[v] <==> exists|q: int|
                    i <= q < k && donor[q] == v),
        decreases j + 1 - k,
    {
        let ghost before = holes@;
        let v = donor[k];
        holes.set(v, true);
        child.set(k, v);
        proof {
            assert forall|w: int| 0 <= w < n implies (#[trigger] holes[w] <==> exists|q: int|
                i <= q < k + 1 && donor[q] == w) by {
                if w == v {
                    assert(donor[k as int] == w);
                } else {
                    assert(holes[w] == before[w]);
                    if before[w] {
                        let q = choose|q: int| i <= q < k && donor[q] == w;
                        assert(i <= q < k + 1 && donor[q] == w);
                    }
                }
            }
        }
        k += 1;
    }
    proof {
        lemma_ox_survivors(owner@, donor@, i as int, j as int);
        assert forall|v: usize| v < n implies (#[trigger] holes[v as int] <==> !pred(v)) by {
            if holes[v as int] {
                let q = choose|q: int| i <= q < j + 1 && donor[q] == v;
                assert(segment[q - i] == v);
            }
            if segment.contains(v) {
                let a = choose|a: int| 0 <= a < segment.len() && segment[a] == v;
                assert(donor[i + a] == v);
            }
        }
        assert(round.len() == n);
        assert(round.take(0).filter(pred) =~= Seq::<usize>::empty()) by {
            reveal(Seq::filter);
        }
    }
    let start: usize = if j + 1 == n { 0 } else { j + 1 };
    let mut read: usize = start;
    let mut write: usize = start;
    let mut t: usize = 0;
    let ghost mut placed: Seq<usize> = Seq::empty();
    while t < n
        invariant
            t <= n,
            i <= j < n,
            n == owner.len(),
            n == donor.len(),
            child.len() == n,
            holes.len() == n,
            behind == n - 1 - j,
            is_permutation(owner@),
            round == read_round(owner@, j as int),
            round.len() == n,
            pred == outside_segment(donor@, i as int, j as int),
            rest == round.filter(pred),
            rest.len() == n - (j - i + 1),
            forall|v: usize| v < n ==> (#[trigger] holes[v as int] <==> !pred(v)),
            placed == round.take(t as int).filter(pred),
            placed.len() <= rest.len(),
            t < n ==> read == (if t < behind { j + 1 + t } else { t - behind }),
            write == (if placed.len() < behind { j + 1 + placed.len() } else {
                placed.len() - behind
            }),
            forall|q: int| i <= q <= j ==> child[q] == donor[q],
            forall|q: int|
                0 <= q < placed.len() ==> #[trigger] placed[q] == child[if q < behind {
                    j + 1 + q
                } else {
                    q - behind
                }],
        decreases n - t,
    {
        let v = owner[read];
        proof {
            assert(round[t as int] == v);
            assert(round.take(t + 1) =~= round.take(t as int).push(v));
            round.take(t as int).lemma_filter_push(v, pred);
            round.lemma_filter_take_len(pred, t + 1);
        }
        if !holes[v] {
            child.set(write, v);
            proof {
                placed = placed.push(v);
            }
            write = if write + 1 == n { 0 } else { write + 1 };
        }
        read = if read + 1 == n { 0 } else { read + 1 };
        t += 1;
    }
    proof {
        assert(round.take(n as int) =~= round);
        assert(child@ =~= ox_child(owner@, donor@, i as int, j as int));
    }
    child
}

/// Order crossover at the cut points `(i, j)`.
///
/// A pair of parents that differs in length, or that holds a sequence that
/// is no permutation of `0..n`, is rejected. Of any other pair, the first
/// child holds the segment `i..=j` of `parent2` and is filled up by
/// `parent1`, the second holds the segment of `parent1` and is filled up
/// by `parent2`. Both children are permutations.
pub fn order_crossover_at(
    parent1: &Vec<usize>,
    parent2: &Vec<usize>,
    i: usize,
    j: usize,
) -> (r: Result<(Vec<usize>, Vec<usize>), CrossoverError>)
    requires
        valid_cut_points(parent1@.len(), i as int, j as int),
    ensures
        match rejection(parent1@, parent2@) {
            Some(e) => r == Err::<(Vec<usize>, Vec<usize>), CrossoverError>(e),
            None => r matches Ok(children) && {
                &&& children.0@ == ox_child(parent1@, parent2@, i as int, j as int)
                &&& children.1@ == ox_child(parent2@, parent1@, i as int, j as int)
                &&& is_permutation(children.0@)
                &&& is_permutation(children.1@)
                &&& children.0@.len() == parent1@.len()
                &&& children.1@.len() == parent1@.len()
                &&& children.0@.subrange(i as int, j + 1) == parent2@.subrange(i as int, j + 1)
                &&& children.1@.subrange(i as int, j + 1) == parent1@.subrange(i as int, j + 1)
                &&& parent1@ == parent2@ ==> children.0@ == parent1@ && children.1@ == parent1@
            },
        },
{
    match check_parents(parent1, parent2) {
        Err(e) => Err(e),
        Ok(()) => {
            let child1 = order_child(parent1, parent2, i, j);
            let child2 = order_child(parent2, parent1, i, j);
            proof {
                lemma_ox_child(parent1@, parent2@, i as int, j as int);
                lemma_ox_child(parent2@, parent1@, i as int, j as int);
                if parent1@ == parent2@ {
                    lemma_ox_child_of_equal_parents(parent1@, i as int, j as int);
                }
            }
            Ok((child1, child2))
        },
    }
}

/// Order crossover at cut points drawn at random: two distinct positions,
/// from a generator seeded with `seed`, or from the system's entropy where
/// `seed` is `None`.
///
/// A pair of parents that differs in length, or that holds a sequence that
/// is no permutation of `0..n`, is rejected before anything is drawn. The
/// children of any other pair are those of `order_crossover_at` at the
/// cut points drawn; with a single position both cut points are that
/// position, and two empty parents have empty children.
pub fn order_crossover(
    parent1: &Vec<usize>,
    parent2: &Vec<usize>,
    seed: Option<u64>,
) -> (r: Result<(Vec<usize>, Vec<usize>), CrossoverError>)
    ensures
        match rejection(parent1@, parent2@) {
            Some(e) => r == Err::<(Vec<usize>, Vec<usize>), CrossoverError>(e),
            None => r matches Ok(children) && {
                &&& is_permutation(children.0@)
                &&& is_permutation(children.1@)
                &&& children.0@.len() == parent1@.len()
                &&& children.1@.len() == parent1@.len()
                &&& parent1@.len() > 0 ==> ox_outcome(
                    parent1@,
                    parent2@,
                    children.0@,
                    children.1@,
                )
                &&& parent1@ == parent2@ ==> children.0@ == parent1@ && children.1@ == parent1@
            },
        },
{
    match check_parents(parent1, parent2) {
        Err(e) => Err(e),
        Ok(()) => {
            let mut rng = rng_from_seed(seed);
            match draw_cut_points(&mut rng, parent1.len()) {
                None => {
                    let child1: Vec<usize> = Vec::new();
                    let child2: Vec<usize> = Vec::new();
                    assert(child1@ =~= parent1@ && child2@ =~= parent1@);
                    Ok((child1, child2))
                },
                Some((i, j)) => {
                    let r = order_crossover_at(parent1, parent2, i, j);
                    assert(valid_cut_points(parent1@.len(), i as int, j as int));
                    r
                },
            }
        },
    }
}

} // verus!
