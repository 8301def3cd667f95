//! Cycle crossover: the positions that the two parents link into one cycle
//! with position 0 come from one parent, all others from the other.

use vstd::prelude::*;
use crate::permutation::{
    is_permutation, is_position_index, lemma_distinct_positions_bounded, lemma_index_of_position,
    lemma_permutation_contains, lemma_position_index_inverse, position_index,
};
use crate::crossover::{CrossoverError, rejection, check_parents};

verus! {

/// The position that the trace visits after `pos`: where `traced` holds
/// the value that `other` holds at `pos`.
pub open spec fn cycle_next(traced: Seq<usize>, other: Seq<usize>, pos: int) -> int {
    traced.index_of(other[pos])
}

/// The position that the trace from position 0 visits after `k` steps.
pub open spec fn cycle_position(traced: Seq<usize>, other: Seq<usize>, k: nat) -> int
    decreases k,
{
    if k == 0 {
        0
    } else {
        cycle_next(traced, other, cycle_position(traced, other, (k - 1) as nat))
    }
}

/// `pos` lies on the cycle through position 0.
pub open spec fn on_cycle(traced: Seq<usize>, other: Seq<usize>, pos: int) -> bool {
    exists|k: nat| cycle_position(traced, other, k) == pos
}

/// The child of cycle crossover that holds the values of `traced` on the
/// cycle through position 0, and those of `other` everywhere else.
pub open spec fn cycle_child(traced: Seq<usize>, other: Seq<usize>) -> Seq<usize> {
    Seq::new(
        traced.len(),
        |pos: int|
            if on_cycle(traced, other, pos) {
                traced[pos]
            } else {
                other[pos]
            },
    )
}

/// The positions that the child takes from `traced`.
pub open spec fn cycle_positions(traced: Seq<usize>, other: Seq<usize>) -> Set<int> {
    Set::new(|pos: int| 0 <= pos < traced.len() && on_cycle(traced, other, pos))
}

/// The positions at which the child keeps the value of `other`.
pub open spec fn kept_positions(traced: Seq<usize>, other: Seq<usize>) -> Set<int> {
    Set::new(|pos: int| 0 <= pos < traced.len() && !on_cycle(traced, other, pos))
}

/// A step of the trace stays inside the genotype, lands where `traced`
/// holds the value that `other` held, and no two positions step to the
/// same place.
pub proof fn lemma_cycle_next(traced: Seq<usize>, other: Seq<usize>, pos: int)
    requires
        is_permutation(traced),
        is_permutation(other),
        traced.len() == other.len(),
        0 <= pos < traced.len(),
    ensures
        0 <= cycle_next(traced, other, pos) < traced.len(),
        traced[cycle_next(traced, other, pos)] == other[pos],
        forall|q: int|
            0 <= q < traced.len() && cycle_next(traced, other, q) == cycle_next(traced, other, pos)
                ==> q == pos,
{
    lemma_permutation_contains(traced, other[pos]);
    assert forall|q: int|
        0 <= q < traced.len() && cycle_next(traced, other, q) == cycle_next(
            traced,
            other,
            pos,
        ) implies q == pos by {
        lemma_permutation_contains(traced, other[q]);
        if q < pos {
            assert(other[q] != other[pos]);
        } else if pos < q {
            assert(other[pos] != other[q]);
        }
    }
}

/// The trace never leaves the genotype.
pub proof fn lemma_cycle_position(traced: Seq<usize>, other: Seq<usize>, k: nat)
    requires
        is_permutation(traced),
        is_permutation(other),
        traced.len() == other.len(),
        traced.len() > 0,
    ensures
        0 <= cycle_position(traced, other, k) < traced.len(),
    decreases k,
{
    if k > 0 {
        lemma_cycle_position(traced, other, (k - 1) as nat);
        lemma_cycle_next(traced, other, cycle_position(traced, other, (k - 1) as nat));
    }
}

/// A trace that is back at position 0 after `period` steps repeats itself
/// from there on.
pub proof fn lemma_cycle_repeats(traced: Seq<usize>, other: Seq<usize>, period: nat, k: nat)
    requires
        cycle_position(traced, other, period) == 0,
    ensures
        cycle_position(traced, other, k + period) == cycle_position(traced, other, k),
    decreases k,
{
    if k > 0 {
        lemma_cycle_repeats(traced, other, period, (k - 1) as nat);
        assert((k + period - 1) as nat == (k - 1) as nat + period);
    }
}

/// Every position of a trace that closes after `period` steps is visited
/// within the first `period` steps.
pub proof fn lemma_cycle_within_period(
    traced: Seq<usize>,
    other: Seq<usize>,
    period: nat,
    k: nat,
) -> (m: nat)
    requires
        period > 0,
        cycle_position(traced, other, period) == 0,
    ensures
        m < period,
        cycle_position(traced, other, m) == cycle_position(traced, other, k),
    decreases k,
{
    if k < period {
        k
    } else {
        lemma_cycle_repeats(traced, other, period, (k - period) as nat);
        assert((k - period) as nat + period == k);
        lemma_cycle_within_period(traced, other, period, (k - period) as nat)
    }
}

/// A trace whose first `k` positions are distinct, and whose next position
/// is one of them, is back at position 0.
proof fn lemma_cycle_revisit_is_start(traced: Seq<usize>, other: Seq<usize>, k: nat, m: nat)
    requires
        is_permutation(traced),
        is_permutation(other),
        traced.len() == other.len(),
        traced.len() > 0,
        m < k,
        cycle_position(traced, other, m) == cycle_position(traced, other, k),
        forall|a: nat, b: nat|
            a < b < k ==> cycle_position(traced, other, a) != cycle_position(traced, other, b),
    ensures
        m == 0,
{
    if m > 0 {
        let before_m = cycle_position(traced, other, (m - 1) as nat);
        let before_k = cycle_position(traced, other, (k - 1) as nat);
        lemma_cycle_position(traced, other, (m - 1) as nat);
        lemma_cycle_position(traced, other, (k - 1) as nat);
        lemma_cycle_next(traced, other, before_k);
        assert(before_m == before_k);
        assert(m - 1 < k - 1 < k);
    }
}

/// The first `k` positions of a trace, as a sequence.
spec fn trace_prefix(traced: Seq<usize>, other: Seq<usize>, k: nat) -> Seq<int> {
    Seq::new(k, |m: int| cycle_position(traced, other, m as nat))
}

/// Distinct positions of a trace are no more than the genotype is long.
proof fn lemma_trace_prefix_bounded(traced: Seq<usize>, other: Seq<usize>, k: nat)
    requires
        is_permutation(traced),
        is_permutation(other),
        traced.len() == other.len(),
        traced.len() > 0,
        forall|a: nat, b: nat|
            a < b < k ==> cycle_position(traced, other, a) != cycle_position(traced, other, b),
    ensures
        k <= traced.len(),
{
    let prefix = trace_prefix(traced, other, k);
    assert forall|a: int| 0 <= a < prefix.len() implies 0 <= #[trigger] prefix[a]
        < traced.len() by {
        lemma_cycle_position(traced, other, a as nat);
    }
    assert forall|a: int, b: int|
        0 <= a < prefix.len() && 0 <= b < prefix.len() && a != b implies prefix[a]
        != prefix[b] by {
        if a < b {
            assert(cycle_position(traced, other, a as nat) != cycle_position(
                traced,
                other,
                b as nat,
            ));
        } else {
            assert(cycle_position(traced, other, b as nat) != cycle_position(
                traced,
                other,
                a as nat,
            ));
        }
    }
    lemma_distinct_positions_bounded(prefix, traced.len() as int);
}

/// Searches the step at which a trace with `k` distinct first positions
/// is back at position 0.
proof fn lemma_cycle_closes_from(traced: Seq<usize>, other: Seq<usize>, k: nat) -> (period: nat)
    requires
        is_permutation(traced),
        is_permutation(other),
        traced.len() == other.len(),
        traced.len() > 0,
        k > 0,
        forall|a: nat, b: nat|
            a < b < k ==> cycle_position(traced, other, a) != cycle_position(traced, other, b),
    ensures
        0 < period <= traced.len(),
        cycle_position(traced, other, period) == 0,
    decreases traced.len() - k,
{
    lemma_trace_prefix_bounded(traced, other, k);
    if exists|m: nat|
        m < k && cycle_position(traced, other, m) == cycle_position(traced, other, k) {
        let m = choose|m: nat|
            m < k && cycle_position(traced, other, m) == cycle_position(traced, other, k);
        lemma_cycle_revisit_is_start(traced, other, k, m);
        k
    } else {
        assert forall|a: nat, b: nat| a < b < k + 1 implies cycle_position(traced, other, a)
            != cycle_position(traced, other, b) by {}
        lemma_trace_prefix_bounded(traced, other, k + 1);
        lemma_cycle_closes_from(traced, other, k + 1)
    }
}

/// The trace from position 0 is back there after at most `n` steps.
pub proof fn lemma_cycle_closes(traced: Seq<usize>, other: Seq<usize>) -> (period: nat)
    requires
        is_permutation(traced),
        is_permutation(other),
        traced.len() == other.len(),
        traced.len() > 0,
    ensures
        0 < period <= traced.len(),
        cycle_position(traced, other, period) == 0,
{
    lemma_cycle_closes_from(traced, other, 1)
}

/// A position that steps onto the cycle lies on the cycle.
pub proof fn lemma_cycle_closed_backwards(traced: Seq<usize>, other: Seq<usize>, pos: int)
    requires
        is_permutation(traced),
        is_permutation(other),
        traced.len() == other.len(),
        0 <= pos < traced.len(),
        on_cycle(traced, other, cycle_next(traced, other, pos)),
    ensures
        on_cycle(traced, other, pos),
{
    let target = cycle_next(traced, other, pos);
    let k = choose|k: nat| cycle_position(traced, other, k) == target;
    let period = lemma_cycle_closes(traced, other);
    let from: nat = if k == 0 { (period - 1) as nat } else { (k - 1) as nat };
    lemma_cycle_position(traced, other, from);
    lemma_cycle_next(traced, other, pos);
    assert(cycle_next(traced, other, cycle_position(traced, other, from)) == target);
    assert(cycle_position(traced, other, from) == pos);
}

/// Every position of the trace that starts from the other parent lies on
/// the cycle of this one.
proof fn lemma_reverse_trace_on_cycle(traced: Seq<usize>, other: Seq<usize>, m: nat)
    requires
        is_permutation(traced),
        is_permutation(other),
        traced.len() == other.len(),
        traced.len() > 0,
    ensures
        on_cycle(traced, other, cycle_position(other, traced, m)),
    decreases m,
{
    if m == 0 {
        assert(cycle_position(traced, other, 0) == 0);
    } else {
        let from = cycle_position(other, traced, (m - 1) as nat);
        let to = cycle_next(other, traced, from);
        lemma_reverse_trace_on_cycle(traced, other, (m - 1) as nat);
        lemma_cycle_position(other, traced, (m - 1) as nat);
        lemma_cycle_next(other, traced, from);
        lemma_index_of_position(traced, from);
        assert(cycle_next(traced, other, to) == from);
        lemma_cycle_closed_backwards(traced, other, to);
    }
}

/// Both children are traced along the same cycle: the trace of one parent
/// runs through the positions that the trace of the other runs through.
pub proof fn lemma_cycle_shared(parent1: Seq<usize>, parent2: Seq<usize>, pos: int)
    requires
        is_permutation(parent1),
        is_permutation(parent2),
        parent1.len() == parent2.len(),
    ensures
        on_cycle(parent1, parent2, pos) == on_cycle(parent2, parent1, pos),
{
    if parent1.len() > 0 {
        if on_cycle(parent2, parent1, pos) {
            let m = choose|m: nat| cycle_position(parent2, parent1, m) == pos;
            lemma_reverse_trace_on_cycle(parent1, parent2, m);
        }
        if on_cycle(parent1, parent2, pos) {
            let m = choose|m: nat| cycle_position(parent1, parent2, m) == pos;
            lemma_reverse_trace_on_cycle(parent2, parent1, m);
        }
    } else {
        assert(parent1 =~= parent2);
    }
}

/// At every position the two children hold between them what the two
/// parents hold there: each its own parent's value on the cycle, and the
/// other parent's value off it.
pub proof fn lemma_cycle_children_complement(parent1: Seq<usize>, parent2: Seq<usize>, pos: int)
    requires
        is_permutation(parent1),
        is_permutation(parent2),
        parent1.len() == parent2.len(),
        0 <= pos < parent1.len(),
    ensures
        on_cycle(parent1, parent2, pos) ==> cycle_child(parent1, parent2)[pos] == parent1[pos]
            && cycle_child(parent2, parent1)[pos] == parent2[pos],
        !on_cycle(parent1, parent2, pos) ==> cycle_child(parent1, parent2)[pos] == parent2[pos]
            && cycle_child(parent2, parent1)[pos] == parent1[pos],
{
    lemma_cycle_shared(parent1, parent2, pos);
}

/// A child of cycle crossover is a permutation of the parents' length.
pub proof fn lemma_cycle_child(traced: Seq<usize>, other: Seq<usize>)
    requires
        is_permutation(traced),
        is_permutation(other),
        traced.len() == other.len(),
    ensures
        is_permutation(cycle_child(traced, other)),
        cycle_child(traced, other).len() == traced.len(),
{
    let child = cycle_child(traced, other);
    assert forall|a: int, b: int| 0 <= a < b < child.len() implies child[a] != child[b] by {
        let on_a = on_cycle(traced, other, a);
        let on_b = on_cycle(traced, other, b);
        if on_a && !on_b {
            if traced[a] == other[b] {
                lemma_index_of_position(traced, a);
                lemma_cycle_closed_backwards(traced, other, b);
            }
        } else if !on_a && on_b {
            if other[a] == traced[b] {
                lemma_index_of_position(traced, b);
                lemma_cycle_closed_backwards(traced, other, a);
            }
        }
    }
}

/// A permutation crossed with itself comes back as it is.
pub proof fn lemma_cycle_child_of_equal_parents(parent: Seq<usize>)
    ensures
        cycle_child(parent, parent) == parent,
{
    assert(cycle_child(parent, parent) =~= parent);
}

/// The positions that a child takes from one parent and those that it
/// keeps from the other split the positions `0..n` between them.
pub proof fn lemma_cycle_partition(traced: Seq<usize>, other: Seq<usize>)
    ensures
        cycle_positions(traced, other).disjoint(kept_positions(traced, other)),
        cycle_positions(traced, other).union(kept_positions(traced, other)) == Set::new(
            |pos: int| 0 <= pos < traced.len(),
        ),
        forall|pos: int| #[trigger]
            cycle_positions(traced, other).contains(pos) ==> cycle_child(traced, other)[pos]
                == traced[pos],
        forall|pos: int| #[trigger]
            kept_positions(traced, other).contains(pos) ==> cycle_child(traced, other)[pos]
                == other[pos],
{
    assert(cycle_positions(traced, other).union(kept_positions(traced, other)) =~= Set::new(
        |pos: int| 0 <= pos < traced.len(),
    ));
}

/// Builds the child that holds the values of `traced` on the cycle through
/// position 0 and those of `other` elsewhere; `index` is the position
/// index of `traced`.
fn cycle_child_of(
    traced: &Vec<usize>,
    other: &Vec<usize>,
    index: &Vec<usize>,
) -> (child: Vec<usize>)
    requires
        is_permutation(traced@),
        is_permutation(other@),
        traced.len() == other.len(),
        traced.len() > 0,
        is_position_index(index@, traced@),
    ensures
        child@ == cycle_child(traced@, other@),
{
    let n = traced.len();
    let mut child: Vec<usize> = other.clone();
    let mut visited: Vec<bool> = vec![false; n];
    let mut pos: usize = 0;
    let mut value: usize = traced[0];
    let ghost mut steps: nat = 0;
    let ghost mut trace: Seq<int> = Seq::empty();
    proof {
        lemma_position_index_inverse(index@, traced@);
    }
    while !visited[value]
        invariant
            n == traced.len(),
            n == other.len(),
            n == child.len(),
            n == visited.len(),
            n == index.len(),
            n > 0,
            is_permutation(traced@),
            is_permutation(other@),
            forall|v: usize| v < n ==> #[trigger] index[v as int] == traced@.index_of(v),
            pos < n,
            value == traced[pos as int],
            pos == cycle_position(traced@, other@, steps),
            trace.len() == steps,
            trace.no_duplicates(),
            forall|m: int|
                0 <= m < steps ==> #[trigger] trace[m] == cycle_position(
                    traced@,
                    other@,
                    m as nat,
                ) && 0 <= trace[m] < n,
            forall|p: int|
                0 <= p < n ==> (visited[(#[trigger] traced[p]) as int] <==> trace.contains(p)),
            forall|p: int|
                0 <= p < n ==> #[trigger] child[p] == (if trace.contains(p) {
                    traced[p]
                } else {
                    other[p]
                }),
        decreases n - steps,
    {
        let ghost before = trace;
        proof {
            assert(!trace.contains(pos as int));
            trace = trace.push(pos as int);
            assert(trace.no_duplicates());
            lemma_distinct_positions_bounded(trace, n as int);
            lemma_cycle_next(traced@, other@, pos as int);
            assert forall|p: int| 0 <= p < n implies (#[trigger] trace.contains(p) <==> (
            before.contains(p) || p == pos)) by {
                if before.contains(p) {
                    let m = choose|m: int| 0 <= m < before.len() && before[m] == p;
                    assert(trace[m] == p);
                }
                if p == pos {
                    assert(trace[steps as int] == p);
                }
            }
        }
        visited.set(value, true);
        child.set(pos, value);
        proof {
            assert forall|p: int| 0 <= p < n implies (visited[(#[trigger] traced[p]) as int]
                <==> trace.contains(p)) by {
                if p != pos {
                    if p < pos {
                        assert(traced[p] != traced[pos as int]);
                    } else {
                        assert(traced[pos as int] != traced[p]);
                    }
                }
            }
        }
        value = other[pos];
        pos = index[value];
        proof {
            steps = steps + 1;
        }
    }
    proof {
        assert(trace.contains(pos as int));
        let m = choose|m: int| 0 <= m < trace.len() && trace[m] == pos as int;
        assert forall|a: nat, b: nat| a < b < steps implies cycle_position(traced@, other@, a)
            != cycle_position(traced@, other@, b) by {
            assert(trace[a as int] != trace[b as int]);
        }
        lemma_cycle_revisit_is_start(traced@, other@, steps, m as nat);
        assert forall|p: int| 0 <= p < n implies (on_cycle(traced@, other@, p) <==> trace.contains(
            p,
        )) by {
            if on_cycle(traced@, other@, p) {
                let k = choose|k: nat| cycle_position(traced@, other@, k) == p;
                let w = lemma_cycle_within_period(traced@, other@, steps, k);
                assert(trace[w as int] == p);
            }
            if trace.contains(p) {
                let w = choose|w: int| 0 <= w < trace.len() && trace[w] == p;
                assert(cycle_position(traced@, other@, w as nat) == p);
            }
        }
        assert(child@ =~= cycle_child(traced@, other@));
    }
    child
}

/// Cycle crossover.
///
/// A pair of parents that differs in length, or that holds a sequence that
/// is no permutation of `0..n`, is rejected. Of any other pair, the first
/// child holds the values of `parent1` on the cycle through position 0 and
/// those of `parent2` elsewhere, and the second child the other way round.
/// Both children are permutations; two empty parents have empty children.
pub fn cycle_crossover(
    parent1: &Vec<usize>,
    parent2: &Vec<usize>,
) -> (r: Result<(Vec<usize>, Vec<usize>), CrossoverError>)
    ensures
        match rejection(parent1@, parent2@) {
            Some(e) => r == Err::<(Vec<usize>, Vec<usize>), CrossoverError>(e),
            None => r matches Ok(children) && {
                &&& children.0@ == cycle_child(parent1@, parent2@)
                &&& children.1@ == cycle_child(parent2@, parent1@)
                &&& is_permutation(children.0@)
                &&& is_permutation(children.1@)
                &&& children.0@.len() == parent1@.len()
                &&& children.1@.len() == parent1@.len()
                &&& parent1@ == parent2@ ==> children.0@ == parent1@ && children.1@ == parent1@
            },
        },
{
    match check_parents(parent1, parent2) {
        Err(e) => Err(e),
        Ok(()) => {
            proof {
                lemma_cycle_child(parent1@, parent2@);
                lemma_cycle_child(parent2@, parent1@);
                if parent1@ == parent2@ {
                    lemma_cycle_child_of_equal_parents(parent1@);
                }
            }
            if parent1.len() == 0 {
                let child1: Vec<usize> = Vec::new();
                let child2: Vec<usize> = Vec::new();
                assert(child1@ =~= cycle_child(parent1@, parent2@));
                assert(child2@ =~= cycle_child(parent2@, parent1@));
                return Ok((child1, child2));
            }
            let index1 = position_index(parent1);
            let index2 = position_index(parent2);
            let child1 = cycle_child_of(parent1, parent2, &index1);
            let child2 = cycle_child_of(parent2, parent1, &index2);
            Ok((child1, child2))
        },
    }
}

} // verus!
