//! Permutations of `0..n` as sequences, and the value-to-position index
//! that the crossover operators keep beside them.

use vstd::prelude::*;
use vstd::seq_lib::seq_to_set_is_finite;
use vstd::set_lib::{lemma_int_range, lemma_len_subset, lemma_subset_equality, set_int_range};

verus! {

/// `s` holds each of `0..s.len()` exactly once.
pub open spec fn is_permutation(s: Seq<usize>) -> bool {
    &&& forall|i: int| 0 <= i < s.len() ==> (#[trigger] s[i]) < s.len()
    &&& forall|i: int, j: int| 0 <= i < j < s.len() ==> s[i] != s[j]
}

/// `index` maps every value of `perm` to the position where `perm` holds it.
pub open spec fn is_position_index(index: Seq<usize>, perm: Seq<usize>) -> bool {
    &&& index.len() == perm.len()
    &&& forall|p: int| 0 <= p < perm.len() ==> index[(#[trigger] perm[p]) as int] == p
}

/// A permutation has no duplicates in the sense of `Seq::no_duplicates`.
pub proof fn lemma_permutation_no_duplicates(s: Seq<usize>)
    requires
        is_permutation(s),
    ensures
        s.no_duplicates(),
{
    assert forall|i: int, j: int| 0 <= i < s.len() && 0 <= j < s.len() && i != j implies s[i]
        != s[j] by {
        if i < j {
        } else {
            assert(s[j] != s[i]);
        }
    }
}

/// Every value below the length occurs in a permutation.
pub proof fn lemma_permutation_contains(s: Seq<usize>, v: usize)
    requires
        is_permutation(s),
        v < s.len(),
    ensures
        s.contains(v),
        0 <= s.index_of(v) < s.len(),
        s[s.index_of(v)] == v,
{
    let n = s.len() as int;
    let t = s.map_values(|x: usize| x as int);
    assert(t.no_duplicates()) by {
        lemma_permutation_no_duplicates(s);
    }
    t.unique_seq_to_set();
    lemma_int_range(0, n);
    assert(t.to_set().subset_of(set_int_range(0, n))) by {
        assert forall|x: int| t.to_set().contains(x) implies set_int_range(0, n).contains(x) by {
            let i = choose|i: int| 0 <= i < t.len() && t[i] == x;
            assert(s[i] < s.len());
        }
    }
    seq_to_set_is_finite(t);
    lemma_subset_equality(t.to_set(), set_int_range(0, n));
    assert(set_int_range(0, n).contains(v as int));
    assert(t.to_set().contains(v as int));
    let i = choose|i: int| 0 <= i < t.len() && t[i] == v as int;
    assert(s[i] == v);
}

/// The position of a value that a permutation holds at `p` is `p`.
pub proof fn lemma_index_of_position(s: Seq<usize>, p: int)
    requires
        is_permutation(s),
        0 <= p < s.len(),
    ensures
        s.index_of(s[p]) == p,
{
    let q = s.index_of(s[p]);
    assert(0 <= q < s.len() && s[q] == s[p]);
    if q < p {
        assert(s[q] != s[p]);
    } else if p < q {
        assert(s[p] != s[q]);
    }
}

/// A position index of a permutation is its inverse: looking a value up
/// gives the position that holds it.
pub proof fn lemma_position_index_inverse(index: Seq<usize>, perm: Seq<usize>)
    requires
        is_permutation(perm),
        is_position_index(index, perm),
    ensures
        forall|v: usize| v < perm.len() ==> #[trigger] index[v as int] == perm.index_of(v),
        forall|v: usize| v < perm.len() ==> perm[(#[trigger] index[v as int]) as int] == v,
{
    assert forall|v: usize| v < perm.len() implies #[trigger] index[v as int] == perm.index_of(v)
        && perm[index[v as int] as int] == v by {
        lemma_permutation_contains(perm, v);
        let p = perm.index_of(v);
        assert(index[perm[p] as int] == p);
    }
}

/// Distinct positions below `n` are at most `n` many.
pub proof fn lemma_distinct_positions_bounded(positions: Seq<int>, n: int)
    requires
        0 <= n,
        positions.no_duplicates(),
        forall|a: int| 0 <= a < positions.len() ==> 0 <= #[trigger] positions[a] < n,
    ensures
        positions.len() <= n,
{
    lemma_int_range(0, n);
    assert(positions.to_set().subset_of(set_int_range(0, n))) by {
        assert forall|x: int| positions.to_set().contains(x) implies set_int_range(0, n).contains(
            x,
        ) by {
            let a = choose|a: int| 0 <= a < positions.len() && positions[a] == x;
            assert(0 <= positions[a] < n);
        }
    }
    lemma_len_subset(positions.to_set(), set_int_range(0, n));
    positions.unique_seq_to_set();
}

/// Filtering keeps a sequence free of duplicates.
pub proof fn lemma_filter_no_duplicates<A>(s: Seq<A>, pred: spec_fn(A) -> bool)
    requires
        s.no_duplicates(),
    ensures
        s.filter(pred).no_duplicates(),
    decreases s.len(),
{
    reveal(Seq::filter);
    if s.len() > 0 {
        let rest = s.drop_last();
        let kept = rest.filter(pred);
        lemma_filter_no_duplicates(rest, pred);
        if pred(s.last()) {
            assert forall|a: int, b: int|
                0 <= a < kept.len() + 1 && 0 <= b < kept.len() + 1 && a != b implies kept.push(
                s.last(),
            )[a] != kept.push(s.last())[b] by {
                let inner = if a == kept.len() { b } else { a };
                if a == kept.len() || b == kept.len() {
                    assert(kept.contains(kept[inner]));
                    rest.lemma_filter_contains_rev(pred, kept[inner]);
                    let q = choose|q: int| 0 <= q < rest.len() && rest[q] == kept[inner];
                    assert(s[q] == kept[inner]);
                    assert(s[q] != s[s.len() - 1]);
                }
            }
        }
    }
}

/// Filtering keeps a sequence whose items all pass as it is.
pub proof fn lemma_filter_keeps_all<A>(s: Seq<A>, pred: spec_fn(A) -> bool)
    requires
        forall|a: int| 0 <= a < s.len() ==> pred(#[trigger] s[a]),
    ensures
        s.filter(pred) == s,
    decreases s.len(),
{
    reveal(Seq::filter);
    if s.len() > 0 {
        lemma_filter_keeps_all(s.drop_last(), pred);
        assert(s.drop_last().push(s.last()) =~= s);
    }
}

/// Filtering leaves nothing of a sequence none of whose items pass.
pub proof fn lemma_filter_keeps_none<A>(s: Seq<A>, pred: spec_fn(A) -> bool)
    requires
        forall|a: int| 0 <= a < s.len() ==> !pred(#[trigger] s[a]),
    ensures
        s.filter(pred) == Seq::<A>::empty(),
    decreases s.len(),
{
    reveal(Seq::filter);
    if s.len() > 0 {
        lemma_filter_keeps_none(s.drop_last(), pred);
    }
}

/// The positions `0..n` in ascending order.
pub open spec fn ascending_positions(n: nat) -> Seq<usize> {
    Seq::new(n, |p: int| p as usize)
}

/// A sequence that holds what the positions `0..n` in ascending order
/// hold, each as often, is a permutation of length `n`.
pub proof fn lemma_rearranged_positions(s: Seq<usize>, n: nat)
    requires
        n <= usize::MAX,
        s.to_multiset() == ascending_positions(n).to_multiset(),
    ensures
        s.len() == n,
        is_permutation(s),
{
    broadcast use vstd::seq_lib::group_to_multiset_ensures;

    let positions = ascending_positions(n);
    assert(s.len() == n) by {
        assert(s.to_multiset().len() == s.len());
        assert(positions.to_multiset().len() == positions.len());
    }
    assert(positions.no_duplicates());
    positions.lemma_multiset_has_no_duplicates();
    s.lemma_multiset_has_no_duplicates_conv();
    assert forall|a: int| 0 <= a < s.len() implies (#[trigger] s[a]) < s.len() by {
        assert(s.contains(s[a]));
        assert(s.to_multiset().count(s[a]) > 0);
        assert(positions.contains(s[a]));
        let q = choose|q: int| 0 <= q < positions.len() && positions[q] == s[a];
        assert(positions[q] == q as usize);
    }
}

/// Builds the positions `0..n` in ascending order.
pub fn positions_up_to(n: usize) -> (positions: Vec<usize>)
    ensures
        positions@ == ascending_positions(n as nat),
{
    let mut positions: Vec<usize> = Vec::with_capacity(n);
    let mut i: usize = 0;
    while i < n
        invariant
            i <= n,
            positions.len() == i,
            forall|p: int| 0 <= p < i ==> positions[p] == p,
        decreases n - i,
    {
        positions.push(i);
        i += 1;
    }
    assert(positions@ =~= ascending_positions(n as nat));
    positions
}

/// Tells whether `vec` holds each of `0..vec.len()` exactly once.
pub fn check_continuous(vec: &Vec<usize>) -> (ok: bool)
    ensures
        ok == is_permutation(vec@),
{
    let n = vec.len();
    let mut seen: Vec<bool> = vec![false; n];
    let mut i: usize = 0;
    while i < n
        invariant
            i <= n,
            n == vec.len(),
            seen.len() == n,
            forall|a: int| 0 <= a < i ==> (#[trigger] vec[a]) < n,
            forall|a: int, b: int| 0 <= a < b < i ==> vec[a] != vec[b],
            forall|v: int|
                0 <= v < n ==> (#[trigger] seen[v] <==> exists|a: int|
                    0 <= a < i && vec[a] == v),
        decreases n - i,
    {
        let v = vec[i];
        if v >= n {
            return false;
        }
        if seen[v] {
            proof {
                let a = choose|a: int| 0 <= a < i && vec[a] == v;
                assert(vec[a] == vec[i as int]);
            }
            return false;
        }
        let ghost before = seen@;
        seen.set(v, true);
        proof {
            assert forall|w: int| 0 <= w < n implies (#[trigger] seen[w] <==> exists|a: int|
                0 <= a < i + 1 && vec[a] == w) by {
                if w == v {
                    assert(vec[i as int] == w);
                } else {
                    assert(seen[w] == before[w]);
                    if before[w] {
                        let a = choose|a: int| 0 <= a < i && vec[a] == w;
                        assert(0 <= a < i + 1 && vec[a] == w);
                    }
                }
            }
            assert forall|a: int, b: int| 0 <= a < b < i + 1 implies vec[a] != vec[b] by {
                if b == i {
                    if vec[a] == vec[b] {
                        assert(before[v as int]);
                    }
                }
            }
        }
        i += 1;
    }
    true
}

/// Builds the value-to-position index of a permutation.
pub fn position_index(perm: &Vec<usize>) -> (index: Vec<usize>)
    requires
        is_permutation(perm@),
    ensures
        is_position_index(index@, perm@),
{
    let n = perm.len();
    let mut index: Vec<usize> = vec![0usize; n];
    let mut i: usize = 0;
    while i < n
        invariant
            i <= n,
            n == perm.len(),
            index.len() == n,
            is_permutation(perm@),
            forall|p: int| 0 <= p < i ==> index[(#[trigger] perm[p]) as int] == p,
        decreases n - i,
    {
        let ghost before = index@;
        index.set(perm[i], i);
        proof {
            assert forall|p: int| 0 <= p < i + 1 implies index[(#[trigger] perm[p]) as int]
                == p by {
                if p < i {
                    assert(perm[p] != perm[i as int]);
                    assert(before[perm[p] as int] == p);
                }
            }
        }
        i += 1;
    }
    index
}

} // verus!
