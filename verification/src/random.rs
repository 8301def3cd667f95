//! The random source of the operators: a generator of the `rand` crate,
//! and the draws that the operators make from it.
//!
//! Nothing is known of what a generator will hand out, so every draw is
//! described by what holds of each of its outcomes.

use vstd::prelude::*;
use rand::rngs::StdRng;
use rand::seq::{IteratorRandom, SliceRandom};
use rand::{Rng, SeedableRng};
use crate::crossover::valid_cut_points;

verus! {

/// The standard generator of the `rand` crate, carried through as it is.
#[verifier::external_type_specification]
#[verifier::external_body]
pub struct ExStdRng(rand::rngs::StdRng);

/// Calls `SeedableRng::seed_from_u64` of `StdRng`. Nothing is claimed of
/// the generator that comes back.
#[verifier::external_body]
fn seeded_rng(seed: u64) -> StdRng {
    StdRng::seed_from_u64(seed)
}

/// Calls `SeedableRng::from_entropy` of `StdRng`, which asks the operating
/// system for a seed and gives up where the system has none to give.
/// Nothing is claimed of the generator that comes back.
#[verifier::external_body]
fn entropy_rng() -> StdRng {
    StdRng::from_entropy()
}

/// Calls `IteratorRandom::choose_multiple` on `0..n`. The call hands back
/// `amount` of the numbers `0..n`, or all of them where they are fewer,
/// and none of them twice; which ones, and in which order, is left open.
/// It sets room for `amount` numbers aside before it draws, so `amount`
/// is kept to what a vector can hold on every machine.
#[verifier::external_body]
fn choose_positions(rng: &mut StdRng, n: usize, amount: usize) -> (picked: Vec<usize>)
    requires
        amount <= 0x0fff_ffff,
    ensures
        picked@.len() == (if amount <= n { amount } else { n }),
        forall|a: int| 0 <= a < picked@.len() ==> (#[trigger] picked@[a]) < n,
        forall|a: int, b: int| 0 <= a < b < picked@.len() ==> picked@[a] != picked@[b],
{
    (0..n).choose_multiple(rng, amount)
}

/// Calls `Rng::gen_range` on `0..bound`, which hands back a number of
/// that range and has nothing to hand back from an empty one.
#[verifier::external_body]
pub(crate) fn draw_below(rng: &mut StdRng, bound: usize) -> (drawn: usize)
    requires
        bound > 0,
    ensures
        drawn < bound,
{
    rng.gen_range(0..bound)
}

/// `picked` holds the items that `items` holds at `places`, and no place
/// occurs twice.
pub open spec fn picked_at(items: Seq<usize>, picked: Seq<usize>, places: Seq<int>) -> bool {
    &&& places.len() == picked.len()
    &&& places.no_duplicates()
    &&& forall|t: int|
        0 <= t < places.len() ==> 0 <= #[trigger] places[t] < items.len() && picked[t]
            == items[places[t]]
}

/// Calls `SliceRandom::choose_multiple` and copies what it chose. The
/// call picks `amount` distinct places of `items`, or all of them where
/// they are fewer, and hands back the items at those places; which
/// places, and in which order, is left open. Of more than `u32::MAX`
/// items it picks by drawing places again until they differ, and takes
/// for granted that fewer places are asked for than there are: so of that
/// many items, fewer are asked for than there are.
#[verifier::external_body]
pub(crate) fn sample_items(
    rng: &mut StdRng,
    items: &Vec<usize>,
    amount: usize,
) -> (picked: Vec<usize>)
    requires
        items@.len() <= 0xffff_ffff || amount < items@.len(),
    ensures
        picked@.len() == (if amount <= items@.len() { amount as nat } else { items@.len() }),
        exists|places: Seq<int>| picked_at(items@, picked@, places),
{
    items.choose_multiple(rng, amount).copied().collect()
}

/// Calls `SliceRandom::shuffle` on the places `lo..=hi` of `items`. The
/// call swaps items of that stretch among themselves: the stretch holds
/// afterwards what it held before, each item as often as before, and
/// nothing outside it moves.
#[verifier::external_body]
pub(crate) fn shuffle_between<T>(rng: &mut StdRng, items: &mut Vec<T>, lo: usize, hi: usize)
    requires
        lo <= hi < old(items)@.len(),
    ensures
        final(items)@.len() == old(items)@.len(),
        final(items)@.subrange(0, lo as int) == old(items)@.subrange(0, lo as int),
        final(items)@.subrange(hi + 1, old(items)@.len() as int) == old(items)@.subrange(
            hi + 1,
            old(items)@.len() as int,
        ),
        final(items)@.subrange(lo as int, hi + 1).to_multiset() == old(items)@.subrange(
            lo as int,
            hi + 1,
        ).to_multiset(),
{
    items[lo..=hi].shuffle(rng)
}

/// A generator for one run of an operator: seeded with `seed` where there
/// is one, so that the run can be repeated, and from the operating
/// system's entropy where there is none.
pub fn rng_from_seed(seed: Option<u64>) -> StdRng {
    match seed {
        Some(value) => seeded_rng(value),
        None => entropy_rng(),
    }
}

/// The cut points that the positions drawn stand for: the first two of
/// them in ascending order, or the only one twice; none where nothing was
/// drawn.
pub open spec fn cut_points_of(picked: Seq<usize>) -> Option<(usize, usize)> {
    if picked.len() == 0 {
        None
    } else if picked.len() == 1 {
        Some((picked[0], picked[0]))
    } else if picked[0] < picked[1] {
        Some((picked[0], picked[1]))
    } else {
        Some((picked[1], picked[0]))
    }
}

/// Puts the positions drawn in order as cut points.
pub fn ordered_cut_points(picked: &Vec<usize>) -> (cut: Option<(usize, usize)>)
    ensures
        cut == cut_points_of(picked@),
{
    if picked.len() == 0 {
        None
    } else if picked.len() == 1 {
        Some((picked[0], picked[0]))
    } else if picked[0] < picked[1] {
        Some((picked[0], picked[1]))
    } else {
        Some((picked[1], picked[0]))
    }
}

/// Draws the cut points of a genotype of length `n`: two distinct
/// positions in ascending order, or the one position twice where the
/// genotype has no second one. A genotype without positions has no cut
/// points.
pub fn draw_cut_points(rng: &mut StdRng, n: usize) -> (cut: Option<(usize, usize)>)
    ensures
        cut is None <==> n == 0,
        cut matches Some(points) ==> valid_cut_points(n as nat, points.0 as int, points.1 as int),
        cut matches Some(points) ==> (n >= 2 ==> points.0 < points.1),
{
    let picked = choose_positions(rng, n, 2);
    ordered_cut_points(&picked)
}

} // verus!
