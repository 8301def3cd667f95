//! Crossover operators: two parents in, two children out.
//!
//! The operators for order-encoded genotypes are `cycle`, `order`,
//! `partially_mapped` and `uniform_partially_mapped`. Each of them first
//! checks its parents and rejects a pair that differs in length or holds a
//! sequence that is no permutation of `0..n`; after that check it cannot
//! fail, and both children are permutations of `0..n` again.

use vstd::prelude::*;
use crate::permutation::is_permutation;

pub mod cycle;

pub mod generic;

pub mod multi_point;

pub mod order;

pub mod partially_mapped;

pub mod shuffle;

pub mod single_point;

pub mod uniform_partially_mapped;

pub use crate::permutation::check_continuous;

pub use self::cycle::{cycle_child, cycle_crossover};

pub use self::generic::{MultiPointCrossBreeder, ShuffleCrossBreeder, SinglePointCrossBreeder};

pub use self::multi_point::{multi_point_crossover, multi_point_crossover_at};

pub use self::order::{order_crossover, order_crossover_at, ox_child};

pub use self::partially_mapped::{
    partially_mapped_crossover, partially_mapped_crossover_at, pmx_children,
};

pub use self::shuffle::shuffle_crossover;

pub use self::single_point::{single_point_crossover, single_point_crossover_at};

pub use self::uniform_partially_mapped::{
    uniform_partially_mapped_crossover, uniform_partially_mapped_crossover_at, upmx_children,
};

verus! {

/// Why a pair of parents was rejected.
#[derive(Clone, Copy, Debug, PartialEq, Eq, Structural)]
pub enum CrossoverError {
    /// The two parents differ in length.
    LengthMismatch,
    /// A parent repeats a value or holds one outside `0..n`.
    InvalidPermutation,
}

/// The error that a pair of order-encoded parents is rejected with, if any:
/// the lengths are compared first.
pub open spec fn rejection(parent1: Seq<usize>, parent2: Seq<usize>) -> Option<CrossoverError> {
    if parent1.len() != parent2.len() {
        Some(CrossoverError::LengthMismatch)
    } else if !is_permutation(parent1) || !is_permutation(parent2) {
        Some(CrossoverError::InvalidPermutation)
    } else {
        None
    }
}

/// Cut points `(i, j)` of a genotype of length `n` bound the inclusive
/// segment `i..=j`.
pub open spec fn valid_cut_points(n: nat, i: int, j: int) -> bool {
    0 <= i <= j < n
}

/// Accepts two genotypes of equal length.
pub fn check_length<T>(parent1: &Vec<T>, parent2: &Vec<T>) -> (r: Result<(), CrossoverError>)
    ensures
        r == if parent1.len() == parent2.len() {
            Ok::<(), CrossoverError>(())
        } else {
            Err::<(), CrossoverError>(CrossoverError::LengthMismatch)
        },
{
    if parent1.len() != parent2.len() {
        Err(CrossoverError::LengthMismatch)
    } else {
        Ok(())
    }
}

/// Accepts two permutations of equal length, and says why any other pair
/// is rejected.
pub fn check_parents(
    parent1: &Vec<usize>,
    parent2: &Vec<usize>,
) -> (r: Result<(), CrossoverError>)
    ensures
        r == match rejection(parent1@, parent2@) {
            Some(e) => Err::<(), CrossoverError>(e),
            None => Ok::<(), CrossoverError>(()),
        },
{
    match check_length(parent1, parent2) {
        Err(e) => Err(e),
        Ok(()) => {
            if check_continuous(parent1) && check_continuous(parent2) {
                Ok(())
            } else {
                Err(CrossoverError::InvalidPermutation)
            }
        },
    }
}

} // verus!
