//! Marker traits that say how a genotype encodes a solution: as bits, as
//! values, or as a permutation.

use vstd::prelude::*;
use crate::permutation::{check_continuous, is_permutation};

verus! {

/// Marker trait for a binary encoded genotype.
pub trait BinaryEncoded {

}

/// Marker trait for a value encoded genotype.
pub trait ValueEncoded {

}

/// Marker trait for a permutation encoded genotype.
pub trait PermutationEncoded {
    /// Tells whether the genotype holds each of the values `0..n` once,
    /// where `n` is its length.
    fn check_continuous(&self) -> bool;
}

/// Binary encoding in a `Vec<bool>`.
impl BinaryEncoded for Vec<bool> {

}

/// Value encoding in a `Vec`.
impl<V> ValueEncoded for Vec<V> {

}

/// Permutation encoding in a `Vec<usize>`.
impl PermutationEncoded for Vec<usize> {
    fn check_continuous(&self) -> (ok: bool)
        ensures
            ok == is_permutation(self@),
    {
        check_continuous(self)
    }
}

} // verus!
