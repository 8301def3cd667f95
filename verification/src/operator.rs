//! The traits that every genetic operator of this crate implements.

use vstd::prelude::*;

verus! {

/// Marker trait for genetic operators and functions that are used for
/// single-objective optimization.
pub trait SingleObjective {

}

/// A genetic operator guides the algorithm towards a solution of a given
/// problem. The main kinds of operators are selection, crossover and
/// mutation.
pub trait GeneticOperator: Clone {
    /// The name of the operator, for display: the method first, the kind
    /// of operator second, as in "Flip-Bit-Mutation".
    fn name() -> String;
}

} // verus!
