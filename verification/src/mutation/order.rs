//! Mutation operators for order encoded genotypes, as values that an
//! algorithm can be configured with.

use vstd::prelude::*;
use crate::operator::GeneticOperator;

verus! {

/// Scramble mutation picks two positions of a genotype at random and
/// shuffles the genes between them.
#[derive(Debug, Clone)]
pub struct ScrambleMutation {}

impl GeneticOperator for ScrambleMutation {
    fn name() -> (name: String)
        ensures
            name@ == "Scramble-Mutation"@,
    {
        "Scramble-Mutation".to_owned()
    }
}

} // verus!
