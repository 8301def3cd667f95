//! Mutation operators for binary encoded genotypes, as values that an
//! algorithm can be configured with.

use vstd::prelude::*;
use crate::operator::GeneticOperator;

verus! {

/// Inversion mutation picks two positions of a binary encoded genotype at
/// random and inverts every gene between them.
#[derive(Debug, Clone)]
pub struct InversionMutation {}

impl GeneticOperator for InversionMutation {
    fn name() -> (name: String)
        ensures
            name@ == "Inversion-Mutation"@,
    {
        "Inversion-Mutation".to_owned()
    }
}

} // verus!
