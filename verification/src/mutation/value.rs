//! Mutation operators for value encoded genotypes, as values that an
//! algorithm can be configured with.

use vstd::prelude::*;
use crate::operator::GeneticOperator;

verus! {

/// Random mutation moves a value encoded genotype by a random share of
/// the perturbation factor that the operator is made with. A large factor
/// makes for stark mutations.
#[derive(Debug, Clone)]
pub struct RandomMutation<G> {
    perturbation_factor: G,
}

impl<G> View for RandomMutation<G> {
    type V = G;

    /// The perturbation factor.
    closed spec fn view(&self) -> G {
        self.perturbation_factor
    }
}

impl<G> RandomMutation<G> {
    pub fn new(perturbation_factor: G) -> (mutation: Self)
        ensures
            mutation@ == perturbation_factor,
    {
        RandomMutation { perturbation_factor }
    }

    pub fn perturbation_factor(&self) -> (factor: &G)
        ensures
            *factor == self@,
    {
        &self.perturbation_factor
    }

    pub fn set_perturbation_factor(&mut self, perturbation_factor: G)
        ensures
            final(self)@ == perturbation_factor,
    {
        self.perturbation_factor = perturbation_factor;
    }
}

impl<G: Clone> GeneticOperator for RandomMutation<G> {
    fn name() -> (name: String)
        ensures
            name@ == "Random-Mutation"@,
    {
        "Random-Mutation".to_owned()
    }
}

} // verus!
