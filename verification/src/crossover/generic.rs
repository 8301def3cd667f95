//! The crossover operators as values that an algorithm can be configured
//! with.

use vstd::prelude::*;
use crate::operator::GeneticOperator;

verus! {

/// Crossover at a single cut point.
#[derive(Clone, Debug, PartialEq)]
pub struct SinglePointCrossBreeder {}

impl SinglePointCrossBreeder {
    pub fn new() -> (breeder: Self)
        ensures
            breeder == (SinglePointCrossBreeder {  }),
    {
        SinglePointCrossBreeder {  }
    }
}

impl GeneticOperator for SinglePointCrossBreeder {
    fn name() -> (name: String)
        ensures
            name@ == "Single-Point-Cross-Breeder"@,
    {
        "Single-Point-Cross-Breeder".to_owned()
    }
}

/// Crossover at a number of cut points that the operator is made with.
#[derive(Clone, Debug, PartialEq)]
pub struct MultiPointCrossBreeder {
    num_cut_points: usize,
}

impl View for MultiPointCrossBreeder {
    type V = usize;

    /// The number of cut points.
    closed spec fn view(&self) -> usize {
        self.num_cut_points
    }
}

impl MultiPointCrossBreeder {
    pub fn new(num_cut_points: usize) -> (breeder: Self)
        ensures
            breeder@ == num_cut_points,
    {
        MultiPointCrossBreeder { num_cut_points }
    }

    /// Returns the number of cut points used by this operator.
    pub fn num_cut_points(&self) -> (n: usize)
        ensures
            n == self@,
    {
        self.num_cut_points
    }

    /// Sets the number of cut points used by this operator to the given value.
    pub fn set_num_cut_points(&mut self, value: usize)
        ensures
            final(self)@ == value,
    {
        self.num_cut_points = value;
    }
}

impl GeneticOperator for MultiPointCrossBreeder {
    fn name() -> (name: String)
        ensures
            name@ == "Multi-Point-Cross-Breeder"@,
    {
        "Multi-Point-Cross-Breeder".to_owned()
    }
}

/// Crossover at a single cut point of the shuffled parents.
#[derive(Clone, Debug, PartialEq)]
pub struct ShuffleCrossBreeder {}

impl ShuffleCrossBreeder {
    pub fn new() -> (breeder: Self)
        ensures
            breeder == (ShuffleCrossBreeder {  }),
    {
        ShuffleCrossBreeder {  }
    }
}

impl GeneticOperator for ShuffleCrossBreeder {
    fn name() -> (name: String)
        ensures
            name@ == "Shuffle-Cross-Breeder"@,
    {
        "Shuffle-Cross-Breeder".to_owned()
    }
}

} // verus!
