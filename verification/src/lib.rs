//! Building blocks for genetic algorithms.
//!
//! The heart of the crate is the family of crossover operators for
//! order-encoded genotypes in [`crossover`]: cycle crossover, order
//! crossover, partially mapped crossover and its uniform variant. Every
//! child they produce is again a permutation of `0..n`, and each
//! operator's contract says exactly which permutation it is.
//!
//! Beside them stand the crossover operators for binary genotypes, the
//! mutation operators in [`mutation`] that move, invert or swap genes, and
//! the traits in [`operator`] and [`encoding`] that an algorithm is put
//! together with. The generator that the operators draw from comes from
//! the `rand` crate; [`random`] says what is relied on of it, and
//! [`permutation`] holds the facts about permutations that the proofs
//! rest on.

pub mod crossover;
pub mod encoding;
pub mod mutation;
pub mod operator;
pub mod permutation;
pub mod random;
