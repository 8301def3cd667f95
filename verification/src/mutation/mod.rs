//! Mutation operators: one genotype in, changed in place.

pub mod binary;

pub mod inversion;

pub mod order;

pub mod scramble;

pub mod swap;

pub mod value;

pub use self::binary::InversionMutation;

pub use self::inversion::{inversion_mutation, inversion_mutation_at};

pub use self::order::ScrambleMutation;

pub use self::scramble::scramble_mutation;

pub use self::swap::{swap_mutation, swap_mutation_at};

pub use self::value::RandomMutation;
