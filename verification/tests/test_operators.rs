use genx::crossover::{MultiPointCrossBreeder, ShuffleCrossBreeder, SinglePointCrossBreeder};
use genx::encoding::PermutationEncoded;
use genx::mutation::{InversionMutation, RandomMutation, ScrambleMutation};
use genx::operator::GeneticOperator;

#[test]
fn operators_have_names() {
    assert_eq!(SinglePointCrossBreeder::name(), "Single-Point-Cross-Breeder");
    assert_eq!(MultiPointCrossBreeder::name(), "Multi-Point-Cross-Breeder");
    assert_eq!(ShuffleCrossBreeder::name(), "Shuffle-Cross-Breeder");
    assert_eq!(InversionMutation::name(), "Inversion-Mutation");
    assert_eq!(ScrambleMutation::name(), "Scramble-Mutation");
    assert_eq!(RandomMutation::<u32>::name(), "Random-Mutation");
}

#[test]
fn breeders_compare_by_their_settings() {
    assert_eq!(SinglePointCrossBreeder::new(), SinglePointCrossBreeder::new());
    assert_eq!(ShuffleCrossBreeder::new(), ShuffleCrossBreeder::new());
    assert_eq!(MultiPointCrossBreeder::new(3), MultiPointCrossBreeder::new(3));
    assert_ne!(MultiPointCrossBreeder::new(3), MultiPointCrossBreeder::new(4));
}

#[test]
fn multi_point_cross_breeder_keeps_its_number_of_cut_points() {
    let mut breeder = MultiPointCrossBreeder::new(3);
    assert_eq!(breeder.num_cut_points(), 3);
    breeder.set_num_cut_points(7);
    assert_eq!(breeder.num_cut_points(), 7);
    assert_eq!(breeder.clone().num_cut_points(), 7);
}

#[test]
fn random_mutation_keeps_its_perturbation_factor() {
    let mut mutation = RandomMutation::new(5u32);
    assert_eq!(*mutation.perturbation_factor(), 5);
    mutation.set_perturbation_factor(9);
    assert_eq!(*mutation.perturbation_factor(), 9);
    let mut scaled = RandomMutation::new(2.5f64);
    assert_eq!(*scaled.perturbation_factor(), 2.5);
    scaled.set_perturbation_factor(0.5);
    assert_eq!(*scaled.perturbation_factor(), 0.5);
}

#[test]
fn permutation_encoding_checks_the_values() {
    assert!(vec![2usize, 0, 1].check_continuous());
    assert!(Vec::<usize>::new().check_continuous());
    assert!(!vec![2usize, 0, 2].check_continuous());
    assert!(!vec![3usize, 0, 1].check_continuous());
}
