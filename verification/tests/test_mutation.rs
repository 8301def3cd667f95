use genx::mutation::{
    inversion_mutation, inversion_mutation_at, scramble_mutation, swap_mutation,
    swap_mutation_at,
};

#[test]
fn test_inversion_mutation() {
    let mut individual = vec![false, true, false, false, true, true, true, false, true, true];
    let original_individual = individual.clone();
    inversion_mutation(&mut individual, Some(43));
    assert_eq!(individual, [false, true, false, false, false, false, false, true, true, true]);
    assert_ne!(original_individual, individual);
}

#[test]
fn test_scramble_mutation() {
    let mut individual =
        vec![false, true, false, false, true, true, true, false, false, true, false];
    let original_individual = individual.clone();
    scramble_mutation(&mut individual, Some(43));
    assert_eq!(
        individual,
        [false, true, false, false, true, false, false, true, true, true, false]
    );
    assert_ne!(original_individual, individual);
}

#[test]
fn test_swap_mutation_success() {
    let mut individual =
        vec![false, true, false, false, true, true, true, false, false, true, false];
    let original_individual = individual.clone();
    match swap_mutation(&mut individual, Some(43)) {
        Ok(_) => (),
        Err(error) => panic!("{:?}", error),
    };
    assert_eq!(
        individual,
        [false, true, false, false, true, true, true, false, true, false, false]
    );
    assert_ne!(original_individual, individual);
}

#[test]
#[should_panic]
fn test_swap_mutation_fail() {
    let mut individual = vec![false];
    match swap_mutation(&mut individual, Some(43)) {
        Ok(_) => (),
        Err(error) => panic!("{}", error),
    };
}

#[test]
fn inversion_mutation_at_given_positions() {
    let mut individual = vec![false, true, false, false, true];
    inversion_mutation_at(&mut individual, 1, 3);
    assert_eq!(individual, [false, false, true, true, true]);
    inversion_mutation_at(&mut individual, 0, 0);
    assert_eq!(individual, [true, false, true, true, true]);
    inversion_mutation_at(&mut individual, 0, 4);
    assert_eq!(individual, [false, true, false, false, false]);
}

#[test]
fn inversion_mutation_inverts_one_stretch() {
    for seed in 0..50u64 {
        let mut individual = vec![false; 12];
        inversion_mutation(&mut individual, Some(seed));
        let first = individual.iter().position(|&gene| gene).unwrap();
        let last = individual.iter().rposition(|&gene| gene).unwrap();
        for p in 0..12 {
            assert_eq!(individual[p], first <= p && p <= last);
        }
    }
    let mut single = vec![true];
    inversion_mutation(&mut single, None);
    assert_eq!(single, [false]);
}

#[test]
fn scramble_mutation_keeps_the_genes() {
    for seed in 0..50u64 {
        let mut individual =
            vec![false, true, false, false, true, true, true, false, false, true, false];
        let ones = individual.iter().filter(|&&gene| gene).count();
        scramble_mutation(&mut individual, Some(seed));
        assert_eq!(individual.len(), 11);
        assert_eq!(individual.iter().filter(|&&gene| gene).count(), ones);
    }
}

#[test]
fn swap_mutation_at_given_positions() {
    let mut individual = vec![10, 20, 30, 40];
    swap_mutation_at(&mut individual, 0, 3);
    assert_eq!(individual, [40, 20, 30, 10]);
    swap_mutation_at(&mut individual, 2, 2);
    assert_eq!(individual, [40, 20, 30, 10]);
    swap_mutation_at(&mut individual, 2, 1);
    assert_eq!(individual, [40, 30, 20, 10]);
}

#[test]
fn swap_mutation_lets_two_genes_trade_places() {
    for seed in 0..50u64 {
        let before: Vec<usize> = (0..9).collect();
        let mut individual = before.clone();
        assert_eq!(swap_mutation(&mut individual, Some(seed)), Ok(()));
        let moved: Vec<usize> = (0..9).filter(|&p| individual[p] != before[p]).collect();
        assert_eq!(moved.len(), 2);
        assert_eq!(individual[moved[0]], before[moved[1]]);
        assert_eq!(individual[moved[1]], before[moved[0]]);
    }
}

#[test]
fn swap_mutation_needs_two_genes() {
    let mut empty: Vec<u8> = vec![];
    assert_eq!(swap_mutation(&mut empty, Some(1)), Err("Need atleast two bits for swapping"));
    let mut single = vec![7u8];
    assert_eq!(swap_mutation(&mut single, None), Err("Need atleast two bits for swapping"));
    assert_eq!(single, [7]);
    let mut pair = vec![7u8, 9];
    assert_eq!(swap_mutation(&mut pair, Some(1)), Ok(()));
    assert_eq!(pair, [9, 7]);
}
