use genx::crossover::{
    check_length, check_parents, cycle_crossover, order_crossover, order_crossover_at,
    partially_mapped_crossover, partially_mapped_crossover_at,
    uniform_partially_mapped_crossover, uniform_partially_mapped_crossover_at, CrossoverError,
};
use genx::random::{draw_cut_points, ordered_cut_points, rng_from_seed};
use genx::permutation::{check_continuous, position_index};

fn parents() -> (Vec<usize>, Vec<usize>) {
    (vec![1, 3, 4, 7, 0, 2, 6, 5], vec![2, 3, 4, 0, 7, 6, 1, 5])
}

#[test]
fn validator_accepts_permutations() {
    assert!(check_continuous(&vec![]));
    assert!(check_continuous(&vec![0]));
    assert!(check_continuous(&vec![1, 3, 4, 7, 0, 2, 6, 5]));
    assert!(check_continuous(&vec![2, 1, 0]));
}

#[test]
fn validator_rejects_duplicates_and_values_out_of_range() {
    assert!(!check_continuous(&vec![1]));
    assert!(!check_continuous(&vec![0, 0]));
    assert!(!check_continuous(&vec![0, 1, 1]));
    assert!(!check_continuous(&vec![0, 1, 3]));
    assert!(!check_continuous(&vec![1, 2, 3]));
    assert!(!check_continuous(&vec![usize::MAX, 0]));
}

#[test]
fn position_index_inverts_a_permutation() {
    let perm = vec![1, 3, 4, 7, 0, 2, 6, 5];
    let index = position_index(&perm);
    assert_eq!(index, vec![4, 0, 5, 1, 2, 7, 6, 3]);
    for (position, &value) in perm.iter().enumerate() {
        assert_eq!(index[value], position);
    }
}

#[test]
fn lengths_are_compared_first() {
    assert_eq!(check_length(&vec![1u8, 2], &vec![3u8, 4]), Ok(()));
    assert_eq!(check_length(&vec![1u8, 2], &vec![3u8]), Err(CrossoverError::LengthMismatch));
    assert_eq!(check_parents(&vec![0, 0], &vec![0]), Err(CrossoverError::LengthMismatch));
    assert_eq!(check_parents(&vec![0, 0], &vec![0, 1]), Err(CrossoverError::InvalidPermutation));
    assert_eq!(check_parents(&vec![0, 1], &vec![2, 1]), Err(CrossoverError::InvalidPermutation));
    assert_eq!(check_parents(&vec![1, 0], &vec![0, 1]), Ok(()));
}

#[test]
fn every_operator_rejects_parents_of_different_length() {
    let a = vec![0, 1, 2];
    let b = vec![0, 1];
    let e = Err(CrossoverError::LengthMismatch);
    assert_eq!(cycle_crossover(&a, &b), e);
    assert_eq!(order_crossover(&a, &b, Some(1)), e);
    assert_eq!(order_crossover_at(&a, &b, 0, 1), e);
    assert_eq!(partially_mapped_crossover(&a, &b, Some(1)), e);
    assert_eq!(partially_mapped_crossover_at(&a, &b, 0, 1), e);
    assert_eq!(uniform_partially_mapped_crossover_at(&a, &b, 0, 1, &vec![true, true]), e);
}

#[test]
fn every_operator_rejects_a_parent_that_is_no_permutation() {
    let good = vec![0, 1, 2];
    let twice = vec![0, 1, 1];
    let beyond = vec![0, 1, 3];
    let e = Err(CrossoverError::InvalidPermutation);
    assert_eq!(cycle_crossover(&good, &twice), e);
    assert_eq!(cycle_crossover(&beyond, &good), e);
    assert_eq!(order_crossover(&twice, &good, None), e);
    assert_eq!(order_crossover_at(&good, &beyond, 1, 2), e);
    assert_eq!(partially_mapped_crossover(&good, &twice, Some(7)), e);
    assert_eq!(partially_mapped_crossover_at(&beyond, &good, 0, 0), e);
    assert_eq!(uniform_partially_mapped_crossover_at(&good, &twice, 0, 2, &vec![true]), e);
}

#[test]
fn cycle_crossover_copies_the_cycle_through_position_zero() {
    let (parent1, parent2) = parents();
    let (child1, child2) = cycle_crossover(&parent1, &parent2).unwrap();
    assert_eq!(child1, vec![1, 3, 4, 0, 7, 2, 6, 5]);
    assert_eq!(child2, vec![2, 3, 4, 7, 0, 6, 1, 5]);
    assert!(check_continuous(&child1));
    assert!(check_continuous(&child2));
    // The cycle through position 0 is 0 -> 5 -> 6 -> 0.
    for position in 0..8 {
        if position == 0 || position == 5 || position == 6 {
            assert_eq!(child1[position], parent1[position]);
            assert_eq!(child2[position], parent2[position]);
        } else {
            assert_eq!(child1[position], parent2[position]);
            assert_eq!(child2[position], parent1[position]);
        }
    }
}

#[test]
fn cycle_crossover_with_a_cycle_over_all_positions_returns_the_parents() {
    let parent1 = vec![0, 1, 2];
    let parent2 = vec![1, 2, 0];
    assert_eq!(cycle_crossover(&parent1, &parent2), Ok((vec![0, 1, 2], vec![1, 2, 0])));
}

#[test]
fn cycle_crossover_of_small_parents() {
    assert_eq!(cycle_crossover(&vec![0], &vec![0]), Ok((vec![0], vec![0])));
    assert_eq!(cycle_crossover(&vec![], &vec![]), Ok((vec![], vec![])));
    assert_eq!(
        cycle_crossover(&vec![0, 1, 2, 3], &vec![1, 0, 3, 2]),
        Ok((vec![0, 1, 3, 2], vec![1, 0, 2, 3]))
    );
    assert_eq!(
        cycle_crossover(&vec![2, 0, 1, 3], &vec![2, 1, 0, 3]),
        Ok((vec![2, 1, 0, 3], vec![2, 0, 1, 3]))
    );
}

#[test]
fn order_crossover_keeps_the_segment_and_the_relative_order() {
    let (parent1, parent2) = parents();
    let (child1, child2) = order_crossover_at(&parent1, &parent2, 2, 5).unwrap();
    assert_eq!(&child1[2..=5], &[4, 0, 7, 6]);
    assert_eq!(&child2[2..=5], &[4, 7, 0, 2]);
    assert_eq!(child1, vec![3, 2, 4, 0, 7, 6, 5, 1]);
    assert_eq!(child2, vec![3, 6, 4, 7, 0, 2, 1, 5]);
    assert!(check_continuous(&child1));
    assert!(check_continuous(&child2));
}

#[test]
fn order_crossover_at_the_edges() {
    let (parent1, parent2) = parents();
    assert_eq!(
        order_crossover_at(&parent1, &parent2, 0, 0),
        Ok((vec![2, 3, 4, 7, 0, 6, 5, 1], vec![1, 3, 4, 0, 7, 6, 5, 2]))
    );
    assert_eq!(
        order_crossover_at(&parent1, &parent2, 7, 7),
        Ok((parent1.clone(), parent2.clone()))
    );
    assert_eq!(
        order_crossover_at(&parent1, &parent2, 3, 6),
        Ok((vec![3, 4, 2, 0, 7, 6, 1, 5], vec![3, 4, 1, 7, 0, 2, 6, 5]))
    );
    assert_eq!(order_crossover_at(&vec![0], &vec![0], 0, 0), Ok((vec![0], vec![0])));
}

#[test]
fn order_crossover_over_the_whole_genotype_copies_the_donor() {
    let (parent1, parent2) = parents();
    assert_eq!(
        order_crossover_at(&parent1, &parent2, 0, 7),
        Ok((parent2.clone(), parent1.clone()))
    );
}

#[test]
fn partially_mapped_crossover_of_a_single_gene() {
    assert_eq!(partially_mapped_crossover_at(&vec![0], &vec![0], 0, 0), Ok((vec![0], vec![0])));
    assert_eq!(partially_mapped_crossover(&vec![0], &vec![0], Some(3)), Ok((vec![0], vec![0])));
    assert_eq!(partially_mapped_crossover(&vec![0], &vec![0], None), Ok((vec![0], vec![0])));
}

#[test]
fn partially_mapped_crossover_trades_and_repairs() {
    let (parent1, parent2) = parents();
    assert_eq!(
        partially_mapped_crossover_at(&parent1, &parent2, 3, 3),
        Ok((vec![1, 3, 4, 0, 7, 2, 6, 5], vec![2, 3, 4, 7, 0, 6, 1, 5]))
    );
    assert_eq!(
        partially_mapped_crossover_at(&parent1, &parent2, 2, 5),
        Ok((vec![1, 3, 4, 7, 0, 6, 2, 5], vec![6, 3, 4, 0, 7, 2, 1, 5]))
    );
    assert_eq!(
        partially_mapped_crossover_at(&vec![0, 1, 2], &vec![1, 2, 0], 0, 1),
        Ok((vec![1, 2, 0], vec![2, 0, 1]))
    );
}

#[test]
fn partially_mapped_crossover_over_one_position_undoes_itself() {
    let (parent1, parent2) = parents();
    for k in 0..8 {
        let (child1, child2) = partially_mapped_crossover_at(&parent1, &parent2, k, k).unwrap();
        assert_eq!(
            partially_mapped_crossover_at(&child1, &child2, k, k),
            Ok((parent1.clone(), parent2.clone()))
        );
        assert_eq!(
            partially_mapped_crossover_at(&child2, &child1, k, k),
            Ok((parent2.clone(), parent1.clone()))
        );
    }
}

#[test]
fn partially_mapped_crossover_over_more_positions_need_not_undo_itself() {
    let (child1, child2) =
        partially_mapped_crossover_at(&vec![0, 1, 2], &vec![1, 2, 0], 0, 1).unwrap();
    assert_eq!(
        partially_mapped_crossover_at(&child1, &child2, 0, 1),
        Ok((vec![2, 0, 1], vec![0, 1, 2]))
    );
}

#[test]
fn partially_mapped_crossover_with_swapped_parents_swaps_the_children() {
    let (parent1, parent2) = parents();
    let (child1, child2) = partially_mapped_crossover_at(&parent1, &parent2, 1, 6).unwrap();
    assert_eq!(partially_mapped_crossover_at(&parent2, &parent1, 1, 6), Ok((child2, child1)));
}

#[test]
fn uniform_partially_mapped_crossover_without_a_swap_returns_the_parents() {
    let (parent1, parent2) = parents();
    assert_eq!(
        uniform_partially_mapped_crossover_at(&parent1, &parent2, 2, 5, &vec![false; 4]),
        Ok((parent1.clone(), parent2.clone()))
    );
    assert_eq!(
        uniform_partially_mapped_crossover_at(&parent1, &parent2, 2, 5, &vec![]),
        Ok((parent1.clone(), parent2.clone()))
    );
}

#[test]
fn uniform_partially_mapped_crossover_with_every_swap_is_partially_mapped_crossover() {
    let (parent1, parent2) = parents();
    for i in 0..8 {
        for j in i..8 {
            assert_eq!(
                uniform_partially_mapped_crossover_at(&parent1, &parent2, i, j, &vec![true; 8]),
                partially_mapped_crossover_at(&parent1, &parent2, i, j)
            );
        }
    }
}

#[test]
fn uniform_partially_mapped_crossover_takes_the_steps_decided_for() {
    let (parent1, parent2) = parents();
    assert_eq!(
        uniform_partially_mapped_crossover_at(
            &parent1,
            &parent2,
            2,
            5,
            &vec![true, false, true, false]
        ),
        Ok((vec![1, 3, 4, 0, 7, 2, 6, 5], vec![2, 3, 4, 7, 0, 6, 1, 5]))
    );
    assert_eq!(
        uniform_partially_mapped_crossover_at(&parent1, &parent2, 2, 5, &vec![true]),
        Ok((parent1.clone(), parent2.clone()))
    );
}

#[test]
fn children_are_permutations_at_all_cut_points() {
    let (parent1, parent2) = parents();
    for i in 0..8 {
        for j in i..8 {
            let (a, b) = order_crossover_at(&parent1, &parent2, i, j).unwrap();
            assert!(check_continuous(&a) && check_continuous(&b));
            assert_eq!((a.len(), b.len()), (8, 8));
            assert_eq!(&a[i..=j], &parent2[i..=j]);
            assert_eq!(&b[i..=j], &parent1[i..=j]);
            let (a, b) = partially_mapped_crossover_at(&parent1, &parent2, i, j).unwrap();
            assert!(check_continuous(&a) && check_continuous(&b));
            assert_eq!((a.len(), b.len()), (8, 8));
        }
    }
}

#[test]
fn equal_parents_come_back_unchanged() {
    let parent = vec![1, 3, 4, 7, 0, 2, 6, 5];
    let both = Ok((parent.clone(), parent.clone()));
    assert_eq!(cycle_crossover(&parent, &parent), both);
    assert_eq!(order_crossover(&parent, &parent, Some(5)), both);
    assert_eq!(partially_mapped_crossover(&parent, &parent, Some(5)), both);
    for i in 0..8 {
        for j in i..8 {
            assert_eq!(order_crossover_at(&parent, &parent, i, j), both);
            assert_eq!(partially_mapped_crossover_at(&parent, &parent, i, j), both);
            assert_eq!(
                uniform_partially_mapped_crossover_at(&parent, &parent, i, j, &vec![true; 8]),
                both
            );
        }
    }
}

#[test]
fn drawn_cut_points_give_valid_children() {
    let (parent1, parent2) = parents();
    for seed in 0..40u64 {
        let (a, b) = order_crossover(&parent1, &parent2, Some(seed)).unwrap();
        assert!(check_continuous(&a) && check_continuous(&b));
        let mut found = false;
        for i in 0..8 {
            for j in (i + 1)..8 {
                if order_crossover_at(&parent1, &parent2, i, j) == Ok((a.clone(), b.clone())) {
                    found = true;
                }
            }
        }
        assert!(found);
        let (a, b) = partially_mapped_crossover(&parent1, &parent2, Some(seed)).unwrap();
        assert!(check_continuous(&a) && check_continuous(&b));
        let mut found = false;
        for i in 0..8 {
            for j in (i + 1)..8 {
                if partially_mapped_crossover_at(&parent1, &parent2, i, j)
                    == Ok((a.clone(), b.clone()))
                {
                    found = true;
                }
            }
        }
        assert!(found);
    }
    let (a, b) = order_crossover(&parent1, &parent2, None).unwrap();
    assert!(check_continuous(&a) && check_continuous(&b));
}

#[test]
fn a_seed_makes_a_run_repeatable() {
    let (parent1, parent2) = parents();
    assert_eq!(
        order_crossover(&parent1, &parent2, Some(42)),
        order_crossover(&parent1, &parent2, Some(42))
    );
    assert_eq!(
        partially_mapped_crossover(&parent1, &parent2, Some(42)),
        partially_mapped_crossover(&parent1, &parent2, Some(42))
    );
}

#[test]
fn empty_parents_have_empty_children() {
    assert_eq!(order_crossover(&vec![], &vec![], Some(1)), Ok((vec![], vec![])));
    assert_eq!(partially_mapped_crossover(&vec![], &vec![], Some(1)), Ok((vec![], vec![])));
}

#[test]
fn partially_mapped_crossover_undoes_itself_where_the_exchanges_commute() {
    // The pairs traded are {0, 1}, {1, 0}, {2, 3} and {3, 2}.
    let parent1 = vec![0, 1, 2, 3, 4];
    let parent2 = vec![1, 0, 3, 2, 4];
    for i in 0..5 {
        for j in i..5 {
            let (child1, child2) =
                partially_mapped_crossover_at(&parent1, &parent2, i, j).unwrap();
            assert_eq!(
                partially_mapped_crossover_at(&child1, &child2, i, j),
                Ok((parent1.clone(), parent2.clone()))
            );
            assert_eq!(
                partially_mapped_crossover_at(&child2, &child1, i, j),
                Ok((parent2.clone(), parent1.clone()))
            );
        }
    }
    // The pairs traded are {1, 2}, {3, 0} and {4, 5}: no value in common.
    let parent1 = vec![1, 3, 4, 0, 2, 5];
    let parent2 = vec![2, 0, 5, 3, 4, 1];
    let (child1, child2) = partially_mapped_crossover_at(&parent1, &parent2, 0, 2).unwrap();
    assert_eq!((child1.clone(), child2.clone()), (vec![2, 0, 5, 3, 1, 4], vec![1, 3, 4, 0, 5, 2]));
    assert_eq!(
        partially_mapped_crossover_at(&child1, &child2, 0, 2),
        Ok((parent1.clone(), parent2.clone()))
    );
}

#[test]
fn cycle_crossover_takes_every_position_from_one_parent() {
    let pairs = vec![
        (vec![1, 3, 4, 7, 0, 2, 6, 5], vec![2, 3, 4, 0, 7, 6, 1, 5]),
        (vec![0, 1, 2, 3, 4], vec![4, 3, 2, 1, 0]),
        (vec![3, 0, 1, 2], vec![0, 1, 2, 3]),
        (vec![2, 0, 1, 3], vec![2, 1, 0, 3]),
    ];
    for (parent1, parent2) in pairs {
        let n = parent1.len();
        let (child1, child2) = cycle_crossover(&parent1, &parent2).unwrap();
        assert!(check_continuous(&child1) && check_continuous(&child2));
        // Walk the cycle through position 0.
        let index1 = position_index(&parent1);
        let mut on_cycle = vec![false; n];
        let mut position = 0;
        while !on_cycle[position] {
            on_cycle[position] = true;
            position = index1[parent2[position]];
        }
        let mut written = 0;
        let mut kept = 0;
        for p in 0..n {
            if on_cycle[p] {
                assert_eq!(child1[p], parent1[p]);
                assert_eq!(child2[p], parent2[p]);
                written += 1;
            } else {
                assert_eq!(child1[p], parent2[p]);
                assert_eq!(child2[p], parent1[p]);
                kept += 1;
            }
        }
        assert_eq!(written + kept, n);
        assert!(on_cycle[0]);
    }
}

#[test]
fn seeded_runs_draw_the_same_cut_points_for_both_operators() {
    let (parent1, parent2) = parents();
    // Seed 7 draws the cut points (4, 5), seed 42 the cut points (3, 4).
    assert_eq!(
        order_crossover(&parent1, &parent2, Some(7)),
        Ok((vec![3, 4, 0, 2, 7, 6, 5, 1], vec![3, 4, 7, 6, 0, 2, 1, 5]))
    );
    assert_eq!(
        order_crossover(&parent1, &parent2, Some(7)),
        order_crossover_at(&parent1, &parent2, 4, 5)
    );
    assert_eq!(
        partially_mapped_crossover(&parent1, &parent2, Some(7)),
        Ok((vec![1, 3, 4, 0, 7, 6, 2, 5], vec![6, 3, 4, 7, 0, 2, 1, 5]))
    );
    assert_eq!(
        partially_mapped_crossover(&parent1, &parent2, Some(7)),
        partially_mapped_crossover_at(&parent1, &parent2, 4, 5)
    );
    assert_eq!(
        order_crossover(&parent1, &parent2, Some(42)),
        Ok((vec![1, 3, 4, 0, 7, 2, 6, 5], vec![2, 3, 4, 7, 0, 6, 1, 5]))
    );
    assert_eq!(
        partially_mapped_crossover(&parent1, &parent2, Some(42)),
        partially_mapped_crossover_at(&parent1, &parent2, 3, 4)
    );
}

#[test]
fn uniform_partially_mapped_crossover_draws_its_cut_points() {
    let (parent1, parent2) = parents();
    // Seed 7 draws the cut points (4, 5).
    assert_eq!(
        uniform_partially_mapped_crossover(&parent1, &parent2, &vec![true, true], Some(7)),
        partially_mapped_crossover_at(&parent1, &parent2, 4, 5)
    );
    assert_eq!(
        uniform_partially_mapped_crossover(&parent1, &parent2, &vec![true, false], Some(7)),
        partially_mapped_crossover_at(&parent1, &parent2, 4, 4)
    );
    assert_eq!(
        uniform_partially_mapped_crossover(&parent1, &parent2, &vec![false, true], Some(7)),
        partially_mapped_crossover_at(&parent1, &parent2, 5, 5)
    );
    assert_eq!(
        uniform_partially_mapped_crossover(&parent1, &parent2, &vec![], Some(7)),
        Ok((parent1.clone(), parent2.clone()))
    );
    for seed in 0..40u64 {
        let (a, b) =
            uniform_partially_mapped_crossover(&parent1, &parent2, &vec![true; 8], Some(seed))
                .unwrap();
        assert!(check_continuous(&a) && check_continuous(&b));
        assert_eq!(Ok((a, b)), partially_mapped_crossover(&parent1, &parent2, Some(seed)));
    }
    assert_eq!(
        uniform_partially_mapped_crossover(&vec![0], &vec![0], &vec![true], None),
        Ok((vec![0], vec![0]))
    );
    assert_eq!(
        uniform_partially_mapped_crossover(&vec![], &vec![], &vec![true], None),
        Ok((vec![], vec![]))
    );
    assert_eq!(
        uniform_partially_mapped_crossover(&vec![0, 1], &vec![0], &vec![true], Some(1)),
        Err(CrossoverError::LengthMismatch)
    );
    assert_eq!(
        uniform_partially_mapped_crossover(&vec![0, 1], &vec![0, 0], &vec![true], Some(1)),
        Err(CrossoverError::InvalidPermutation)
    );
}

#[test]
fn cut_points_are_positions_in_ascending_order() {
    for seed in 0..60u64 {
        let mut rng = rng_from_seed(Some(seed));
        assert_eq!(draw_cut_points(&mut rng, 0), None);
        assert_eq!(draw_cut_points(&mut rng, 1), Some((0, 0)));
        assert_eq!(draw_cut_points(&mut rng, 2), Some((0, 1)));
        let (i, j) = draw_cut_points(&mut rng, 9).unwrap();
        assert!(i < j && j < 9);
    }
    let mut rng = rng_from_seed(None);
    let (i, j) = draw_cut_points(&mut rng, 5).unwrap();
    assert!(i < j && j < 5);
    let mut first = rng_from_seed(Some(11));
    let mut second = rng_from_seed(Some(11));
    for n in 2..30 {
        assert_eq!(draw_cut_points(&mut first, n), draw_cut_points(&mut second, n));
    }
}

#[test]
fn positions_drawn_are_put_in_order() {
    assert_eq!(ordered_cut_points(&vec![]), None);
    assert_eq!(ordered_cut_points(&vec![4]), Some((4, 4)));
    assert_eq!(ordered_cut_points(&vec![2, 5]), Some((2, 5)));
    assert_eq!(ordered_cut_points(&vec![5, 2]), Some((2, 5)));
    assert_eq!(ordered_cut_points(&vec![3, 3]), Some((3, 3)));
}
