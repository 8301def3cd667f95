use genx::crossover::{
    multi_point_crossover, multi_point_crossover_at, shuffle_crossover, single_point_crossover,
    single_point_crossover_at,
};

#[test]
fn test_single_point_crossover() {
    let parent1 = vec![false, true, false, false, true, true, true, false, true, false, false];
    let parent2 = vec![true, true, false, true, false, true, false, true, true, false, true];
    let childs = single_point_crossover(&parent1, &parent2, Some(42));
    assert_eq!(childs.0.len(), childs.1.len());
    let mut idx: usize = 0;
    for (i, x) in childs.0.iter().enumerate() {
        if *x != parent1[i] {
            idx = i;
            break;
        }
    }
    let mut expected_child = Vec::new();
    for i in 0..childs.0.len() {
        if i < idx {
            expected_child.push(parent1[i]);
        } else {
            expected_child.push(parent2[i]);
        }
    }
    assert_eq!(childs.0, expected_child);
    for (i, x) in expected_child.iter_mut().enumerate() {
        if i < idx {
            *x = parent2[i];
        } else {
            *x = parent1[i];
        }
    }
    assert_eq!(childs.1, expected_child);
}

#[test]
fn test_multi_point_crossover() {
    let parent1 = vec![false, true, false, false, true, true, true, false, true, false, false];
    let parent2 = vec![true, true, false, true, false, true, false, true, true, false, true];
    let (child1, child2) = multi_point_crossover(&parent1, &parent2, 3, Some(42));
    assert_eq!(child1.len(), child2.len());
    assert_eq!(child1.len(), parent1.len());
    assert_eq!(child1, [false, true, false, true, false, true, true, false, true, false, true]);
    assert_eq!(child2, [true, true, false, false, true, true, false, true, true, false, false]);
}

#[test]
fn single_point_crossover_at_a_given_point() {
    let parent1 = vec![true, true, true, true];
    let parent2 = vec![false, false, false, false];
    assert_eq!(
        single_point_crossover_at(&parent1, &parent2, 0),
        (parent2.clone(), parent1.clone())
    );
    assert_eq!(
        single_point_crossover_at(&parent1, &parent2, 1),
        (vec![true, false, false, false], vec![false, true, true, true])
    );
    assert_eq!(
        single_point_crossover_at(&parent1, &parent2, 3),
        (vec![true, true, true, false], vec![false, false, false, true])
    );
    assert_eq!(
        single_point_crossover_at(&parent1, &parent2, 4),
        (parent1.clone(), parent2.clone())
    );
}

#[test]
fn single_point_crossover_trades_at_least_the_last_gene() {
    let parent1 = vec![true; 9];
    let parent2 = vec![false; 9];
    for seed in 0..50u64 {
        let (child1, child2) = single_point_crossover(&parent1, &parent2, Some(seed));
        assert_eq!(child1[8], false);
        assert_eq!(child2[8], true);
        let point = child1.iter().filter(|&&gene| gene).count();
        assert!(point < 9);
        assert_eq!((child1, child2), single_point_crossover_at(&parent1, &parent2, point));
    }
    let (child1, _) = single_point_crossover(&parent1, &parent2, None);
    assert_eq!(child1[8], false);
}

#[test]
fn multi_point_crossover_at_given_cut_points() {
    let parent1 = vec![true; 8];
    let parent2 = vec![false; 8];
    assert_eq!(
        multi_point_crossover_at(&parent1, &parent2, &vec![2, 5], 2),
        (
            vec![true, true, false, false, false, true, true, true],
            vec![false, false, true, true, true, false, false, false]
        )
    );
    assert_eq!(
        multi_point_crossover_at(&parent1, &parent2, &vec![0, 3, 4], 3),
        (
            vec![false, false, false, true, false, false, false, false],
            vec![true, true, true, false, true, true, true, true]
        )
    );
    assert_eq!(
        multi_point_crossover_at(&parent1, &parent2, &vec![], 0),
        (parent1.clone(), parent2.clone())
    );
}

#[test]
fn multi_point_crossover_behind_the_last_cut_point_goes_by_the_number_asked_for() {
    let parent1 = vec![true; 3];
    let parent2 = vec![false; 3];
    // Four cut points are asked for, three positions are there.
    assert_eq!(
        multi_point_crossover_at(&parent1, &parent2, &vec![0, 1, 2], 4),
        (vec![false, true, true], vec![true, false, false])
    );
    assert_eq!(
        multi_point_crossover(&parent1, &parent2, 4, Some(9)),
        (vec![false, true, true], vec![true, false, false])
    );
    assert_eq!(
        multi_point_crossover(&parent1, &parent2, 3, Some(9)),
        (vec![false, true, false], vec![true, false, true])
    );
}

#[test]
fn multi_point_crossover_changes_sides_at_each_cut_point() {
    let parent1 = vec![true; 12];
    let parent2 = vec![false; 12];
    for seed in 0..50u64 {
        for k in 0..5usize {
            let (child1, child2) = multi_point_crossover(&parent1, &parent2, k, Some(seed));
            assert_eq!(child1.len(), 12);
            let mut changes = Vec::new();
            for p in 1..12 {
                if child1[p] != child1[p - 1] {
                    changes.push(p);
                }
            }
            if !child1[0] {
                changes.insert(0, 0);
            }
            assert_eq!(changes.len(), k);
            assert_eq!((child1.clone(), child2.clone()),
                multi_point_crossover_at(&parent1, &parent2, &changes, k));
            for p in 0..12 {
                assert_eq!(child1[p], !child2[p]);
            }
        }
    }
}

#[test]
fn multi_point_crossover_of_empty_parents() {
    assert_eq!(multi_point_crossover(&vec![], &vec![], 3, Some(1)), (vec![], vec![]));
}

#[test]
fn shuffle_crossover_takes_each_gene_from_one_parent() {
    let parent1 = vec![true; 10];
    let parent2 = vec![false; 10];
    for seed in 0..50u64 {
        let (child1, child2) = shuffle_crossover(&parent1, &parent2, Some(seed));
        assert_eq!(child1.len(), 10);
        assert_eq!(child2.len(), 10);
        for p in 0..10 {
            assert_eq!(child1[p], !child2[p]);
        }
        // The crossover point is a position, so one gene at least is traded.
        assert!(child1.iter().any(|&gene| !gene));
    }
    let (child1, _) = shuffle_crossover(&parent1, &parent2, None);
    assert!(child1.iter().any(|&gene| !gene));
}

#[test]
fn shuffle_crossover_with_a_seed_is_repeatable() {
    let parent1 = vec![true, false, false, true, true, false, false, true];
    let parent2 = vec![true, true, true, false, true, false, true, true];
    assert_eq!(
        shuffle_crossover(&parent1, &parent2, Some(42)),
        shuffle_crossover(&parent1, &parent2, Some(42))
    );
    let (child1, child2) = shuffle_crossover(&parent1, &parent2, Some(42));
    for p in 0..8 {
        assert!(
            (child1[p] == parent1[p] && child2[p] == parent2[p])
                || (child1[p] == parent2[p] && child2[p] == parent1[p])
        );
    }
}

#[test]
fn seeded_runs_of_the_binary_operators() {
    let parent1 = vec![true, false, false, true, true, false, false, true];
    let parent2 = vec![true, true, true, false, true, false, true, true];
    assert_eq!(
        single_point_crossover(&parent1, &parent2, Some(42)),
        (
            vec![true, false, false, true, true, false, true, true],
            vec![true, true, true, false, true, false, false, true]
        )
    );
    assert_eq!(
        shuffle_crossover(&parent1, &parent2, Some(42)),
        (
            vec![true, true, false, false, true, false, false, true],
            vec![true, false, true, true, true, false, true, true]
        )
    );
}

#[test]
fn multi_point_crossover_with_every_position_as_a_cut_point() {
    let parent1 = vec![true; 6];
    let parent2 = vec![false; 6];
    let all: Vec<usize> = (0..6).collect();
    for seed in 0..20u64 {
        for k in 6..9usize {
            assert_eq!(
                multi_point_crossover(&parent1, &parent2, k, Some(seed)),
                multi_point_crossover_at(&parent1, &parent2, &all, k)
            );
        }
        // One position fewer is asked for than there are: the one left out is drawn.
        let (child1, _) = multi_point_crossover(&parent1, &parent2, 5, Some(seed));
        let changes = (1..6).filter(|&p| child1[p] != child1[p - 1]).count()
            + if child1[0] { 0 } else { 1 };
        assert_eq!(changes, 5);
    }
    assert_eq!(
        multi_point_crossover(&parent1, &parent2, 6, None),
        (
            vec![false, true, false, true, false, true],
            vec![true, false, true, false, true, false]
        )
    );
}
