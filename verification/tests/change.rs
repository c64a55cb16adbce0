use coin_changing::{coin_change, ChangeError};

#[test]
fn change_for_twenty_from_one_five_seven() {
    assert_eq!(coin_change(&[1, 5, 7], 20), Ok(vec![7, 7, 5, 1]));
}

#[test]
fn change_prefers_fewer_pieces() {
    assert_eq!(coin_change(&[1, 5, 10, 25], 30), Ok(vec![25, 5]));
}

#[test]
fn change_where_greedy_fails() {
    assert_eq!(coin_change(&[1, 3, 4], 6), Ok(vec![3, 3]));
}

#[test]
fn change_for_zero_is_empty() {
    assert_eq!(coin_change(&[1, 5, 7], 0), Ok(vec![]));
    assert_eq!(coin_change(&[5, 10], 0), Ok(vec![]));
}

#[test]
fn unreachable_amount_is_infeasible() {
    assert_eq!(coin_change(&[5, 10], 7), Err(ChangeError::Infeasible));
    assert_eq!(coin_change(&[5, 10], 3), Err(ChangeError::Infeasible));
}

#[test]
fn reachable_amount_without_unit() {
    assert_eq!(coin_change(&[5, 10], 25), Ok(vec![10, 10, 5]));
}

#[test]
fn empty_denominations_are_refused() {
    assert_eq!(coin_change(&[], 5), Err(ChangeError::InvalidDenominations));
    assert_eq!(coin_change(&[], 0), Err(ChangeError::InvalidDenominations));
}

#[test]
fn zero_denomination_is_refused() {
    assert_eq!(coin_change(&[1, 0, 5], 5), Err(ChangeError::InvalidDenominations));
    assert_eq!(coin_change(&[0], 0), Err(ChangeError::InvalidDenominations));
}

#[test]
fn pieces_come_largest_first_whatever_the_order_given() {
    assert_eq!(coin_change(&[7, 1, 5], 20), Ok(vec![7, 7, 5, 1]));
    assert_eq!(coin_change(&[25, 10, 5, 1], 30), Ok(vec![25, 5]));
}

#[test]
fn first_denomination_wins_a_tie() {
    // 6 = 3 + 3 = 5 + 1 = 4 + 2, all in two pieces.
    assert_eq!(coin_change(&[1, 2, 3, 4, 5], 6), Ok(vec![5, 1]));
    assert_eq!(coin_change(&[3, 1, 2, 4, 5], 6), Ok(vec![3, 3]));
    assert_eq!(coin_change(&[2, 4, 1, 3, 5], 6), Ok(vec![4, 2]));
}

#[test]
fn repeated_denomination_changes_nothing() {
    assert_eq!(coin_change(&[1, 5, 5, 7], 20), Ok(vec![7, 7, 5, 1]));
}

#[test]
fn sum_and_count_hold_for_small_amounts() {
    let coins = [1, 2, 6, 12, 24, 48, 60, 120, 480, 2400, 4800];
    for target in 0..600usize {
        let pieces = coin_change(&coins, target).unwrap();
        assert_eq!(pieces.iter().sum::<usize>(), target);
        assert!(pieces.windows(2).all(|w| w[0] >= w[1]));
        assert!(pieces.iter().all(|p| coins.contains(p)));
    }
}

/// The fewest pieces for every amount up to `limit`, found by trying every
/// denomination at every amount; `None` where the amount cannot be reached.
fn fewest_by_search(coins: &[usize], limit: usize) -> Vec<Option<usize>> {
    let mut table: Vec<Option<usize>> = vec![Some(0)];
    for amount in 1..=limit {
        let best = coins
            .iter()
            .filter(|&&c| c <= amount)
            .filter_map(|&c| table[amount - c].map(|n| n + 1))
            .min();
        table.push(best);
    }
    table
}

#[test]
fn piece_count_is_the_fewest() {
    let sets: [&[usize]; 7] = [
        &[1, 5, 7],
        &[1, 3, 4],
        &[5, 10],
        &[4, 9, 6],
        &[2],
        &[11, 7, 3, 13],
        &[1, 2, 6, 12, 24, 48, 60, 120, 480],
    ];
    for coins in sets {
        let table = fewest_by_search(coins, 150);
        for target in 0..=150usize {
            match (coin_change(coins, target), table[target]) {
                (Ok(pieces), Some(n)) => {
                    assert_eq!(pieces.len(), n, "{:?} {}", coins, target);
                    assert_eq!(pieces.iter().sum::<usize>(), target);
                    assert!(pieces.iter().all(|p| coins.contains(p)));
                    assert!(pieces.windows(2).all(|w| w[0] >= w[1]));
                }
                (Err(ChangeError::Infeasible), None) => {}
                (got, wanted) => panic!("{:?} {}: {:?} against {:?}", coins, target, got, wanted),
            }
        }
    }
}

#[test]
fn unit_denomination_reaches_every_amount() {
    for coins in [&[1usize][..], &[9, 1], &[4, 1, 6]] {
        for target in 0..100usize {
            assert!(coin_change(coins, target).is_ok());
        }
    }
    assert_eq!(coin_change(&[1], 5), Ok(vec![1, 1, 1, 1, 1]));
}

#[test]
fn amount_one_needs_the_unit() {
    assert_eq!(coin_change(&[2, 3], 1), Err(ChangeError::Infeasible));
    assert_eq!(coin_change(&[2, 3], 2), Ok(vec![2]));
}

#[test]
fn common_divisor_blocks_other_amounts() {
    for target in 1..60usize {
        let r = coin_change(&[6, 9, 15], target);
        if target % 3 != 0 {
            assert_eq!(r, Err(ChangeError::Infeasible));
        }
    }
}

#[test]
fn large_denominations_are_taken_as_they_are() {
    let max = usize::MAX;
    assert_eq!(coin_change(&[max], 0), Ok(vec![]));
    assert_eq!(coin_change(&[max, 1], 3), Ok(vec![1, 1, 1]));
    assert_eq!(coin_change(&[max, 2], 3), Err(ChangeError::Infeasible));
}
