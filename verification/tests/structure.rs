use queueing_theory::birth_death::{busy_servers, rate_lengths_compatible, state_count};
use queueing_theory::priority::{classes_up_to, find_priority, priority_order};
use queueing_theory::networks::dimensions_agree;
use queueing_theory::staffing::recommended_servers;

#[test]
fn priority_order_sorts_by_level() {
    assert_eq!(priority_order(&vec![3, 1, 2]), vec![1, 2, 0]);
    assert_eq!(priority_order(&vec![1, 2]), vec![0, 1]);
    assert_eq!(priority_order(&vec![]), Vec::<usize>::new());
}

#[test]
fn priority_order_is_stable() {
    // Classes 0, 2 and 4 share level 2; they keep their given order.
    assert_eq!(priority_order(&vec![2, 1, 2, 0, 2]), vec![3, 1, 0, 2, 4]);
    assert_eq!(priority_order(&vec![5, 5, 5]), vec![0, 1, 2]);
}

#[test]
fn priority_order_of_sorted_levels_is_identity() {
    assert_eq!(priority_order(&vec![1, 2, 2, 3]), vec![0, 1, 2, 3]);
}

#[test]
fn find_priority_returns_first_match() {
    assert_eq!(find_priority(&vec![1, 2, 3], 2), Some(1));
    assert_eq!(find_priority(&vec![2, 2], 2), Some(0));
    assert_eq!(find_priority(&vec![1, 2, 3], 4), None);
    assert_eq!(find_priority(&vec![], 0), None);
}

#[test]
fn classes_up_to_selects_levels_at_most() {
    assert_eq!(classes_up_to(&vec![1, 2, 3], 2), vec![0, 1]);
    assert_eq!(classes_up_to(&vec![3, 1, 2, 1], 1), vec![1, 3]);
    assert_eq!(classes_up_to(&vec![1, 2, 3], 0), Vec::<usize>::new());
    assert_eq!(classes_up_to(&vec![1, 2, 3], usize::MAX), vec![0, 1, 2]);
}

#[test]
fn birth_death_shapes() {
    assert!(rate_lengths_compatible(2, 3));
    assert!(rate_lengths_compatible(2, 2));
    assert!(!rate_lengths_compatible(2, 4));
    assert!(!rate_lengths_compatible(3, 2));
    assert!(!rate_lengths_compatible(0, 2));
}

#[test]
fn test_birth_death_construction_state_count() {
    // births [1, 2], deaths [0, 3, 4]
    assert_eq!(state_count(2, 3), 3);
    assert_eq!(state_count(2, 2), 3);
    assert_eq!(state_count(0, 0), 1);
    assert_eq!(state_count(1, 5), 5);
}

#[test]
fn busy_servers_caps_at_server_count() {
    assert_eq!(busy_servers(0, 3), 0);
    assert_eq!(busy_servers(1, 3), 1);
    assert_eq!(busy_servers(3, 3), 3);
    assert_eq!(busy_servers(4, 3), 3);
    assert_eq!(busy_servers(100, 3), 3);
}

#[test]
fn recommended_is_largest_requirement() {
    assert_eq!(recommended_servers(5, 3, 4), 5);
    assert_eq!(recommended_servers(2, 6, 4), 6);
    assert_eq!(recommended_servers(2, 3, 9), 9);
    assert_eq!(recommended_servers(4, 4, 4), 4);
}

#[test]
fn network_dimensions() {
    assert!(dimensions_agree(2, 2, 2, 2));
    assert!(!dimensions_agree(2, 2, 2, 1));
    assert!(!dimensions_agree(2, 3, 2, 2));
    assert!(!dimensions_agree(2, 2, 3, 2));
    assert!(dimensions_agree(0, 0, 0, 0));
}
