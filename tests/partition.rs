use perm_data_gen::partition::{is_partition_of, partition_window_sizes};

#[test]
fn partitions_are_accepted_by_their_weighted_sum() {
    assert!(is_partition_of(&vec![2, 0, 0, 0], 6));
    assert!(is_partition_of(&vec![0, 0, 0, 1], 6));
    assert!(!is_partition_of(&vec![1, 1, 0, 0], 6));
    assert!(!is_partition_of(&vec![0, 0, 0, 0], 6));
    assert!(!is_partition_of(&vec![u64::MAX, 0, 0, 0], 6));
    assert!(!is_partition_of(&vec![0, 0, 0, 0, 0, 0, 0, 1], 6));
    assert!(is_partition_of(&vec![], 0));
}

#[test]
fn partition_sizes_add_up_to_the_group_order() {
    let p = vec![1, 0, 1, 0, 0, 0];
    assert!(is_partition_of(&p, 8));
    let sizes = partition_window_sizes(&p, 8);
    assert_eq!(sizes, vec![3, 5]);
    let p = vec![2, 1, 0, 0, 0, 0, 0, 0, 0, 0];
    assert!(is_partition_of(&p, 10));
    let sizes = partition_window_sizes(&p, 10);
    assert_eq!(sizes, vec![3, 3, 4]);
    assert_eq!(sizes.iter().sum::<u64>(), 10);
    assert!(sizes.iter().all(|s| *s >= 3));
}
