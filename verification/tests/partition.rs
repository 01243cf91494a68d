use flow::cluster::{ClusterView, ConfigError};
use flow::partition::{add_one_to_each_element, randomized_partition, round_robin_partition};

fn cluster_of(n: u32) -> ClusterView {
    ClusterView::new(n).expect("cluster must not be empty")
}

#[test]
fn empty_cluster_is_refused() {
    assert_eq!(ClusterView::new(0).err(), Some(ConfigError::EmptyCluster));
}

#[test]
fn cluster_ids_are_dense() {
    let c = cluster_of(4);
    assert_eq!(c.size(), 4);
    assert_eq!(c.ids(), vec![0, 1, 2, 3]);
}

#[test]
fn round_robin_targets_cycle() {
    let c = cluster_of(3);
    let input: Vec<i128> = (0..10).collect();
    let pairs = round_robin_partition(&input, &c);
    assert_eq!(pairs.len(), 10);
    for (i, (target, payload)) in pairs.iter().enumerate() {
        assert_eq!(*target as usize, i % 3);
        assert_eq!(*payload, input[i]);
    }
}

#[test]
fn round_robin_counts_differ_by_at_most_one() {
    let c = cluster_of(4);
    let input: Vec<i128> = (0..10).collect();
    let pairs = round_robin_partition(&input, &c);
    let mut counts = [0usize; 4];
    for (target, _) in &pairs {
        counts[*target as usize] += 1;
    }
    assert_eq!(counts, [3, 3, 2, 2]);
    for a in counts {
        for b in counts {
            assert!(a <= b + 1);
        }
    }
}

#[test]
fn randomized_targets_are_members() {
    let c = cluster_of(5);
    let input: Vec<i128> = (0..200).collect();
    let pairs = randomized_partition(&input, &c);
    assert_eq!(pairs.len(), 200);
    for (i, (target, payload)) in pairs.iter().enumerate() {
        assert!(*target < 5);
        assert_eq!(*payload, input[i]);
    }
}

#[test]
fn randomized_distribution_is_roughly_uniform() {
    let c = cluster_of(4);
    let input: Vec<i128> = (0..10_000).collect();
    let pairs = randomized_partition(&input, &c);
    let mut counts = [0usize; 4];
    for (target, _) in &pairs {
        counts[*target as usize] += 1;
    }
    // Expected share is 2500 per member; allow a generous tolerance.
    for count in counts {
        assert!(count > 1900 && count < 3100, "skewed share: {}", count);
    }
}

#[test]
fn randomized_single_member_always_hits_it() {
    let c = cluster_of(1);
    let input: Vec<i128> = (0..50).collect();
    for (target, _) in randomized_partition(&input, &c) {
        assert_eq!(target, 0);
    }
}

#[test]
fn add_one_maps_each_element() {
    let input: Vec<i32> = vec![0, 1, -5, 41];
    assert_eq!(add_one_to_each_element(&input), vec![1, 2, -4, 42]);
}
