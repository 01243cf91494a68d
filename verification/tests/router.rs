use flow::cluster::{ClusterView, ConfigError};
use flow::router::{collect_interleaved, collect_tagged, route};

fn cluster_of(n: u32) -> ClusterView {
    ClusterView::new(n).expect("cluster must not be empty")
}

#[test]
fn route_splits_by_target() {
    let c = cluster_of(3);
    let input: Vec<(u32, i128)> = vec![(0, 10), (2, 20), (0, 30), (1, 40)];
    let buckets = route(&input, &c).expect("all targets are valid");
    assert_eq!(buckets.len(), 3);
    assert_eq!(buckets[0], vec![10, 30]);
    assert_eq!(buckets[1], vec![40]);
    assert_eq!(buckets[2], vec![20]);
}

#[test]
fn route_refuses_invalid_target() {
    let c = cluster_of(2);
    let input: Vec<(u32, i128)> = vec![(0, 10), (2, 20)];
    assert_eq!(route(&input, &c).err(), Some(ConfigError::InvalidTarget));
}

#[test]
fn collect_tagged_keeps_sender() {
    let inbound: Vec<Vec<i128>> = vec![vec![1, 2], vec![], vec![3]];
    assert_eq!(collect_tagged(&inbound), vec![(0, 1), (0, 2), (2, 3)]);
}

#[test]
fn collect_interleaved_drops_sender() {
    let inbound: Vec<Vec<i128>> = vec![vec![1, 2], vec![], vec![3]];
    assert_eq!(collect_interleaved(&inbound), vec![1, 2, 3]);
}

#[test]
fn route_then_collect_preserves_payloads() {
    let c = cluster_of(4);
    let input: Vec<(u32, i128)> = vec![(3, 7), (1, 8), (3, 9), (0, 10)];
    let buckets = route(&input, &c).expect("all targets are valid");
    let mut merged = collect_interleaved(&buckets);
    merged.sort();
    assert_eq!(merged, vec![7, 8, 9, 10]);
}
