use flow::cluster::ClusterView;
use flow::pipeline::distributed_reduce;

fn cluster_of(n: u32) -> ClusterView {
    ClusterView::new(n).expect("cluster must not be empty")
}

#[test]
fn small_batch_sums_exactly() {
    let c = cluster_of(2);
    assert_eq!(distributed_reduce(&vec![1, 2, 3], &c), 6);
}

#[test]
fn single_member_cluster_sums_exactly() {
    let c = cluster_of(1);
    assert_eq!(distributed_reduce(&vec![-4, 10, 1], &c), 7);
}

#[test]
fn first_million_over_four_members() {
    let c = cluster_of(4);
    let input: Vec<i128> = (0..1_000_000).collect();
    assert_eq!(distributed_reduce(&input, &c), 499_999_500_000);
}
