use flow::cluster::ClusterView;
use flow::gossip::{gossip_with_targets, randomized_gossip, GossipMessage};

fn cluster_of(n: u32) -> ClusterView {
    ClusterView::new(n).expect("cluster must not be empty")
}

#[test]
fn gossip_with_targets_is_exact() {
    let input: Vec<(u32, i128)> = vec![(0, 10), (2, 20)];
    let targets: Vec<u32> = vec![1, 2];
    let out = gossip_with_targets(&input, &targets);
    assert_eq!(
        out,
        vec![
            (0, GossipMessage::Real(10)),
            (2, GossipMessage::Real(20)),
            (1, GossipMessage::Gossip(10)),
            (2, GossipMessage::Gossip(20)),
        ]
    );
}

#[test]
fn each_input_yields_one_real_and_one_gossip() {
    let c = cluster_of(3);
    let input: Vec<(u32, i128)> = vec![(0, 10), (2, 20), (1, 30)];
    let out = randomized_gossip(&input, &c);
    assert_eq!(out.len(), 2 * input.len());
    for payload in [10i128, 20, 30] {
        let reals = out
            .iter()
            .filter(|(_, m)| *m == GossipMessage::Real(payload))
            .count();
        let gossips = out
            .iter()
            .filter(|(_, m)| *m == GossipMessage::Gossip(payload))
            .count();
        assert_eq!(reals, 1);
        assert_eq!(gossips, 1);
    }
}

#[test]
fn real_copies_keep_primary_targets() {
    let c = cluster_of(4);
    let input: Vec<(u32, i128)> = vec![(3, 7), (1, 8)];
    let out = randomized_gossip(&input, &c);
    assert_eq!(out[0], (3, GossipMessage::Real(7)));
    assert_eq!(out[1], (1, GossipMessage::Real(8)));
}

#[test]
fn gossip_targets_are_members() {
    let c = cluster_of(2);
    let input: Vec<(u32, i128)> = (0..100).map(|i| ((i % 2) as u32, i as i128)).collect();
    let out = randomized_gossip(&input, &c);
    for (target, m) in &out[input.len()..] {
        assert!(*target < 2);
        assert!(matches!(m, GossipMessage::Gossip(_)));
    }
}
