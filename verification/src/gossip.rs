use vstd::prelude::*;
use crate::cluster::ClusterView;
use crate::rng::random_below;

verus! {

/// The wire envelope of the disseminator: `Real` marks the primary
/// delivery of a payload, `Gossip` a redundant, probabilistically routed
/// duplicate that consumers must treat as best-effort.
#[derive(Clone, Copy, Debug, PartialEq, Eq)]
pub enum GossipMessage<T> {
    Real(T),
    Gossip(T),
}

/// One dissemination round with the duplicate targets fixed: input `i`
/// yields exactly one Real envelope, to its primary target, followed
/// (after all Real copies) by exactly one Gossip envelope, to `targets[i]`.
/// The Gossip payload carries its own routing target, as the interleaved
/// path drops the sender identity.
pub fn gossip_with_targets<T: Copy>(input: &Vec<(u32, T)>, targets: &Vec<u32>) -> (r: Vec<
    (u32, GossipMessage<T>),
>)
    requires
        targets@.len() == input@.len(),
    ensures
        r@.len() == 2 * input@.len(),
        forall|i: int|
            0 <= i < input@.len() ==> (#[trigger] r@[i]) == (
                input@[i].0,
                GossipMessage::Real(input@[i].1),
            ),
        forall|k: int|
            input@.len() <= k < r@.len() ==> (#[trigger] r@[k]) == (
                targets@[k - input@.len()],
                GossipMessage::Gossip(input@[k - input@.len()].1),
            ),
{
    let mut out: Vec<(u32, GossipMessage<T>)> = Vec::new();
    let mut i: usize = 0;
    while i < input.len()
        invariant
            i <= input@.len(),
            out@.len() == i,
            forall|k: int|
                0 <= k < i ==> out@[k] == (input@[k].0, GossipMessage::Real(input@[k].1)),
        decreases input@.len() - i,
    {
        out.push((input[i].0, GossipMessage::Real(input[i].1)));
        i = i + 1;
    }
    let mut g: usize = 0;
    while g < input.len()
        invariant
            g <= input@.len(),
            targets@.len() == input@.len(),
            out@.len() == input@.len() + g,
            forall|k: int|
                0 <= k < input@.len() ==> out@[k] == (
                    input@[k].0,
                    GossipMessage::Real(input@[k].1),
                ),
            forall|k: int|
                0 <= k < g ==> out@[input@.len() + k] == (
                    targets@[k],
                    GossipMessage::Gossip(input@[k].1),
                ),
        decreases input@.len() - g,
    {
        out.push((targets[g], GossipMessage::Gossip(input[g].1)));
        g = g + 1;
    }
    out
}

/// Randomized dissemination: beside the Real copy to its primary target,
/// every input gains one Gossip duplicate whose target is drawn
/// independently and is always a valid member (it may equal the primary
/// target). Nothing more is promised of the drawn targets.
pub fn randomized_gossip<T: Copy>(input: &Vec<(u32, T)>, cluster: &ClusterView) -> (r: Vec<
    (u32, GossipMessage<T>),
>)
    ensures
        r@.len() == 2 * input@.len(),
        forall|i: int|
            0 <= i < input@.len() ==> (#[trigger] r@[i]) == (
                input@[i].0,
                GossipMessage::Real(input@[i].1),
            ),
        forall|k: int|
            input@.len() <= k < r@.len() ==> (#[trigger] r@[k]).0 < cluster.spec_size() && r@[k].1
                == GossipMessage::Gossip(input@[k - input@.len()].1),
{
    let n = cluster.size();
    let mut targets: Vec<u32> = Vec::new();
    let mut i: usize = 0;
    while i < input.len()
        invariant
            i <= input@.len(),
            targets@.len() == i,
            n == cluster.spec_size(),
            n >= 1,
            forall|k: int| 0 <= k < i ==> targets@[k] < n,
        decreases input@.len() - i,
    {
        targets.push(random_below(n));
        i = i + 1;
    }
    let r = gossip_with_targets(input, &targets);
    proof {
        assert forall|k: int|
            input@.len() <= k < r@.len() implies (#[trigger] r@[k]).0 < n && r@[k].1
            == GossipMessage::Gossip(input@[k - input@.len()].1) by {
            assert(r@[k] == (targets@[k - input@.len()], GossipMessage::Gossip(
                input@[k - input@.len()].1,
            )));
        }
    }
    r
}

} // verus!
