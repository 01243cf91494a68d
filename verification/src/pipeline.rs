use vstd::prelude::*;
use vstd::arithmetic::div_mod::lemma_mod_division_less_than_divisor;
use crate::cluster::ClusterView;
use crate::partition::round_robin_partition;
use crate::router::{route, payloads_to, all_targets_valid, views_of};
use crate::reduce::{seq_sum, sums_in_range, tick_sums, reduce_ticks};
use crate::merge::global_merge;

verus! {

/// The round-robin routed image of a source stream: element `i` paired
/// with target `i mod n`.
pub open spec fn rr_pairs(s: Seq<i128>, n: u32) -> Seq<(u32, i128)> {
    Seq::new(s.len(), |i: int| (((i % (n as int)) as u32), s[i]))
}

/// The per-member inbound streams after fan-out of a routed stream.
pub open spec fn member_streams(s: Seq<(u32, i128)>, n: u32) -> Seq<Seq<i128>> {
    Seq::new(n as nat, |j: int| payloads_to(s, j as u32))
}

/// The sum of the payloads of a routed stream.
pub open spec fn pair_sum(s: Seq<(u32, i128)>) -> int
    decreases s.len(),
{
    if s.len() == 0 {
        0
    } else {
        pair_sum(s.drop_last()) + s.last().1
    }
}

/// The channel sums of the first `j` member channels, added up.
pub open spec fn buckets_sum(s: Seq<(u32, i128)>, j: int) -> int
    decreases j,
{
    if j <= 0 {
        0
    } else {
        buckets_sum(s, j - 1) + seq_sum(payloads_to(s, (j - 1) as u32))
    }
}

/// The channel sums of a batch of channels, added up.
pub open spec fn total_of(vs: Seq<Seq<i128>>) -> int
    decreases vs.len(),
{
    if vs.len() == 0 {
        0
    } else {
        total_of(vs.drop_last()) + seq_sum(vs.last())
    }
}

proof fn lemma_seq_sum_push(s: Seq<i128>, x: i128)
    ensures
        seq_sum(s.push(x)) == seq_sum(s) + x,
{
    assert(s.push(x).drop_last() =~= s);
}

/// Routing one more message adds its payload to exactly one channel.
proof fn lemma_buckets_sum_push(s: Seq<(u32, i128)>, p: (u32, i128), j: int)
    requires
        j <= 0x1_0000_0000,
    ensures
        buckets_sum(s.push(p), j) == buckets_sum(s, j) + if p.0 < j {
            p.1 as int
        } else {
            0int
        },
    decreases j,
{
    if j > 0 {
        lemma_buckets_sum_push(s, p, j - 1);
        let t = (j - 1) as u32;
        assert(s.push(p).drop_last() =~= s);
        assert(s.push(p).last() == p);
        assert(buckets_sum(s.push(p), j) == buckets_sum(s.push(p), j - 1) + seq_sum(
            payloads_to(s.push(p), t),
        ));
        if p.0 == t {
            assert(payloads_to(s.push(p), t) == payloads_to(s, t).push(p.1));
            lemma_seq_sum_push(payloads_to(s, t), p.1);
            assert(seq_sum(payloads_to(s.push(p), t)) == seq_sum(payloads_to(s, t)) + p.1);
        } else {
            assert(payloads_to(s.push(p), t) == payloads_to(s, t));
        }
    }
}

proof fn lemma_buckets_sum_empty(j: int)
    ensures
        buckets_sum(Seq::<(u32, i128)>::empty(), j) == 0,
    decreases j,
{
    if j > 0 {
        lemma_buckets_sum_empty(j - 1);
    }
}

/// Fan-out conserves the stream: over all members, the channel sums add
/// up to the sum of every routed payload — nothing is lost or duplicated
/// by partitioning.
pub proof fn lemma_route_conserves_sum(s: Seq<(u32, i128)>, n: u32)
    requires
        all_targets_valid(s, n),
    ensures
        buckets_sum(s, n as int) == pair_sum(s),
    decreases s.len(),
{
    if s.len() == 0 {
        assert(s =~= Seq::<(u32, i128)>::empty());
        lemma_buckets_sum_empty(n as int);
    } else {
        let prev = s.drop_last();
        assert(all_targets_valid(prev, n)) by {
            assert(forall|i: int| 0 <= i < prev.len() ==> prev[i] == s[i]);
        }
        lemma_route_conserves_sum(prev, n);
        lemma_buckets_sum_push(prev, s.last(), n as int);
        assert(prev.push(s.last()) =~= s);
        assert(s[s.len() - 1].0 < n);
        assert(buckets_sum(s, n as int) == buckets_sum(prev, n as int) + s.last().1);
        assert(pair_sum(s) == pair_sum(prev) + s.last().1);
    }
}

/// The per-channel totals match the channel decomposition of the stream.
proof fn lemma_total_buckets(vs: Seq<Seq<i128>>, s: Seq<(u32, i128)>, j: int)
    requires
        0 <= j <= vs.len(),
        forall|k: int| 0 <= k < vs.len() ==> vs[k] == payloads_to(s, k as u32),
    ensures
        total_of(vs.take(j)) == buckets_sum(s, j),
    decreases j,
{
    if j > 0 {
        lemma_total_buckets(vs, s, j - 1);
        assert(vs.take(j).drop_last() =~= vs.take(j - 1));
        assert(vs.take(j).last() == vs[j - 1]);
    }
}

/// The partial aggregates of the nonempty ticks add up to the total of
/// all channels, however the batches were cut into ticks: empty ticks
/// contribute nothing, and nothing else is dropped, so windowing never
/// changes the merged aggregate.
pub proof fn lemma_tick_sums_total(vs: Seq<Seq<i128>>)
    requires
        forall|k: int| 0 <= k < vs.len() ==> sums_in_range(#[trigger] vs[k]),
    ensures
        seq_sum(tick_sums(vs)) == total_of(vs),
    decreases vs.len(),
{
    if vs.len() > 0 {
        let prev = vs.drop_last();
        assert(forall|k: int| 0 <= k < prev.len() ==> prev[k] == vs[k]);
        lemma_tick_sums_total(prev);
        let last = vs.last();
        if last.len() == 0 {
            assert(seq_sum(last) == 0);
        } else {
            assert(sums_in_range(last));
            assert(last.take(last.len() as int) =~= last);
            assert(i128::MIN <= seq_sum(last) <= i128::MAX);
            lemma_seq_sum_push(tick_sums(prev), seq_sum(last) as i128);
        }
    }
}

/// Payloads carried unchanged: a routed stream whose payloads mirror a
/// source stream sums to the source sum.
proof fn lemma_pair_sum_matches(s: Seq<(u32, i128)>, src: Seq<i128>)
    requires
        s.len() == src.len(),
        forall|i: int| 0 <= i < s.len() ==> (#[trigger] s[i]).1 == src[i],
    ensures
        pair_sum(s) == seq_sum(src),
    decreases s.len(),
{
    if s.len() > 0 {
        assert(forall|i: int|
            0 <= i < s.len() - 1 ==> (#[trigger] s.drop_last()[i]).1 == src.drop_last()[i]);
        lemma_pair_sum_matches(s.drop_last(), src.drop_last());
    }
}

/// Every running value the pipeline computes on `input` over `n`
/// members — the per-member folds and the coordinator's fold — stays
/// within the accumulator type: the machine bound under which the
/// distributed reduction cannot overflow.
pub open spec fn pipeline_in_range(input: Seq<i128>, n: u32) -> bool {
    let streams = member_streams(rr_pairs(input, n), n);
    (forall|j: int| 0 <= j < n ==> sums_in_range(#[trigger] streams[j])) && sums_in_range(
        tick_sums(streams),
    )
}

/// The example pipeline, end to end: the source batch is partitioned
/// round-robin over the cluster, each member folds its inbound stream
/// into one partial aggregate per nonempty tick, and the coordinator
/// merges every partial in arrival order. The aggregate equals the sum
/// of the whole source stream, whatever the cluster size.
pub fn distributed_reduce(input: &Vec<i128>, cluster: &ClusterView) -> (r: i128)
    requires
        pipeline_in_range(input@, cluster.spec_size()),
    ensures
        r == seq_sum(input@),
{
    let n = cluster.size();
    let pairs = round_robin_partition(input, cluster);
    proof {
        assert(pairs@ =~= rr_pairs(input@, n));
        assert forall|i: int| 0 <= i < pairs@.len() implies (#[trigger] pairs@[i]).0 < n by {
            lemma_mod_division_less_than_divisor(i, n as int);
        }
        assert(all_targets_valid(pairs@, n));
    }
    let routed = route(&pairs, cluster);
    let buckets: Vec<Vec<i128>> = match routed {
        Ok(b) => b,
        Err(_) => {
            proof {
                assert(false);
            }
            Vec::new()
        },
    };
    let ghost streams = member_streams(rr_pairs(input@, n), n);
    proof {
        assert(views_of(buckets@) =~= streams);
        assert forall|j: int| 0 <= j < buckets@.len() implies sums_in_range(
            (#[trigger] buckets@[j])@,
        ) by {
            assert(views_of(buckets@)[j] == buckets@[j]@);
            assert(streams[j] == payloads_to(rr_pairs(input@, n), j as u32));
        }
    }
    let partials = reduce_ticks(&buckets);
    proof {
        assert(partials@ == tick_sums(streams));
        assert(sums_in_range(partials@));
    }
    let total = global_merge(&partials);
    proof {
        lemma_tick_sums_total(views_of(buckets@));
        lemma_total_buckets(views_of(buckets@), pairs@, n as int);
        assert(views_of(buckets@).take(n as int) =~= views_of(buckets@));
        lemma_route_conserves_sum(pairs@, n);
        lemma_pair_sum_matches(pairs@, input@);
    }
    total
}

} // verus!
