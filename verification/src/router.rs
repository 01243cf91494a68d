use vstd::prelude::*;
use crate::cluster::{ClusterView, ConfigError};

verus! {

/// The sequences a batch of vectors holds, for speaking about the batch
/// in contracts.
pub open spec fn views_of<T>(s: Seq<Vec<T>>) -> Seq<Seq<T>> {
    s.map_values(|v: Vec<T>| v@)
}

/// The payloads of `s` that are routed to member `j`, in arrival order:
/// the channel content for target `j` after fan-out.
pub open spec fn payloads_to<T>(s: Seq<(u32, T)>, j: u32) -> Seq<T>
    decreases s.len(),
{
    if s.len() == 0 {
        Seq::empty()
    } else if s.last().0 == j {
        payloads_to(s.drop_last(), j).push(s.last().1)
    } else {
        payloads_to(s.drop_last(), j)
    }
}

/// Every routed message in `s` names a member of a cluster of `n`.
pub open spec fn all_targets_valid<T>(s: Seq<(u32, T)>, n: u32) -> bool {
    forall|i: int| 0 <= i < s.len() ==> (#[trigger] s[i]).0 < n
}

/// The elements of `s`, each tagged with the sender identifier `j`.
pub open spec fn tagged_with<T>(s: Seq<T>, j: u32) -> Seq<(u32, T)>
    decreases s.len(),
{
    if s.len() == 0 {
        Seq::empty()
    } else {
        tagged_with(s.drop_last(), j).push((j, s.last()))
    }
}

/// The fan-in of per-sender channel contents with sender identity kept:
/// channel `j`'s elements tagged `j`, concatenated in sender order.
pub open spec fn tagged_flatten<T>(chans: Seq<Seq<T>>) -> Seq<(u32, T)>
    decreases chans.len(),
{
    if chans.len() == 0 {
        Seq::empty()
    } else {
        tagged_flatten(chans.drop_last()) + tagged_with(chans.last(), (chans.len() - 1) as u32)
    }
}

/// One step of fan-out, at the specification level: routing one more
/// message extends exactly the channel of its target.
proof fn lemma_payloads_to_step<T>(s: Seq<(u32, T)>, i: int, j: u32)
    requires
        0 <= i < s.len(),
    ensures
        payloads_to(s.take(i + 1), j) == if s[i].0 == j {
            payloads_to(s.take(i), j).push(s[i].1)
        } else {
            payloads_to(s.take(i), j)
        },
{
    assert(s.take(i + 1).drop_last() =~= s.take(i));
    assert(s.take(i + 1).last() == s[i]);
}

/// Fan-out: distributes a routed batch over one channel per member.
/// Fails fast, refusing the whole batch, exactly when some message names
/// a target outside the cluster; otherwise channel `j` holds precisely
/// the payloads addressed to `j`, in arrival order.
pub fn route<T: Copy>(input: &Vec<(u32, T)>, cluster: &ClusterView) -> (r: Result<
    Vec<Vec<T>>,
    ConfigError,
>)
    ensures
        r is Ok <==> all_targets_valid(input@, cluster.spec_size()),
        r is Err ==> r->Err_0 == ConfigError::InvalidTarget,
        r is Ok ==> r->Ok_0@.len() == cluster.spec_size(),
        r is Ok ==> forall|j: int|
            0 <= j < cluster.spec_size() ==> (#[trigger] r->Ok_0@[j])@ == payloads_to(
                input@,
                j as u32,
            ),
{
    let n = cluster.size();
    let mut buckets: Vec<Vec<T>> = Vec::new();
    let mut j: u32 = 0;
    while j < n
        invariant
            j <= n,
            buckets@.len() == j,
            forall|k: int| 0 <= k < j ==> (#[trigger] buckets@[k])@ == Seq::<T>::empty(),
        decreases n - j,
    {
        buckets.push(Vec::new());
        j = j + 1;
    }
    let mut i: usize = 0;
    while i < input.len()
        invariant
            i <= input@.len(),
            n == cluster.spec_size(),
            n >= 1,
            buckets@.len() == n,
            all_targets_valid(input@.take(i as int), n),
            forall|k: int|
                0 <= k < n ==> (#[trigger] buckets@[k])@ == payloads_to(
                    input@.take(i as int),
                    k as u32,
                ),
        decreases input@.len() - i,
    {
        let t: u32 = input[i].0;
        let x: T = input[i].1;
        if t >= n {
            assert(!all_targets_valid(input@, n)) by {
                assert(input@[i as int].0 >= n);
            }
            return Err(ConfigError::InvalidTarget);
        }
        let ti: usize = t as usize;
        let ghost prev = buckets@;
        buckets[ti].push(x);
        proof {
            assert forall|k: int| 0 <= k < n implies (#[trigger] buckets@[k])@ == payloads_to(
                input@.take(i + 1),
                k as u32,
            ) by {
                lemma_payloads_to_step(input@, i as int, k as u32);
                assert(input@.take(i as int + 1)[i as int] == input@[i as int]);
                assert(prev[k]@ == payloads_to(input@.take(i as int), k as u32));
            }
            assert(all_targets_valid(input@.take(i + 1), n)) by {
                assert(forall|k: int|
                    0 <= k < i + 1 ==> input@.take(i + 1)[k] == input@[k]);
            }
        }
        i = i + 1;
    }
    proof {
        assert(input@.take(input@.len() as int) =~= input@);
    }
    Ok(buckets)
}

/// Fan-in, tagged mode: merges per-sender channels keeping the sender
/// identity of every element; FIFO order within each sender is kept, and
/// senders are drained in identifier order.
pub fn collect_tagged<T: Copy>(inbound: &Vec<Vec<T>>) -> (r: Vec<(u32, T)>)
    requires
        inbound@.len() <= u32::MAX,
    ensures
        r@ == tagged_flatten(views_of(inbound@)),
{
    let mut out: Vec<(u32, T)> = Vec::new();
    let mut j: usize = 0;
    while j < inbound.len()
        invariant
            j <= inbound@.len(),
            inbound@.len() <= u32::MAX,
            out@ == tagged_flatten(views_of(inbound@).take(j as int)),
        decreases inbound@.len() - j,
    {
        let chan_len = inbound[j].len();
        let mut k: usize = 0;
        while k < chan_len
            invariant
                j < inbound@.len(),
                inbound@.len() <= u32::MAX,
                k <= chan_len,
                chan_len == inbound@[j as int]@.len(),
                out@ == tagged_flatten(views_of(inbound@).take(j as int)) + tagged_with(
                    inbound@[j as int]@.take(k as int),
                    j as u32,
                ),
            decreases chan_len - k,
        {
            out.push((j as u32, inbound[j][k]));
            proof {
                let c = inbound@[j as int]@;
                assert(c.take(k + 1).drop_last() =~= c.take(k as int));
                assert(c.take(k + 1).last() == c[k as int]);
            }
            k = k + 1;
        }
        proof {
            let vs = views_of(inbound@);
            assert(vs.take(j + 1).drop_last() =~= vs.take(j as int));
            assert(vs.take(j + 1).last() == inbound@[j as int]@);
            assert(inbound@[j as int]@.take(chan_len as int) =~= inbound@[j as int]@);
        }
        j = j + 1;
    }
    proof {
        assert(views_of(inbound@).take(inbound@.len() as int) =~= views_of(inbound@));
    }
    out
}

/// Fan-in, interleaved mode: merges per-sender channels discarding the
/// sender identity; FIFO order within each sender is kept, and senders
/// are drained in identifier order.
pub fn collect_interleaved<T: Copy>(inbound: &Vec<Vec<T>>) -> (r: Vec<T>)
    ensures
        r@ == views_of(inbound@).flatten(),
{
    broadcast use vstd::prelude::Seq::lemma_flatten_push;

    let mut out: Vec<T> = Vec::new();
    let mut j: usize = 0;
    while j < inbound.len()
        invariant
            j <= inbound@.len(),
            out@ == views_of(inbound@).take(j as int).flatten(),
        decreases inbound@.len() - j,
    {
        let chan_len = inbound[j].len();
        let mut k: usize = 0;
        while k < chan_len
            invariant
                j < inbound@.len(),
                k <= chan_len,
                chan_len == inbound@[j as int]@.len(),
                out@ == views_of(inbound@).take(j as int).flatten() + inbound@[j as int]@.take(
                    k as int,
                ),
            decreases chan_len - k,
        {
            out.push(inbound[j][k]);
            proof {
                let c = inbound@[j as int]@;
                assert(c.take(k + 1) =~= c.take(k as int).push(c[k as int]));
            }
            k = k + 1;
        }
        proof {
            let vs = views_of(inbound@);
            let c = inbound@[j as int]@;
            assert(c.take(chan_len as int) =~= c);
            assert(vs.take(j + 1) =~= vs.take(j as int).push(c));
            vs.take(j as int).lemma_flatten_push(c);
        }
        j = j + 1;
    }
    proof {
        assert(views_of(inbound@).take(inbound@.len() as int) =~= views_of(inbound@));
    }
    out
}

} // verus!
