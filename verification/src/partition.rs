use vstd::prelude::*;
use crate::cluster::ClusterView;
use crate::rng::random_below;

verus! {

/// How many of the routed messages in `s` name the target `j`.
pub open spec fn count_to_target<T>(s: Seq<(u32, T)>, j: u32) -> nat
    decreases s.len(),
{
    if s.len() == 0 {
        0
    } else {
        count_to_target(s.drop_last(), j) + if s.last().0 == j {
            1nat
        } else {
            0nat
        }
    }
}

/// Deterministic partitioner: element `i` of the stream, in arrival
/// order, is paired with target `i mod n`. The payloads are untouched.
pub fn round_robin_partition<T: Copy>(input: &Vec<T>, cluster: &ClusterView) -> (r: Vec<(u32, T)>)
    ensures
        r@.len() == input@.len(),
        forall|i: int| 0 <= i < r@.len() ==> r@[i].0 == i % (cluster.spec_size() as int),
        forall|i: int| 0 <= i < r@.len() ==> r@[i].1 == input@[i],
{
    let n = cluster.size();
    let mut out: Vec<(u32, T)> = Vec::new();
    let mut i: usize = 0;
    while i < input.len()
        invariant
            i <= input@.len(),
            out@.len() == i,
            n == cluster.spec_size(),
            n >= 1,
            forall|k: int| 0 <= k < i ==> out@[k].0 == k % (n as int),
            forall|k: int| 0 <= k < i ==> out@[k].1 == input@[k],
        decreases input@.len() - i,
    {
        let id: u32 = (i % (n as usize)) as u32;
        out.push((id, input[i]));
        i = i + 1;
    }
    out
}

/// Randomized partitioner: each element is paired with an independently
/// drawn target, always a valid member identifier. The payloads are
/// untouched and keep their arrival order.
pub fn randomized_partition<T: Copy>(input: &Vec<T>, cluster: &ClusterView) -> (r: Vec<(u32, T)>)
    ensures
        r@.len() == input@.len(),
        forall|i: int| 0 <= i < r@.len() ==> r@[i].0 < cluster.spec_size(),
        forall|i: int| 0 <= i < r@.len() ==> r@[i].1 == input@[i],
{
    let n = cluster.size();
    let mut out: Vec<(u32, T)> = Vec::new();
    let mut i: usize = 0;
    while i < input.len()
        invariant
            i <= input@.len(),
            out@.len() == i,
            n == cluster.spec_size(),
            n >= 1,
            forall|k: int| 0 <= k < i ==> out@[k].0 < n,
            forall|k: int| 0 <= k < i ==> out@[k].1 == input@[k],
        decreases input@.len() - i,
    {
        let id = random_below(n);
        out.push((id, input[i]));
        i = i + 1;
    }
    out
}

/// A stream is round-robin shaped for `n` when message `i` names
/// target `i mod n`, as the deterministic partitioner guarantees.
pub open spec fn round_robin_shaped<T>(s: Seq<(u32, T)>, n: u32) -> bool {
    forall|i: int| 0 <= i < s.len() ==> (#[trigger] s[i]).0 == i % (n as int)
}

/// Under round-robin partitioning, target `j` receives one message for
/// every full cycle through the members, plus one more exactly when the
/// trailing partial cycle reaches `j`.
pub proof fn lemma_round_robin_count<T>(s: Seq<(u32, T)>, n: u32, j: u32)
    requires
        n >= 1,
        j < n,
        round_robin_shaped(s, n),
    ensures
        count_to_target(s, j) == s.len() as int / (n as int) + if j < s.len() as int % (
        n as int
        ) {
            1int
        } else {
            0int
        },
    decreases s.len(),
{
    let ln = s.len() as int;
    let d = n as int;
    if s.len() == 0 {
        assert(0int / d == 0) by {
            vstd::arithmetic::div_mod::lemma_div_of0(d);
        }
        assert(0int % d == 0) by {
            vstd::arithmetic::div_mod::lemma_mod_division_less_than_divisor(0, d);
            vstd::arithmetic::div_mod::lemma_fundamental_div_mod(0, d);
        }
    } else {
        let prev = s.drop_last();
        assert(round_robin_shaped(prev, n)) by {
            assert(forall|i: int| 0 <= i < prev.len() ==> prev[i] == s[i]);
        }
        lemma_round_robin_count(prev, n, j);
        let q = (ln - 1) / d;
        let r = (ln - 1) % d;
        vstd::arithmetic::div_mod::lemma_fundamental_div_mod(ln - 1, d);
        vstd::arithmetic::div_mod::lemma_mod_division_less_than_divisor(ln - 1, d);
        assert(s.last().0 == r);
        if r < d - 1 {
            assert(ln == q * d + (r + 1));
            vstd::arithmetic::div_mod::lemma_fundamental_div_mod_converse_div(ln, d, q, r + 1);
            vstd::arithmetic::div_mod::lemma_fundamental_div_mod_converse_mod(ln, d, q, r + 1);
        } else {
            assert(ln == q * d + d);
            assert(ln == (q + 1) * d + 0) by {
                vstd::arithmetic::mul::lemma_mul_is_distributive_add_other_way(d, q, 1);
            }
            vstd::arithmetic::div_mod::lemma_fundamental_div_mod_converse_div(ln, d, q + 1, 0);
            vstd::arithmetic::div_mod::lemma_fundamental_div_mod_converse_mod(ln, d, q + 1, 0);
        }
    }
}

/// Round-robin load balance: no member's share of a round-robin stream
/// exceeds another's by more than one message.
pub proof fn lemma_round_robin_balanced<T>(s: Seq<(u32, T)>, n: u32, j: u32, k: u32)
    requires
        n >= 1,
        j < n,
        k < n,
        round_robin_shaped(s, n),
    ensures
        count_to_target(s, j) <= count_to_target(s, k) + 1,
{
    lemma_round_robin_count(s, n, j);
    lemma_round_robin_count(s, n, k);
}

/// The example map stage: every element of the stream, increased by one.
pub fn add_one_to_each_element(stream: &Vec<i32>) -> (r: Vec<i32>)
    requires
        forall|i: int| 0 <= i < stream@.len() ==> stream@[i] < i32::MAX,
    ensures
        r@.len() == stream@.len(),
        forall|i: int| 0 <= i < r@.len() ==> r@[i] == stream@[i] + 1,
{
    let mut out: Vec<i32> = Vec::new();
    let mut i: usize = 0;
    while i < stream.len()
        invariant
            i <= stream@.len(),
            out@.len() == i,
            forall|k: int| 0 <= k < stream@.len() ==> stream@[k] < i32::MAX,
            forall|k: int| 0 <= k < i ==> out@[k] == stream@[k] + 1,
        decreases stream@.len() - i,
    {
        out.push(stream[i] + 1);
        i = i + 1;
    }
    out
}

} // verus!
