use vstd::prelude::*;
use vstd::relations::associative;
use crate::router::views_of;

verus! {

/// The running sum of a batch, folded strictly in arrival order: the
/// combiner of the example pipeline at the specification level.
pub open spec fn seq_sum(s: Seq<i128>) -> int
    decreases s.len(),
{
    if s.len() == 0 {
        0
    } else {
        seq_sum(s.drop_last()) + s.last()
    }
}

/// Every running value of the sum of `s` stays within the accumulator
/// type: the machine bound under which folding `s` cannot overflow.
pub open spec fn sums_in_range(s: Seq<i128>) -> bool {
    forall|k: int| 0 <= k <= s.len() ==> i128::MIN <= seq_sum(#[trigger] s.take(k)) <= i128::MAX
}

/// Folding one more element adds exactly that element to the running sum.
pub proof fn lemma_seq_sum_take_step(s: Seq<i128>, k: int)
    requires
        0 <= k < s.len(),
    ensures
        seq_sum(s.take(k + 1)) == seq_sum(s.take(k)) + s[k],
{
    assert(s.take(k + 1).drop_last() =~= s.take(k));
    assert(s.take(k + 1).last() == s[k]);
}

/// One tick's local reduction: the combiner folded over the batch in
/// arrival order. An empty tick legitimately yields no output.
pub fn reduce_one_tick(tick: &Vec<i128>) -> (r: Option<i128>)
    requires
        sums_in_range(tick@),
    ensures
        r is None <==> tick@.len() == 0,
        r matches Some(v) ==> v == seq_sum(tick@),
{
    if tick.len() == 0 {
        return None;
    }
    let mut acc: i128 = 0;
    let mut k: usize = 0;
    while k < tick.len()
        invariant
            k <= tick@.len(),
            sums_in_range(tick@),
            acc == seq_sum(tick@.take(k as int)),
        decreases tick@.len() - k,
    {
        proof {
            lemma_seq_sum_take_step(tick@, k as int);
            assert(i128::MIN <= seq_sum(tick@.take(k + 1)) <= i128::MAX);
        }
        acc = acc + tick[k];
        k = k + 1;
    }
    proof {
        assert(tick@.take(tick@.len() as int) =~= tick@);
    }
    Some(acc)
}

/// One partial aggregate per nonempty tick, in tick order; empty ticks
/// contribute nothing.
pub open spec fn tick_sums(ticks: Seq<Seq<i128>>) -> Seq<i128>
    decreases ticks.len(),
{
    if ticks.len() == 0 {
        Seq::empty()
    } else if ticks.last().len() == 0 {
        tick_sums(ticks.drop_last())
    } else {
        tick_sums(ticks.drop_last()).push(seq_sum(ticks.last()) as i128)
    }
}

/// The windowed local reducer: each tick's batch is folded in arrival
/// order, producing exactly one partial aggregate per nonempty tick.
pub fn reduce_ticks(ticks: &Vec<Vec<i128>>) -> (r: Vec<i128>)
    requires
        forall|j: int| 0 <= j < ticks@.len() ==> sums_in_range((#[trigger] ticks@[j])@),
    ensures
        r@ == tick_sums(views_of(ticks@)),
{
    let mut out: Vec<i128> = Vec::new();
    let mut j: usize = 0;
    while j < ticks.len()
        invariant
            j <= ticks@.len(),
            forall|k: int| 0 <= k < ticks@.len() ==> sums_in_range((#[trigger] ticks@[k])@),
            out@ == tick_sums(views_of(ticks@).take(j as int)),
        decreases ticks@.len() - j,
    {
        let partial = reduce_one_tick(&ticks[j]);
        proof {
            let vs = views_of(ticks@);
            assert(vs.take(j + 1).drop_last() =~= vs.take(j as int));
            assert(vs.take(j + 1).last() == ticks@[j as int]@);
        }
        match partial {
            Some(v) => out.push(v),
            None => (),
        }
        j = j + 1;
    }
    proof {
        assert(views_of(ticks@).take(ticks@.len() as int) =~= views_of(ticks@));
    }
    out
}

/// A reduction of a nonempty sequence with combiner `f`: `f` applied
/// strictly in order, seeded with the first element.
pub open spec fn fold1<A>(s: Seq<A>, f: spec_fn(A, A) -> A) -> A
    recommends
        s.len() > 0,
    decreases s.len(),
{
    if s.len() <= 1 {
        s[0]
    } else {
        f(fold1(s.drop_last(), f), s.last())
    }
}

/// Local reduction is grouping-independent: for an associative combiner,
/// reducing two halves of a batch and combining their results equals
/// reducing the whole batch, so every internal grouping of a tick's fold
/// yields the same value.
pub proof fn lemma_fold1_split<A>(a: Seq<A>, b: Seq<A>, f: spec_fn(A, A) -> A)
    requires
        associative(f),
        a.len() > 0,
        b.len() > 0,
    ensures
        fold1(a + b, f) == f(fold1(a, f), fold1(b, f)),
    decreases b.len(),
{
    if b.len() == 1 {
        assert((a + b).drop_last() =~= a);
        assert((a + b).last() == b[0]);
    } else {
        lemma_fold1_split(a, b.drop_last(), f);
        assert((a + b).drop_last() =~= a + b.drop_last());
        assert((a + b).last() == b.last());
        assert(f(f(fold1(a, f), fold1(b.drop_last(), f)), b.last()) == f(
            fold1(a, f),
            f(fold1(b.drop_last(), f), b.last()),
        ));
    }
}

/// The sum combiner of the example pipeline is one instance of the
/// grouping law: summing a batch is the order-seeded fold of addition.
pub proof fn lemma_sum_is_fold1(s: Seq<i128>, f: spec_fn(int, int) -> int)
    requires
        s.len() > 0,
        forall|a: int, b: int| #[trigger] f(a, b) == a + b,
    ensures
        fold1(s.map_values(|x: i128| x as int), f) == seq_sum(s),
    decreases s.len(),
{
    let m = s.map_values(|x: i128| x as int);
    assert(m.len() == s.len());
    if s.len() == 1 {
        assert(m[0] == s[0]);
        assert(fold1(m, f) == m[0]);
        assert(s.drop_last().len() == 0);
        assert(seq_sum(s.drop_last()) == 0);
        assert(seq_sum(s) == seq_sum(s.drop_last()) + s.last());
    } else {
        lemma_sum_is_fold1(s.drop_last(), f);
        assert(s.drop_last().map_values(|x: i128| x as int) =~= m.drop_last());
        assert(m.last() == s.last());
        assert(f(fold1(m.drop_last(), f), m.last()) == fold1(m.drop_last(), f) + m.last());
    }
}

} // verus!
