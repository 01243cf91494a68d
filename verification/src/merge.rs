use vstd::prelude::*;
use vstd::seq_lib::{commutative_foldl, lemma_fold_left_permutation};
use crate::reduce::{seq_sum, sums_in_range, lemma_seq_sum_take_step};

verus! {

/// One arrival at the coordinator: the running aggregate combined with
/// the newly arrived partial aggregate.
pub fn merge_step(global: i128, partial: i128) -> (r: i128)
    requires
        i128::MIN <= global + partial <= i128::MAX,
    ensures
        r == global + partial,
{
    global + partial
}

/// The global merge reducer: the coordinator folds every arriving
/// partial aggregate into its running aggregate strictly in arrival
/// order, starting from the empty aggregate.
pub fn global_merge(partials: &Vec<i128>) -> (r: i128)
    requires
        sums_in_range(partials@),
    ensures
        r == seq_sum(partials@),
{
    let mut global: i128 = 0;
    let mut k: usize = 0;
    while k < partials.len()
        invariant
            k <= partials@.len(),
            sums_in_range(partials@),
            global == seq_sum(partials@.take(k as int)),
        decreases partials@.len() - k,
    {
        proof {
            lemma_seq_sum_take_step(partials@, k as int);
            assert(i128::MIN <= seq_sum(partials@.take(k + 1)) <= i128::MAX);
        }
        global = merge_step(global, partials[k]);
        k = k + 1;
    }
    proof {
        assert(partials@.take(partials@.len() as int) =~= partials@);
    }
    global
}

/// The running sum is a left fold of the addition step.
proof fn lemma_seq_sum_is_fold_left(s: Seq<i128>, f: spec_fn(int, i128) -> int)
    requires
        forall|a: int, x: i128| #[trigger] f(a, x) == a + x,
    ensures
        s.fold_left(0, f) == seq_sum(s),
    decreases s.len(),
{
    if s.len() > 0 {
        lemma_seq_sum_is_fold_left(s.drop_last(), f);
    }
}

/// Arrival order at the coordinator does not matter: two partial streams
/// that hold the same partial aggregates, in any interleaving, merge to
/// the same global aggregate — the sum combiner is associative and
/// commutative, as the global merge requires.
pub proof fn lemma_merge_order_independent(p1: Seq<i128>, p2: Seq<i128>)
    requires
        p1.to_multiset() == p2.to_multiset(),
    ensures
        seq_sum(p1) == seq_sum(p2),
{
    let f = |a: int, x: i128| a + x;
    lemma_seq_sum_is_fold_left(p1, f);
    lemma_seq_sum_is_fold_left(p2, f);
    assert(commutative_foldl(f)) by {
        assert(forall|x: i128, y: i128, v: int| #[trigger] f(f(v, x), y) == f(f(v, y), x));
    }
    lemma_fold_left_permutation(p1, p2, f, 0);
}

} // verus!
