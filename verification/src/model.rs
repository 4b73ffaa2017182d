//! The mathematical model of adjacency grouping.
//!
//! A sequence splits into groups at exactly the positions where the
//! adjacency predicate fails between two consecutive elements. The model
//! is given by two spec functions: [`run_len`], the length of the first
//! maximal run, and [`groups`], the full split of a sequence.

use vstd::prelude::*;

verus! {

/// The length of the first maximal run of `s` under `p`: the largest
/// `k <= s.len()` such that every adjacent pair among the first `k`
/// elements satisfies `p`, and either `k == s.len()` or the pair at the
/// cut (`s[k - 1]`, `s[k]`) does not satisfy `p`.
/// Zero exactly when `s` is empty.
pub open spec fn run_len<T>(p: spec_fn(T, T) -> bool, s: Seq<T>) -> nat
    decreases s.len(),
{
    if s.len() <= 1 {
        s.len()
    } else if p(s[0], s[1]) {
        (run_len(p, s.drop_first()) + 1) as nat
    } else {
        1
    }
}

/// The split of `s` into maximal runs under `p`, in input order: the
/// first group is the first maximal run, and the rest is the split of
/// what follows it.
pub open spec fn groups<T>(p: spec_fn(T, T) -> bool, s: Seq<T>) -> Seq<Seq<T>>
    decreases s.len()
    via groups_decreases::<T>
{
    if s.len() == 0 {
        Seq::empty()
    } else {
        seq![s.take(run_len(p, s) as int)] + groups(p, s.skip(run_len(p, s) as int))
    }
}

#[via_fn]
proof fn groups_decreases<T>(p: spec_fn(T, T) -> bool, s: Seq<T>) {
    if s.len() > 0 {
        lemma_run_len_bounds(p, s);
    }
}

/// Whether every adjacent pair of `s` satisfies `p`.
pub open spec fn pairwise<T>(p: spec_fn(T, T) -> bool, s: Seq<T>) -> bool {
    forall|j: int| 0 <= j < s.len() - 1 ==> p(#[trigger] s[j], s[j + 1])
}

/// A nonempty sequence has a first run of at least one element, and the
/// run does not reach past the end of the sequence.
pub proof fn lemma_run_len_bounds<T>(p: spec_fn(T, T) -> bool, s: Seq<T>)
    requires
        s.len() > 0,
    ensures
        1 <= run_len(p, s) <= s.len(),
    decreases s.len(),
{
    if s.len() > 1 && p(s[0], s[1]) {
        lemma_run_len_bounds(p, s.drop_first());
    }
}

/// Within the first run every adjacent pair satisfies `p`, and where the
/// run stops short of the end of `s`, the pair at the cut does not.
pub proof fn lemma_run_len_pairs<T>(p: spec_fn(T, T) -> bool, s: Seq<T>)
    requires
        s.len() > 0,
    ensures
        pairwise(p, s.take(run_len(p, s) as int)),
        run_len(p, s) < s.len() ==> !p(s[run_len(p, s) - 1], s[run_len(p, s) as int]),
    decreases s.len(),
{
    lemma_run_len_bounds(p, s);
    let k = run_len(p, s) as int;
    if s.len() > 1 && p(s[0], s[1]) {
        let rest = s.drop_first();
        lemma_run_len_pairs(p, rest);
        lemma_run_len_bounds(p, rest);
        let k1 = run_len(p, rest) as int;
        assert forall|j: int| 0 <= j < k - 1 implies p(
            #[trigger] s.take(k)[j],
            s.take(k)[j + 1],
        ) by {
            if j >= 1 {
                assert(p(rest.take(k1)[j - 1], rest.take(k1)[j]));
            }
        }
        if k < s.len() {
            assert(!p(rest[k1 - 1], rest[k1]));
        }
    }
}

/// The first run length is the only `k` with the properties stated in
/// [`lemma_run_len_pairs`]: `k` adjacent pairs hold from the start, and
/// the run cannot be extended.
pub proof fn lemma_run_len_determined<T>(p: spec_fn(T, T) -> bool, s: Seq<T>, k: int)
    requires
        1 <= k <= s.len(),
        forall|j: int| 0 <= j < k - 1 ==> p(#[trigger] s[j], s[j + 1]),
        k < s.len() ==> !p(s[k - 1], s[k]),
    ensures
        run_len(p, s) == k,
    decreases s.len(),
{
    if k == 1 {
        assert(s.len() <= 1 || !p(s[0], s[1]));
    } else {
        assert(p(s[0], s[1]));
        let rest = s.drop_first();
        assert forall|j: int| 0 <= j < k - 2 implies p(#[trigger] rest[j], rest[j + 1]) by {
            assert(p(s[j + 1], s[j + 2]));
        }
        if k - 1 < rest.len() {
            assert(rest[k - 2] == s[k - 1]);
            assert(rest[k - 1] == s[k]);
        }
        lemma_run_len_determined(p, rest, k - 1);
    }
}

} // verus!
