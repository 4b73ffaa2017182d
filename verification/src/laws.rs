//! The laws of adjacency grouping, proved over the model in
//! [`crate::model`]: grouping partitions the input, every group is a
//! maximal nonempty run, and an empty input splits into no groups.

use vstd::prelude::*;

use crate::model::{groups, lemma_run_len_bounds, lemma_run_len_pairs, pairwise, run_len};

verus! {

/// Partition law: concatenating all groups in order reproduces the
/// input exactly; no element is dropped, duplicated, or reordered.
pub proof fn lemma_groups_cover<T>(p: spec_fn(T, T) -> bool, s: Seq<T>)
    ensures
        groups(p, s).flatten() == s,
    decreases s.len(),
{
    if s.len() == 0 {
        assert(groups(p, s).flatten() =~= s);
    } else {
        lemma_run_len_bounds(p, s);
        let k = run_len(p, s) as int;
        let gs = groups(p, s);
        lemma_groups_cover(p, s.skip(k));
        assert(gs.drop_first() =~= groups(p, s.skip(k)));
        assert(gs.flatten() == gs.first() + gs.drop_first().flatten());
        assert(s.take(k) + s.skip(k) =~= s);
    }
}

/// Minimum group length: every produced group has at least one element.
pub proof fn lemma_groups_nonempty<T>(p: spec_fn(T, T) -> bool, s: Seq<T>)
    ensures
        forall|i: int| 0 <= i < groups(p, s).len() ==> #[trigger] groups(p, s)[i].len() >= 1,
    decreases s.len(),
{
    if s.len() > 0 {
        lemma_run_len_bounds(p, s);
        let k = run_len(p, s) as int;
        lemma_groups_nonempty(p, s.skip(k));
        assert forall|i: int| 0 <= i < groups(p, s).len() implies #[trigger] groups(p, s)[i].len()
            >= 1 by {
            if i > 0 {
                assert(groups(p, s)[i] == groups(p, s.skip(k))[i - 1]);
            }
        }
    }
}

/// Run-maximality: within each group every adjacent pair satisfies the
/// predicate, and for every non-final group the pair formed by its last
/// element and the next group's first element does not — the split
/// points are exactly the predicate-failure points.
pub proof fn lemma_groups_maximal<T>(p: spec_fn(T, T) -> bool, s: Seq<T>)
    ensures
        forall|i: int| 0 <= i < groups(p, s).len() ==> pairwise(p, #[trigger] groups(p, s)[i]),
        forall|i: int| 0 <= i < groups(p, s).len() - 1 ==> !p(
            #[trigger] groups(p, s)[i].last(),
            groups(p, s)[i + 1].first(),
        ),
    decreases s.len(),
{
    if s.len() > 0 {
        lemma_run_len_bounds(p, s);
        lemma_run_len_pairs(p, s);
        let k = run_len(p, s) as int;
        let rest = s.skip(k);
        let gs = groups(p, s);
        lemma_groups_maximal(p, rest);
        lemma_groups_nonempty(p, rest);
        assert forall|i: int| 0 <= i < gs.len() implies pairwise(p, #[trigger] gs[i]) by {
            if i > 0 {
                assert(gs[i] == groups(p, rest)[i - 1]);
            }
        }
        assert forall|i: int| 0 <= i < gs.len() - 1 implies !p(
            #[trigger] gs[i].last(),
            gs[i + 1].first(),
        ) by {
            if i == 0 {
                // The cut after the first group is a predicate failure:
                // the first element of the second group is s[k].
                if k == s.len() {
                    assert(rest.len() == 0);
                    assert(groups(p, rest).len() == 0);
                }
                assert(k < s.len());
                let g1 = groups(p, rest)[0];
                assert(g1 == rest.take(run_len(p, rest) as int));
                lemma_run_len_bounds(p, rest);
                assert(g1.first() == rest[0]);
                assert(gs[0].last() == s[k - 1]);
                assert(!p(s[k - 1], s[k]));
            } else {
                assert(gs[i] == groups(p, rest)[i - 1]);
                assert(gs[i + 1] == groups(p, rest)[i]);
            }
        }
    }
}

/// Empty source law: grouping an empty sequence yields zero groups.
pub proof fn lemma_groups_empty<T>(p: spec_fn(T, T) -> bool)
    ensures
        groups(p, Seq::<T>::empty()).len() == 0,
{
}

} // verus!
