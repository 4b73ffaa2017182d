//! The grouping adapter: wraps a duplicable source and an adjacency
//! predicate, and on each pull yields the next maximal run of
//! consecutive elements related pairwise by the predicate, as a lazy
//! bounded view over a duplicate of the source.

use vstd::prelude::*;

use crate::model::{lemma_run_len_determined, run_len};
use crate::predicate::AdjacencyPredicate;
use crate::source::Source;

verus! {

/// Splits a source into maximal runs of adjacent elements related by a
/// predicate.
///
/// The adapter owns the current traversal position: after each produced
/// group its source stands exactly one element past the last element of
/// that group, so no element is skipped and none is re-emitted. Once
/// the source is exhausted, every further pull signals exhaustion
/// again.
#[must_use]
pub struct GroupIterator<S, P> where S: Source, P: AdjacencyPredicate<S::Item> {
    source: S,
    predicate: P,
}

impl<S, P> GroupIterator<S, P> where S: Source, P: AdjacencyPredicate<S::Item> {
    /// The elements not yet grouped, in the order the source yields
    /// them.
    pub closed spec fn remaining(&self) -> Seq<S::Item> {
        self.source.remaining()
    }

    /// The predicate the adapter was built with.
    pub closed spec fn predicate(&self) -> P {
        self.predicate
    }

    /// The predicate as a spec function on adjacent pairs.
    pub open spec fn pred(&self) -> spec_fn(S::Item, S::Item) -> bool {
        |a: S::Item, b: S::Item| self.predicate().holds(a, b)
    }

    /// Wraps `source` so that it is pulled group by group, split at
    /// exactly the adjacent pairs that `predicate` rejects.
    pub fn new(source: S, predicate: P) -> (r: Self)
        ensures
            r.remaining() == source.remaining(),
            r.predicate() == predicate,
    {
        GroupIterator { source, predicate }
    }

    /// Pulls the next group: the longest nonempty prefix of the
    /// remaining elements in which every adjacent pair satisfies the
    /// predicate. Signals exhaustion, and keeps doing so, once nothing
    /// remains.
    #[verifier::loop_isolation(false)]
    pub fn next(&mut self) -> (r: Option<Group<S>>)
        ensures
            final(self).predicate() == old(self).predicate(),
            old(self).remaining().len() == 0 ==> r is None && final(self).remaining() == old(
                self,
            ).remaining(),
            old(self).remaining().len() > 0 ==> (r matches Some(g) && g.items() == old(
                self,
            ).remaining().take(run_len(old(self).pred(), old(self).remaining()) as int)
                && final(self).remaining() == old(self).remaining().skip(
                run_len(old(self).pred(), old(self).remaining()) as int,
            ) && g.items().len() >= 1),
    {
        let ghost s = self.source.remaining();
        let ghost p = self.pred();
        proof {
            self.source.lemma_remaining_bounded();
        }
        let orig = self.source.fork();
        let mut cur = self.source.fork();
        let mut next_cur = self.source.fork();
        let _ = next_cur.next();
        let mut count: usize = 0;
        proof {
            if s.len() > 0 {
                assert(next_cur.remaining() =~= s.skip(1));
            }
        }
        loop
            invariant
                *self == *old(self),
                orig.remaining() == s,
                s.len() == 0 ==> count == 0 && cur.remaining() == s && next_cur.remaining().len()
                    == 0,
                s.len() > 0 ==> count + 1 <= s.len() && cur.remaining() == s.skip(count as int)
                    && next_cur.remaining() == s.skip(count as int + 1),
                forall|j: int| 0 <= j < count ==> p(#[trigger] s[j], s[j + 1]),
            decreases s.len() - count,
        {
            let value = cur.next();
            let value_next = next_cur.next();
            match (value, value_next) {
                (Some(a), Some(b)) => {
                    if self.predicate.eval(&a, &b) {
                        proof {
                            assert(a == s[count as int] && b == s[count as int + 1]);
                            assert(cur.remaining() =~= s.skip(count as int + 1));
                            assert(next_cur.remaining() =~= s.skip(count as int + 2));
                        }
                        count = count + 1;
                    } else {
                        proof {
                            assert(a == s[count as int] && b == s[count as int + 1]);
                            assert(cur.remaining() =~= s.skip(count as int + 1));
                            lemma_run_len_determined(p, s, count as int + 1);
                        }
                        self.source = cur;
                        return Some(Group { cursor: orig, len: count + 1 });
                    }
                },
                (Some(_), None) => {
                    proof {
                        assert(count + 1 == s.len());
                        assert(cur.remaining() =~= s.skip(count as int + 1));
                        lemma_run_len_determined(p, s, count as int + 1);
                    }
                    self.source = cur;
                    return Some(Group { cursor: orig, len: count + 1 });
                },
                _ => {
                    return None;
                },
            }
        }
    }
}

impl<S, P> GroupIterator<S, P> where S: Source, P: AdjacencyPredicate<S::Item> + Copy {
    /// Duplicates the adapter at its current position; the duplicate
    /// and the original advance independently thereafter.
    pub fn fork(&self) -> (r: Self)
        ensures
            r.remaining() == self.remaining(),
            r.predicate() == self.predicate(),
    {
        GroupIterator { source: self.source.fork(), predicate: self.predicate }
    }
}

/// The fluent form of [`GroupIterator::new`]: any duplicable source
/// exposes `group_adjacent`, so that grouping composes with prior and
/// further adapters.
pub trait GroupAdjacent: Source {
    /// Wraps this source in a [`GroupIterator`] that splits it into
    /// maximal runs of adjacent elements related by `predicate`.
    fn group_adjacent<P: AdjacencyPredicate<Self::Item>>(self, predicate: P) -> (r: GroupIterator<
        Self,
        P,
    >)
        ensures
            r.remaining() == self.remaining(),
            r.predicate() == predicate,
    ;
}

impl<S: Source> GroupAdjacent for S {
    fn group_adjacent<P: AdjacencyPredicate<S::Item>>(self, predicate: P) -> (r: GroupIterator<
        S,
        P,
    >) {
        GroupIterator::new(self, predicate)
    }
}

/// One produced group: a lazy bounded view over a duplicate of the
/// source positioned at the start of the run, capped to the run's
/// length. It copies no elements; consuming it pulls them from its own
/// cursor, independently of the adapter that produced it.
pub struct Group<S> where S: Source {
    cursor: S,
    len: usize,
}

impl<S: Source> Group<S> {
    /// The elements this group will still yield, in order.
    pub closed spec fn items(&self) -> Seq<S::Item> {
        if self.len <= self.cursor.remaining().len() {
            self.cursor.remaining().take(self.len as int)
        } else {
            self.cursor.remaining()
        }
    }

    /// Drains the group into a vector holding exactly its elements.
    #[verifier::loop_isolation(false)]
    pub fn into_vec(self) -> (r: Vec<S::Item>)
        ensures
            r@ == self.items(),
    {
        let ghost total = self.items();
        let mut group = self;
        let mut out: Vec<S::Item> = Vec::new();
        loop
            invariant
                out@ + group.items() == total,
            decreases group.items().len(),
        {
            match group.next() {
                Some(x) => {
                    out.push(x);
                    proof {
                        assert(out@ + group.items() =~= total);
                    }
                },
                None => {
                    proof {
                        assert(out@ =~= total);
                    }
                    return out;
                },
            }
        }
    }
}

/// A group is itself a source: it can be pulled element by element,
/// duplicated, and grouped again.
impl<S: Source> Source for Group<S> {
    type Item = S::Item;

    open spec fn remaining(&self) -> Seq<S::Item> {
        self.items()
    }

    proof fn lemma_remaining_bounded(&self) {
        self.cursor.lemma_remaining_bounded();
    }

    fn next(&mut self) -> (r: Option<S::Item>) {
        if self.len == 0 {
            None
        } else {
            match self.cursor.next() {
                Some(x) => {
                    self.len = self.len - 1;
                    proof {
                        assert(self.items() =~= old(self).items().drop_first());
                    }
                    Some(x)
                },
                None => None,
            }
        }
    }

    fn fork(&self) -> (r: Self) {
        Group { cursor: self.cursor.fork(), len: self.len }
    }
}

} // verus!
