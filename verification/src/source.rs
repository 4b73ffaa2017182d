//! The sequence capability the grouping adapter requires: a source of
//! elements that can be pulled one at a time and duplicated at its
//! current position, each duplicate advancing independently.

use vstd::prelude::*;

verus! {

/// A duplicable lazy sequence of elements.
///
/// `remaining()` is the abstract sequence of elements not yet pulled.
/// Each pull either yields the first remaining element or, once no
/// element remains, signals exhaustion; [`Source::fork`] duplicates the
/// traversal position, and a fork and its original advance
/// independently thereafter.
pub trait Source: Sized {
    type Item;

    /// The elements this source will still yield, in order.
    spec fn remaining(&self) -> Seq<Self::Item>;

    /// A source never promises more elements than a count can hold.
    proof fn lemma_remaining_bounded(&self)
        ensures
            self.remaining().len() <= usize::MAX,
    ;

    /// Pulls the next element, or signals exhaustion; exhaustion is
    /// idempotent, leaving the source exhausted.
    fn next(&mut self) -> (r: Option<Self::Item>)
        ensures
            old(self).remaining().len() == 0 ==> r is None && final(self).remaining()
                == old(self).remaining(),
            old(self).remaining().len() > 0 ==> r == Some(old(self).remaining()[0])
                && final(self).remaining() == old(self).remaining().drop_first(),
    ;

    /// Duplicates the source at its current position.
    fn fork(&self) -> (r: Self)
        ensures
            r.remaining() == self.remaining(),
    ;
}

/// A [`Source`] over the elements of a vector: a position-capable
/// cursor, duplicated by copying the vector and the position.
pub struct VecCursor<T> {
    items: Vec<T>,
    pos: usize,
}

impl<T: Copy> VecCursor<T> {
    /// A cursor positioned at the first element of `items`.
    pub fn new(items: Vec<T>) -> (r: Self)
        ensures
            r.remaining() == items@,
    {
        VecCursor { items, pos: 0 }
    }
}

impl<T: Copy> Source for VecCursor<T> {
    type Item = T;

    closed spec fn remaining(&self) -> Seq<T> {
        if self.pos <= self.items@.len() {
            self.items@.skip(self.pos as int)
        } else {
            Seq::empty()
        }
    }

    proof fn lemma_remaining_bounded(&self) {
        vstd::std_specs::vec::axiom_spec_len(&self.items);
    }

    fn next(&mut self) -> (r: Option<T>) {
        if self.pos < self.items.len() {
            let v = self.items[self.pos];
            self.pos = self.pos + 1;
            proof {
                assert(self.remaining() =~= old(self).remaining().drop_first());
            }
            Some(v)
        } else {
            None
        }
    }

    fn fork(&self) -> (r: Self) {
        let mut copied: Vec<T> = Vec::new();
        let mut i: usize = 0;
        while i < self.items.len()
            invariant
                i <= self.items@.len(),
                copied@ == self.items@.take(i as int),
            decreases self.items@.len() - i,
        {
            copied.push(self.items[i]);
            proof {
                assert(copied@ =~= self.items@.take(i + 1));
            }
            i = i + 1;
        }
        proof {
            assert(copied@ =~= self.items@);
        }
        VecCursor { items: copied, pos: self.pos }
    }
}

} // verus!
