//! The adjacency predicate the grouping adapter requires: a pure binary
//! test deciding whether two consecutive elements belong to the same
//! group.

use vstd::prelude::*;

verus! {

/// A pure, side-effect-free test on two consecutive elements.
///
/// `holds` is the mathematical meaning of the predicate; `eval` is its
/// executable form and must agree with it, so that every evaluation of
/// the same pair gives the same answer.
pub trait AdjacencyPredicate<T>: Sized {
    /// Whether `a` and `b`, in this order, belong to the same group.
    spec fn holds(&self, a: T, b: T) -> bool;

    /// Evaluates the predicate on one adjacent pair.
    fn eval(&self, a: &T, b: &T) -> (r: bool)
        ensures
            r == self.holds(*a, *b),
    ;
}

/// The non-strict order predicate on integers: consecutive elements
/// stay in the same group while they do not decrease.
#[derive(Clone, Copy)]
pub struct LessOrEqual;

impl AdjacencyPredicate<i32> for LessOrEqual {
    open spec fn holds(&self, a: i32, b: i32) -> bool {
        a <= b
    }

    fn eval(&self, a: &i32, b: &i32) -> (r: bool) {
        *a <= *b
    }
}

/// The strict order predicate on integers: consecutive elements stay in
/// the same group only while they increase, so equal neighbours are
/// split apart.
#[derive(Clone, Copy)]
pub struct LessThan;

impl AdjacencyPredicate<i32> for LessThan {
    open spec fn holds(&self, a: i32, b: i32) -> bool {
        a < b
    }

    fn eval(&self, a: &i32, b: &i32) -> (r: bool) {
        *a < *b
    }
}

} // verus!
