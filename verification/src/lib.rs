//! Lazy grouping of a sequence into maximal runs of adjacent elements
//! related by a caller-supplied predicate.
//!
//! A [`grouping::GroupIterator`] wraps any duplicable source of elements
//! (see [`source::Source`]) together with a binary adjacency predicate
//! (see [`predicate::AdjacencyPredicate`]). Each pull yields the next
//! maximal run of consecutive elements whose adjacent pairs all satisfy
//! the predicate, as a lazy bounded view over a duplicate of the source,
//! until the source is exhausted.

pub mod grouping;
pub mod laws;
pub mod model;
pub mod predicate;
pub mod source;
