//! The vocabulary of the query language: the kinds of node of a query tree
//! and the kinds of term at its leaves.

use vstd::prelude::*;

verus! {

/// How a node of a query tree combines what stands under it.
#[derive(Debug, PartialEq, Eq, Structural, Clone, Copy)]
pub enum NodeType {
    And,
    Or,
    Not,
    Group,
}

/// How a term matches.
#[derive(Debug, PartialEq, Eq, Structural, Clone, Copy)]
pub enum TermType {
    Phrase,
    Word,
    Wildcard,
    Fuzzy,
    Proximity,
    Range,
    Boosted,
}

} // verus!
