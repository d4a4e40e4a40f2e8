//! A node of the search tree.

use vstd::prelude::*;
use crate::moves::UciMove;

verus! {

/// A position of the search tree, held in the tree's arena and linked by
/// index: its parent, and for each child the move that leads there and the
/// child's index. `stats` holds what the caller keeps per node (the sum of
/// the values seen below it and the prior probability of reaching it).
pub struct Node<S> {
    pub parent: Option<usize>,
    pub children: Vec<(UciMove, usize)>,
    pub visit_count: u32,
    pub stats: S,
    pub is_expanded: bool,
    pub is_pending: bool,
}

impl<S> Node<S> {
    /// A fresh node: no children, no visits, neither expanded nor pending.
    pub fn new(parent: Option<usize>, stats: S) -> (n: Self)
        ensures
            n.parent == parent,
            n.children@.len() == 0,
            n.visit_count == 0,
            n.stats == stats,
            !n.is_expanded,
            !n.is_pending,
    {
        Self {
            parent,
            children: Vec::new(),
            visit_count: 0,
            stats,
            is_expanded: false,
            is_pending: false,
        }
    }
}

} // verus!
