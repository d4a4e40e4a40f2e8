//! Bookkeeping of a batched search.

use vstd::prelude::*;
use crate::mcts::node::Node;
use crate::mcts::tree::{MctsTree, can_sub_along, sub_along};
use crate::position::{Position, fen_is_game_over};

verus! {

/// Largest number of leaves sent to the network at once.
pub const MAX_BATCH: u32 = 512;

/// Number of leaves to gather in the next batch after `nb_it` iterations:
/// small batches first, then larger ones as the tree grows.
pub open spec fn batch_size_spec(nb_it: u32, max_batch: u32) -> u32 {
    if nb_it <= 299 {
        64
    } else if nb_it <= 999 {
        128
    } else if nb_it <= 3999 {
        256
    } else {
        max_batch
    }
}

/// Law: the batch sizes. 64 leaves up to iteration 299, 128 from 300 to
/// 999, 256 from 1000 to 3999, then the largest batch allowed.
pub proof fn law_batch_sizes(nb_it: u32, max_batch: u32)
    ensures
        nb_it < 300 ==> batch_size_spec(nb_it, max_batch) == 64,
        300 <= nb_it < 1000 ==> batch_size_spec(nb_it, max_batch) == 128,
        1000 <= nb_it < 4000 ==> batch_size_spec(nb_it, max_batch) == 256,
        4000 <= nb_it ==> batch_size_spec(nb_it, max_batch) == max_batch,
{
}

/// Number of leaves to gather in the next batch after `nb_it` iterations.
pub fn batch_size_for(nb_it: u32, max_batch: u32) -> (b: u32)
    ensures
        b == batch_size_spec(nb_it, max_batch),
{
    match nb_it {
        0..=299 => 64,
        300..=999 => 128,
        1000..=3999 => 256,
        _ => max_batch,
    }
}

/// Where a descent of the collection phase ended.
#[derive(Clone, Copy, Debug, PartialEq, Eq, Structural)]
pub enum LeafOutcome {
    /// The node reached is expanded or already waiting for the network: the
    /// branch is saturated and the batch goes as it stands.
    Saturated,
    /// The game is over at the node reached: the caller backs its result up.
    GameOver,
    /// A new node, now waiting for the network.
    Queued,
}

/// Settles the node `leaf` that a descent reached along `path`, at depth
/// `depth`, in position `board`. A saturated branch, or a finished game,
/// takes the descent's virtual losses `vl` back from `path`; a new node is
/// marked pending and keeps them. Unless the branch is saturated, the tree
/// records the depth reached.
pub fn settle_leaf<S>(tree: &mut MctsTree<S>, path: &Vec<usize>, leaf: usize, depth: u8, vl: u32, board: &Position) -> (r: LeafOutcome)
    requires
        leaf < old(tree).view_nodes().len(),
        can_sub_along(old(tree).view_nodes(), path@, vl),
    ensures
        old(tree).wf() ==> final(tree).wf(),
        ({
            let o = old(tree).view_nodes();
            let n = final(tree).view_nodes();
            let l = o[leaf as int];
            if l.is_expanded || l.is_pending {
                &&& r == LeafOutcome::Saturated
                &&& n == sub_along(o, path@, vl)
                &&& final(tree).depth() == old(tree).depth()
            } else {
                &&& final(tree).depth() == (if depth > old(tree).depth() { depth } else { old(tree).depth() })
                &&& if fen_is_game_over(board@) {
                    r == LeafOutcome::GameOver && n == sub_along(o, path@, vl)
                } else {
                    r == LeafOutcome::Queued && n == o.update(leaf as int, Node { is_pending: true, ..l })
                }
            }
        }),
{
    if tree.node(leaf).is_expanded || tree.node(leaf).is_pending {
        tree.remove_virtual_loss(path, vl);
        return LeafOutcome::Saturated;
    }
    tree.note_depth(depth);
    if board.is_game_over() {
        tree.remove_virtual_loss(path, vl);
        LeafOutcome::GameOver
    } else {
        tree.set_pending(leaf);
        LeafOutcome::Queued
    }
}

/// How far a search has got: the iterations done, counted from 1 (the
/// root's evaluation), and the iterations asked for.
pub struct SearchProgress {
    pub nb_it: u32,
    pub nb_iterations: u32,
}

impl SearchProgress {
    /// A search of `nb_iterations` iterations, at its start.
    pub fn new(nb_iterations: u32) -> (p: Self)
        ensures
            p.nb_it == 1,
            p.nb_iterations == nb_iterations,
    {
        SearchProgress { nb_it: 1, nb_iterations }
    }

    /// Whether iterations remain to be done.
    pub fn running(&self) -> (r: bool)
        ensures
            r == (self.nb_it < self.nb_iterations),
    {
        self.nb_it < self.nb_iterations
    }

    /// Number of leaves to gather in the next batch.
    pub fn batch_size(&self, max_batch: u32) -> (b: u32)
        ensures
            b == batch_size_spec(self.nb_it, max_batch),
    {
        batch_size_for(self.nb_it, max_batch)
    }

    /// One more iteration done: a finished game backed up, or a leaf
    /// expanded with the network's answer.
    pub fn count(&mut self)
        requires
            old(self).nb_it < u32::MAX,
        ensures
            final(self).nb_it == old(self).nb_it + 1,
            final(self).nb_iterations == old(self).nb_iterations,
    {
        self.nb_it = self.nb_it + 1;
    }
}

/// Number of answers of the network to read: those it reports ready, at
/// most the number of leaves sent.
pub fn predictions_to_read(ready: u16, sent: usize) -> (n: usize)
    ensures
        n == (if (ready as int) < sent { ready as int } else { sent as int }),
{
    if (ready as usize) < sent {
        ready as usize
    } else {
        sent
    }
}

} // verus!
