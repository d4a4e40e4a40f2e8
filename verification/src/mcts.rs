//! Monte Carlo tree search: the tree of positions and the bookkeeping of a
//! batched search.

pub mod node;
pub mod tree;
pub mod search;
