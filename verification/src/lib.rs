//! Move coding, legal-move masks, board tensors, the search tree and the UCI
//! command logic of a neural-network chess engine driven by Monte Carlo tree
//! search.

pub mod moves;
pub mod position;
pub mod encoding;
pub mod legal;
pub mod board;
pub mod tensor;
pub mod mcts;
pub mod text;
pub mod uci;
