# chess_uci

The Rust half of a chess engine that plays through the UCI protocol: a
neural network (run elsewhere, reached through shared memory) scores
positions, and a Monte Carlo tree search picks the move.

`src/` is the verified library:

- `moves`: pieces, squares and UCI moves, read from and written to text;
- `position`: positions kept as FEN text, with the rules of chess asked of
  the `shakmaty` crate;
- `encoding`: the network's move index (73 planes of 64 squares, seen from
  the side to move) and the move it stands for, both ways;
- `legal`: the 584-byte mask of legal moves handed to the network;
- `board`, `tensor`: the 19 x 8 x 8 input tensor, from a board read by the
  `chess` crate;
- `mcts`: the search tree (an arena of nodes), its expansion, visit counts,
  virtual losses and rankings, and the batch schedule;
- `text`, `uci`: the command lines of the UCI protocol and what the engine
  does and answers.

`app/` holds the program around it: `main`, standard input and output, the
shared memory, and the parts that compute in floating point (node values,
the PUCT choice, probabilities, the drawing of the tree).

`tests/` runs the library on concrete values.
