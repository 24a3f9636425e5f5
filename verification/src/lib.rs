//! A model of the 3x3x3 Rubik's Cube together with an optimal solver.
//!
//! What runs:
//!
//! - `cube`: the cube state, face turns, coordinate indexing and the
//!   move-sequence reducer;
//! - `parser` and `notation`: reading and writing moves in the usual
//!   notation;
//! - `pruning`: construction of the pattern databases used as a heuristic;
//! - `solver`: iterative-deepening A* driven by those databases;
//! - `astar` and `frontier`: best-first search over a priority queue;
//! - `puzzle`: a general description of twisty puzzles.
//!
//! What it is specified against:
//!
//! - `model`: configurations, turns and move sequences as mathematics;
//! - `ranking`: the coordinates of a configuration.
//!
//! What is proved of it, beyond the contracts of the functions:
//!
//! - `laws`: the statements about the library as a whole;
//! - `algebra`, `invariants`, `parity`, `permutation`, `sequences`: face
//!   turns and what they keep;
//! - `lehmer`: the rank of a permutation is one-to-one and onto;
//! - `reducer`, `heuristic`: the search loses no solution, and tables of
//!   least depths never overestimate.
//!
//! Every executable function carries a contract that is checked by Verus.
//! The one thing that is believed rather than proved is the behaviour of the
//! priority queue, stated in `frontier`.

pub mod algebra;
pub mod astar;
pub mod cube;
pub mod frontier;
pub mod heuristic;
pub mod invariants;
pub mod laws;
pub mod lehmer;
pub mod model;
pub mod notation;
pub mod parity;
pub mod parser;
pub mod permutation;
pub mod pruning;
pub mod puzzle;
pub mod ranking;
pub mod reducer;
pub mod sequences;
pub mod solver;

