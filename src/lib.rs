//! Solving the 0/1 knapsack problem: an exhaustive search and a greedy
//! heuristic over instances of at most 32 items, with the chosen subset
//! encoded as a bitmask.

pub mod instance;
pub mod codec;
pub mod bruteforce;
pub mod density;
pub mod heuristic;
pub mod solver;
