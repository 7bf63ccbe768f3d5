//! Randomised search heuristics on bit strings and permutations: the
//! candidates, the fitness functions, the mutation operators and the
//! algorithms that combine them, one iteration at a time.

pub mod rng;
pub mod search_space;
pub mod text;
pub mod fitness;
pub mod mutation;
pub mod algorithms;
pub mod create;
pub mod schedule;
