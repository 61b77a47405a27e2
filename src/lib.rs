//! In-place quicksort over a buffer of order keys, with the pivot and median
//! helpers it rests on, a fork-join parallel driver, and the dispatch rules of a
//! small worker pool; besides, a line search and a few small helpers.

pub mod arith;
pub mod bounds;
pub mod grep;
pub mod key;
pub mod median;
pub mod pool;
pub mod sort;
