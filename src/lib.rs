//! Adaptive parallel consumption of sequences that can split their own
//! pending work in two, even while that work keeps growing.
//!
//! A [`Spliterator`] is an iterator that can hand half of what it has not
//! produced yet to a new, independently owned iterator. [`ParSpliter`] holds
//! one together with a split budget and decides, step by step, whether to
//! fork, to consume an item, or to stop. A scheduler carries those moves out;
//! [`ParSpliter::run_inline`] and [`ParSpliter::any_inline`] are schedulers
//! that run both halves of every fork on the calling thread.
//!
//! What an iterator will still produce is its `remaining()` sequence under
//! vstd's iterator laws. Splits conserve it as a multiset, and a run of the
//! bridge produces exactly that multiset, whatever the budget, the worker
//! count and the relocations reported; [`laws`] draws the consequence for
//! any aggregation whose combining operation is commutative and associative.
use vstd::prelude::*;

pub mod laws;
pub mod par_spliter;
mod pool;
pub mod spliterator;

pub use par_spliter::{ParSpliter, Step};
pub use spliterator::{ParallelSpliterator, Spliterator};
