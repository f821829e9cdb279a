//! A priority-aware task registry and result accumulator.
//!
//! The library holds the decisions of a task execution engine: which pending
//! tasks are awaited (or cancelled), in which order, and how the shared result
//! stream counts in-flight work. Threads, the async runtime and locking live
//! around it; they hand the library plain values and take plain values back.
use vstd::prelude::*;

pub mod priority;
pub mod registry;
pub mod stream;

verus! {

} // verus!
