//! A fixed-size worker pool, verified as a state machine over a single shared
//! dispatch queue, together with a small verified line-search utility.
//!
//! The pool owns a fixed set of worker records and one queue of dispatch
//! messages.  Callers enqueue tasks with `execute`; a shutdown enqueues one
//! stop message per worker.  The functions that move the state are verified:
//! every submitted task is delivered to exactly one worker, in submission
//! order, and once every worker has stopped the queue is provably drained.
//! The host program supplies the actual threads and calls these functions
//! from them; nothing here blocks or spawns.

pub mod pool;
pub mod search;
