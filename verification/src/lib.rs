//! A fixed-size worker pool, modeled and verified.
//!
//! The pool owns a bounded set of long-lived workers that consume arbitrarily
//! many one-shot jobs from a shared FIFO work channel, and shuts down through
//! a two-phase protocol: send exactly one terminate signal per worker, then
//! join every worker thread exactly once.
//!
//! The library verifies the pool's protocol logic: the work channel's FIFO
//! discipline, the worker state machine, the accounting that makes shutdown
//! deadlock-free, and the guarantee that every submitted job is handed out
//! exactly once. The operating-system threads themselves, which Verus cannot
//! reason about, live outside the library; they drive this model one dequeue
//! at a time.

pub mod channel;
pub mod message;
pub mod pool;
pub mod worker;
