//! A fixed-size worker pool: a bounded set of worker threads draining one
//! shared, unbounded job queue, with a graceful-shutdown protocol.
//!
//! This crate verifies the part of such a pool that needs reasoning: the
//! lifecycle of the pool and its workers. Threads, the channel and the mutex
//! live outside; the pool here is their state machine, every transition an
//! executable function whose contract says exactly when it is enabled and
//! what it changes. A runtime drives the real threads and mirrors each event
//! through these transitions; the proved invariants then hold of every run.

pub mod error;
pub mod pool;
