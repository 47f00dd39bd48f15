//! The bookkeeping core of a fixed-size worker pool, and what a small web
//! server built on it answers.
//!
//! The pool is written as a deterministic state machine: it owns the job
//! queue and one record per worker, and every decision the pool has to make
//! (which job goes out next, when a worker has to wait, when it may exit,
//! which workers a shutdown still has to wait for) is a method here. Threads
//! and blocking are left to a driver that calls these methods under a lock.

pub mod error;
pub mod http;
pub mod laws;
pub mod pool;
pub mod queue;
pub mod worker;

pub use error::PoolCreationError;
pub use pool::ThreadPool;
