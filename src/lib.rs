//! An in-process job engine: prioritised submissions, a pending index with
//! bounded capacity, a time-bounded result cache, and a registry of
//! cancellable tasks. Every operation here is a plain state transition; the
//! threads, timers and channels that drive them live with the caller.
pub mod ids;
pub mod pending;
pub mod processing;
pub mod engine;
pub mod tasks;
