//! An event-sourced aggregate store: an append-only event log with optimistic
//! concurrency, snapshots that bound the cost of replay, and a command
//! processor that feeds committed events to read-side projections.

pub mod account;
pub mod aggregate;
pub mod event_log;
pub mod processor;
pub mod replayer;
pub mod snapshot;
pub mod wiring;
