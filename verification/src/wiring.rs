//! What the SQLite backend is set up with: the settings of its connection
//! pool, and which record each kind of store takes as its source of truth.

use vstd::prelude::*;

verus! {

/// How a connection pool is opened.
#[derive(Clone, Debug)]
pub struct PoolSettings {
    /// The most connections the pool keeps open at once.
    pub max_connections: u32,
    /// Where the database is found.
    pub connection_string: String,
}

/// What a store reads an aggregate's state from.
#[derive(PartialEq, Eq, Structural, Clone, Copy, Debug)]
pub enum SourceOfTruth {
    /// The events alone: every load replays the whole stream.
    Events,
    /// Snapshots taken every `size` events, and the events after the latest.
    Snapshots { size: usize },
    /// The aggregate as stored after every commit.
    Aggregate,
}

/// The settings of the default pool: a single connection to the database
/// that `connection_string` names, the string taken as it is.
pub fn default_sqlites_pool_settings(connection_string: &str) -> (settings: PoolSettings)
    ensures
        settings.max_connections == 1,
        settings.connection_string@ == connection_string@,
{
    PoolSettings { max_connections: 1, connection_string: connection_string.to_owned() }
}

/// The pool that a successful attempt to connect has answered with. A caller
/// deals with a failed attempt before it comes here.
pub fn connected_pool<P, X: core::fmt::Debug>(answer: Result<P, X>) -> (pool: P)
    requires
        answer is Ok,
    ensures
        answer == Ok::<P, X>(pool),
{
    answer.unwrap()
}

/// The plain store keeps events only.
pub fn sqlite_cqrs_source() -> (source: SourceOfTruth)
    ensures
        source == SourceOfTruth::Events,
{
    SourceOfTruth::Events
}

/// The snapshot store takes a snapshot every `snapshot_size` events; the
/// size is used as given.
pub fn postgres_snapshot_cqrs_source(snapshot_size: usize) -> (source: SourceOfTruth)
    ensures
        source == (SourceOfTruth::Snapshots { size: snapshot_size }),
{
    SourceOfTruth::Snapshots { size: snapshot_size }
}

/// The aggregate store keeps the aggregate itself up to date.
pub fn postgres_aggregate_cqrs_source() -> (source: SourceOfTruth)
    ensures
        source == SourceOfTruth::Aggregate,
{
    SourceOfTruth::Aggregate
}

} // verus!
