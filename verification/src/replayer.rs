//! Reconstruction of an aggregate's current state from its latest snapshot
//! and the events committed after it.

use vstd::prelude::*;
use crate::aggregate::{replay, lemma_replay_concat, Aggregate};
use crate::event_log::{payloads, EventEnvelope, EventLog};
use crate::snapshot::{latest, Snapshot, SnapshotStore};

verus! {

/// What a reconstruction yields.
pub struct Reconstruction<A> {
    /// The aggregate's current state.
    pub state: A,
    /// The sequence number of the last event the state includes.
    pub last_sequence: usize,
    /// The sequence number of the snapshot the replay started from, 0 if it
    /// started from the initial state.
    pub snapshot_sequence: usize,
}

/// The events of a stream that follow its first `after` events.
pub open spec fn events_after<E>(events: Seq<EventEnvelope<E>>, after: int) -> Seq<EventEnvelope<E>> {
    if 0 <= after <= events.len() {
        events.skip(after)
    } else {
        Seq::empty()
    }
}

/// The state reached by starting from `snapshot`, or from the initial state
/// where there is none, and applying the events of the stream that follow it.
pub open spec fn replayed_state<A: Aggregate>(
    events: Seq<EventEnvelope<A::Event>>,
    snapshot: Option<Snapshot<A>>,
) -> A {
    match snapshot {
        Some(s) => replay(s.state, payloads(events_after(events, s.sequence as int))),
        None => replay(A::initial_state(), payloads(events)),
    }
}

/// The sequence number that a replay of the stream from `snapshot` ends at.
pub open spec fn replayed_sequence<A>(
    events: Seq<EventEnvelope<A::Event>>,
    snapshot: Option<Snapshot<A>>,
) -> int where A: Aggregate {
    match snapshot {
        Some(s) => s.sequence + events_after(events, s.sequence as int).len(),
        None => events.len() as int,
    }
}

/// `outcome` is what reconstructing the aggregate `id` from `log` and
/// `snapshots` yields.
pub open spec fn reconstructs<A: Aggregate>(
    log: &EventLog<A::Event>,
    snapshots: &SnapshotStore<A>,
    id: Seq<char>,
    outcome: Reconstruction<A>,
) -> bool {
    let snapshot = latest(snapshots.contents(), id);
    &&& outcome.state == replayed_state(log.events_of(id), snapshot)
    &&& outcome.last_sequence == replayed_sequence(log.events_of(id), snapshot)
    &&& outcome.snapshot_sequence == match snapshot {
        Some(s) => s.sequence,
        None => 0,
    }
}

/// The snapshot holds the state that the first `sequence` events of its
/// aggregate's stream lead to.
pub open spec fn faithful<A: Aggregate>(log: &EventLog<A::Event>, snapshot: Snapshot<A>) -> bool {
    &&& snapshot.sequence <= log.last_sequence(snapshot.aggregate_id@)
    &&& snapshot.state == replay(
        A::initial_state(),
        payloads(log.events_of(snapshot.aggregate_id@).take(snapshot.sequence as int)),
    )
}

/// Every snapshot held is faithful to the log.
pub open spec fn consistent<A: Aggregate>(log: &EventLog<A::Event>, snapshots: &SnapshotStore<A>) -> bool {
    forall|k: int|
        0 <= k < snapshots.contents().len() ==> faithful(log, #[trigger] snapshots.contents()[k])
}

/// Replaying a whole stream from the initial state gives the same state as
/// taking the state after its first `k` events and replaying the rest, for
/// every `k` up to the stream's length.
pub proof fn lemma_replay_from_checkpoint<A: Aggregate>(events: Seq<EventEnvelope<A::Event>>, k: int)
    requires
        0 <= k <= events.len(),
    ensures
        replay(replay(A::initial_state(), payloads(events.take(k))), payloads(events.skip(k)))
            == replay(A::initial_state(), payloads(events)),
{
    lemma_replay_concat(A::initial_state(), payloads(events.take(k)), payloads(events.skip(k)));
    assert(payloads(events.take(k)) + payloads(events.skip(k)) =~= payloads(events));
}

/// A replay that starts from a faithful snapshot ends in the same state, at
/// the same sequence number, as a replay of all events from the initial state.
pub proof fn lemma_snapshot_replay_agrees<A: Aggregate>(
    log: &EventLog<A::Event>,
    snapshot: Snapshot<A>,
)
    requires
        faithful(log, snapshot),
    ensures
        replayed_state(log.events_of(snapshot.aggregate_id@), Some(snapshot)) == replayed_state(
            log.events_of(snapshot.aggregate_id@),
            None::<Snapshot<A>>,
        ),
        replayed_sequence(log.events_of(snapshot.aggregate_id@), Some(snapshot))
            == replayed_sequence(log.events_of(snapshot.aggregate_id@), None::<Snapshot<A>>),
{
    lemma_replay_from_checkpoint::<A>(
        log.events_of(snapshot.aggregate_id@),
        snapshot.sequence as int,
    );
}

/// Reconstruction is a function of what the log and the snapshot store hold:
/// two reconstructions with no commit between them yield the same state and
/// the same last sequence number.
pub proof fn lemma_reconstruct_repeatable<A: Aggregate>(
    log: &EventLog<A::Event>,
    snapshots: &SnapshotStore<A>,
    id: Seq<char>,
    first: Reconstruction<A>,
    second: Reconstruction<A>,
)
    requires
        reconstructs(log, snapshots, id, first),
        reconstructs(log, snapshots, id, second),
    ensures
        first == second,
{
}

/// Rebuilds the current state of `aggregate_id`: starts from its latest
/// snapshot, or from the initial state where none is held, and applies the
/// events committed after it in ascending sequence order.
pub fn reconstruct<A: Aggregate>(
    log: &EventLog<A::Event>,
    snapshots: &SnapshotStore<A>,
    aggregate_id: &str,
) -> (outcome: Reconstruction<A>)
    requires
        log.wf(),
    ensures
        reconstructs(log, snapshots, aggregate_id@, outcome),
        consistent(log, snapshots) ==> outcome.state == replay(
            A::initial_state(),
            payloads(log.events_of(aggregate_id@)),
        ) && outcome.last_sequence == log.last_sequence(aggregate_id@),
{
    let (mut state, start): (A, usize) = match snapshots.load_latest(aggregate_id) {
        Some(snapshot) => (snapshot.state.duplicate(), snapshot.sequence),
        None => (A::initial(), 0),
    };
    let ghost origin = state;
    let events = log.load(aggregate_id, start);
    let mut k: usize = 0;
    while k < events.len()
        invariant
            k <= events@.len(),
            state == replay(origin, payloads(events@.take(k as int))),
        decreases events@.len() - k,
    {
        proof {
            assert(payloads(events@.take(k + 1)).drop_last() =~= payloads(events@.take(k as int)));
        }
        state.apply(&events[k].payload);
        k += 1;
    }
    proof {
        log.lemma_last_sequence_bounded(aggregate_id@);
        assert(events@.take(k as int) =~= events@);
        assert(log.events_of(aggregate_id@).skip(0) =~= log.events_of(aggregate_id@));
        if consistent(log, snapshots) {
            crate::snapshot::lemma_latest_is_highest(snapshots.contents(), aggregate_id@);
            if latest(snapshots.contents(), aggregate_id@) is Some {
                lemma_snapshot_replay_agrees(
                    log,
                    latest(snapshots.contents(), aggregate_id@).unwrap(),
                );
            }
        }
    }
    Reconstruction { state, last_sequence: start + events.len(), snapshot_sequence: start }
}

} // verus!
