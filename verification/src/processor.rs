//! The command processor: validates a command against the current state of
//! its aggregate, commits the events it produces under an optimistic
//! concurrency check, and hands them to the registered query processors.

use vstd::prelude::*;
use crate::aggregate::{replay, Aggregate, DomainEvent};
use crate::event_log::{
    annotated, append_verdict, payloads, stamped, AppendError, EventEnvelope, EventLog,
};
use crate::replayer::{consistent, faithful, reconstruct, Reconstruction};
use crate::snapshot::{latest, lemma_latest_is_highest, Snapshot, SnapshotStore};

verus! {

/// A query processor could not apply a committed batch to its read model.
#[derive(PartialEq, Eq, Structural, Clone, Copy, Debug)]
pub struct ProjectionError;

/// Why a command was not carried out.
pub enum CommandError<R> {
    /// A business rule rejected the command.
    Validation(R),
    /// Other writers won the race for the aggregate on every attempt.
    Concurrency,
    /// The log could not store the events.
    Storage,
}

/// A consumer of committed batches that keeps a read model up to date.
pub trait QueryProcessor<E: DomainEvent>: Sized {
    /// Whether this processor can apply `batch` in its present state.
    spec fn accepts(&self, batch: Seq<EventEnvelope<E>>) -> bool;

    /// The processor as it is after `batch` was handed to it.
    spec fn projected(self, batch: Seq<EventEnvelope<E>>) -> Self;

    fn apply(&mut self, batch: &Vec<EventEnvelope<E>>) -> (outcome: Result<(), ProjectionError>)
        ensures
            outcome is Ok <==> old(self).accepts(batch@),
            *final(self) == old(self).projected(batch@),
    ;
}

/// What a successful command leaves behind.
pub struct Committed<E> {
    /// The events that were committed, in sequence order.
    pub batch: Vec<EventEnvelope<E>>,
    /// The positions, in registration order, of the query processors that
    /// failed to apply the batch.
    pub failed_projections: Vec<usize>,
}

/// The positions in `queries` of the processors that do not accept `batch`,
/// in ascending order.
pub open spec fn rejecting<E: DomainEvent, Q: QueryProcessor<E>>(
    queries: Seq<Q>,
    batch: Seq<EventEnvelope<E>>,
) -> Seq<usize>
    decreases queries.len(),
{
    if queries.len() == 0 {
        Seq::empty()
    } else {
        let front = rejecting(queries.drop_last(), batch);
        if queries.last().accepts(batch) {
            front
        } else {
            front.push((queries.len() - 1) as usize)
        }
    }
}

/// Every processor of `before` after `batch` was handed to it.
pub open spec fn all_projected<E: DomainEvent, Q: QueryProcessor<E>>(
    before: Seq<Q>,
    batch: Seq<EventEnvelope<E>>,
) -> Seq<Q> {
    Seq::new(before.len(), |i: int| before[i].projected(batch))
}

/// Whether a snapshot is taken after a commit that brought the aggregate to
/// `last_sequence`, when its latest snapshot is at `snapshot_sequence`.
/// An interval of 0 switches snapshots off.
pub open spec fn snapshot_due(interval: int, last_sequence: int, snapshot_sequence: int) -> bool {
    interval > 0 && last_sequence - snapshot_sequence >= interval
}

/// The sequence number of the latest snapshot held for `id`, 0 if none is.
pub open spec fn latest_snapshot_sequence<A>(snapshots: Seq<Snapshot<A>>, id: Seq<char>) -> int {
    match latest(snapshots, id) {
        Some(s) => s.sequence as int,
        None => 0,
    }
}

/// Decides what follows an append that was refused on the attempt numbered
/// `attempt`, counted from 0: a lost race is answered by the next attempt
/// while fewer than `retry_limit` retries were made, and surfaces as a
/// conflict after that; a storage failure surfaces at once.
pub fn after_refusal<R>(refusal: AppendError, attempt: usize, retry_limit: usize) -> (next: Result<
    usize,
    CommandError<R>,
>)
    ensures
        match refusal {
            AppendError::Storage => next matches Err(CommandError::Storage),
            AppendError::Concurrency => if attempt < retry_limit {
                next matches Ok(following) && following == attempt + 1
            } else {
                next matches Err(CommandError::Concurrency)
            },
        },
{
    match refusal {
        AppendError::Storage => Err(CommandError::Storage),
        AppendError::Concurrency => {
            if attempt < retry_limit {
                Ok(attempt + 1)
            } else {
                Err(CommandError::Concurrency)
            }
        },
    }
}

/// Where a command stands after the commits attempted for it so far.
pub enum Standing<R> {
    /// The attempt at this position, counted from 0, was committed.
    Committed { attempt: usize },
    /// The command has failed for good.
    Failed(CommandError<R>),
    /// Every attempt so far lost a race, and the limit allows another.
    Retry,
}

/// Where a command stands when its attempts, from the one numbered
/// `attempt` on, met `outcomes` in order: the first success settles it, a
/// storage failure fails it at once, and a lost race fails it once
/// `retry_limit` retries have been made.
pub open spec fn standing_from<R>(
    outcomes: Seq<Result<(), AppendError>>,
    retry_limit: int,
    attempt: int,
) -> Standing<R>
    decreases outcomes.len() - attempt,
{
    if attempt < 0 || attempt >= outcomes.len() {
        Standing::Retry
    } else {
        match outcomes[attempt] {
            Ok(_) => Standing::Committed { attempt: attempt as usize },
            Err(AppendError::Storage) => Standing::Failed(CommandError::Storage),
            Err(AppendError::Concurrency) => if attempt < retry_limit {
                standing_from(outcomes, retry_limit, attempt + 1)
            } else {
                Standing::Failed(CommandError::Concurrency)
            },
        }
    }
}

/// A command whose attempts from the one numbered `attempt` to the one
/// numbered `retry_limit` all lost a race has failed with a conflict,
/// whatever came after. From attempt 0 that is `retry_limit + 1` lost races.
pub proof fn lemma_conflict_after_limit<R>(
    outcomes: Seq<Result<(), AppendError>>,
    retry_limit: int,
    attempt: int,
)
    requires
        0 <= attempt <= retry_limit < outcomes.len(),
        forall|i: int|
            attempt <= i <= retry_limit ==> outcomes[i] == Err::<(), AppendError>(
                AppendError::Concurrency,
            ),
    ensures
        standing_from::<R>(outcomes, retry_limit, attempt) == Standing::<R>::Failed(
            CommandError::Concurrency,
        ),
    decreases retry_limit - attempt,
{
    if attempt < retry_limit {
        lemma_conflict_after_limit::<R>(outcomes, retry_limit, attempt + 1);
    }
}

/// Settles a command from the outcomes of the commits attempted for it, in
/// the order they were met, under a limit of `retry_limit` retries.
pub fn settle<R>(outcomes: &Vec<Result<(), AppendError>>, retry_limit: usize) -> (standing: Standing<
    R,
>)
    ensures
        standing == standing_from::<R>(outcomes@, retry_limit as int, 0),
{
    let mut attempt: usize = 0;
    while attempt < outcomes.len()
        invariant
            attempt <= outcomes@.len(),
            standing_from::<R>(outcomes@, retry_limit as int, 0) == standing_from::<R>(
                outcomes@,
                retry_limit as int,
                attempt as int,
            ),
        decreases outcomes@.len() - attempt,
    {
        match outcomes[attempt] {
            Ok(_) => {
                return Standing::Committed { attempt };
            },
            Err(refusal) => {
                match after_refusal::<R>(refusal, attempt, retry_limit) {
                    Ok(following) => {
                        attempt = following;
                    },
                    Err(failure) => {
                        return Standing::Failed(failure);
                    },
                }
            },
        }
    }
    Standing::Retry
}

/// Hands `batch` to each processor once, in registration order, and returns
/// the positions of those that failed. A failure stops nothing: the
/// processors after it still get the batch.
pub fn dispatch<E: DomainEvent, Q: QueryProcessor<E>>(
    queries: &mut Vec<Q>,
    batch: &Vec<EventEnvelope<E>>,
) -> (failed: Vec<usize>)
    ensures
        final(queries)@ == all_projected(old(queries)@, batch@),
        failed@ == rejecting(old(queries)@, batch@),
{
    let mut failed: Vec<usize> = Vec::new();
    let mut i: usize = 0;
    while i < queries.len()
        invariant
            i <= queries@.len(),
            queries@.len() == old(queries)@.len(),
            forall|j: int| 0 <= j < i ==> queries@[j] == old(queries)@[j].projected(batch@),
            forall|j: int| i <= j < queries@.len() ==> queries@[j] == old(queries)@[j],
            failed@ == rejecting(old(queries)@.take(i as int), batch@),
        decreases queries@.len() - i,
    {
        proof {
            assert(old(queries)@.take(i + 1).drop_last() =~= old(queries)@.take(i as int));
        }
        match queries[i].apply(batch) {
            Ok(_) => {},
            Err(_) => {
                failed.push(i);
            },
        }
        i += 1;
    }
    proof {
        assert(old(queries)@.take(i as int) =~= old(queries)@);
        assert(queries@ =~= all_projected(old(queries)@, batch@));
    }
    failed
}

/// The command side of the store: the event log, the snapshots taken of it,
/// the registered query processors, and the snapshot interval.
pub struct CommandProcessor<A: Aggregate, Q: QueryProcessor<A::Event>> {
    pub log: EventLog<A::Event>,
    pub snapshots: SnapshotStore<A>,
    /// The query processors, in registration order.
    pub queries: Vec<Q>,
    /// How many events may follow the latest snapshot of an aggregate before
    /// a new one is taken; 0 for no snapshots.
    pub snapshot_interval: usize,
}

/// A snapshot that was faithful to a log stays faithful when events are
/// appended to one stream and the other streams stay as they are.
pub proof fn lemma_append_keeps_faithful<A: Aggregate>(
    before: &EventLog<A::Event>,
    after: &EventLog<A::Event>,
    id: Seq<char>,
    batch: Seq<EventEnvelope<A::Event>>,
    snapshot: Snapshot<A>,
)
    requires
        faithful(before, snapshot),
        after.events_of(id) == before.events_of(id) + batch,
        forall|other: Seq<char>|
            other != id ==> #[trigger] after.events_of(other) == before.events_of(other),
    ensures
        faithful(after, snapshot),
{
    if snapshot.aggregate_id@ == id {
        assert((before.events_of(id) + batch).take(snapshot.sequence as int) =~= before.events_of(
            id,
        ).take(snapshot.sequence as int));
    }
}

impl<A: Aggregate, Q: QueryProcessor<A::Event>> CommandProcessor<A, Q> {
    /// The log is well formed and every snapshot is faithful to it.
    pub open spec fn wf(&self) -> bool {
        self.log.wf() && consistent(&self.log, &self.snapshots)
    }

    /// The current state of the aggregate `id`: its events folded over the
    /// initial state.
    pub open spec fn state_of(&self, id: Seq<char>) -> A {
        replay(A::initial_state(), payloads(self.log.events_of(id)))
    }

    /// `after` keeps the configuration of `self`, and the events of every
    /// aggregate but `id`.
    pub open spec fn framed(&self, after: &Self, id: Seq<char>) -> bool {
        &&& after.snapshot_interval == self.snapshot_interval
        &&& forall|other: Seq<char>|
            other != id ==> #[trigger] after.log.events_of(other) == self.log.events_of(other)
    }

    /// Nothing that `self` holds differs in `after`.
    pub open spec fn untouched(&self, after: &Self, id: Seq<char>) -> bool {
        &&& self.framed(after, id)
        &&& after.log.events_of(id) == self.log.events_of(id)
        &&& after.snapshots.contents() == self.snapshots.contents()
        &&& after.queries@ == self.queries@
    }

    /// `after` is `self` once `events` were committed with `metadata` for
    /// `id` on top of its `expected` earlier events, with `report` as the
    /// account of it: the batch is in the log, every query processor was
    /// handed it, and a snapshot of the new state was taken if one was due.
    pub open spec fn committed(
        &self,
        after: &Self,
        id: Seq<char>,
        expected: int,
        events: Seq<A::Event>,
        metadata: Seq<char>,
        report: Committed<A::Event>,
    ) -> bool {
        &&& self.framed(after, id)
        &&& stamped(report.batch@, id, expected + 1, events)
        &&& annotated(report.batch@, metadata)
        &&& after.log.events_of(id) == self.log.events_of(id) + report.batch@
        &&& after.queries@ == all_projected(self.queries@, report.batch@)
        &&& report.failed_projections@ == rejecting(self.queries@, report.batch@)
        &&& if snapshot_due(
            self.snapshot_interval as int,
            expected + events.len(),
            latest_snapshot_sequence(self.snapshots.contents(), id),
        ) {
            &&& after.snapshots.contents().len() == self.snapshots.contents().len() + 1
            &&& after.snapshots.contents().drop_last() == self.snapshots.contents()
            &&& after.snapshots.contents().last().aggregate_id@ == id
            &&& after.snapshots.contents().last().sequence == expected + events.len()
            &&& after.snapshots.contents().last().state == after.state_of(id)
        } else {
            after.snapshots.contents() == self.snapshots.contents()
        }
    }

    /// A processor with an empty log, no snapshots and no query processors.
    pub fn new(snapshot_interval: usize) -> (processor: Self)
        ensures
            processor.wf(),
            processor.snapshot_interval == snapshot_interval,
            processor.queries@.len() == 0,
            processor.snapshots.contents().len() == 0,
            forall|id: Seq<char>| #[trigger] processor.log.events_of(id).len() == 0,
    {
        CommandProcessor {
            log: EventLog::new(),
            snapshots: SnapshotStore::new(),
            queries: Vec::new(),
            snapshot_interval,
        }
    }

    /// Registers `query` behind the processors registered so far.
    pub fn with_query(self, query: Q) -> (processor: Self)
        ensures
            processor.queries@ == self.queries@.push(query),
            processor.log == self.log,
            processor.snapshots == self.snapshots,
            processor.snapshot_interval == self.snapshot_interval,
    {
        let mut processor = self;
        processor.queries.push(query);
        processor
    }

    /// Rebuilds the current state of `aggregate_id`.
    pub fn reconstruct(&self, aggregate_id: &str) -> (outcome: Reconstruction<A>)
        requires
            self.wf(),
        ensures
            outcome.state == self.state_of(aggregate_id@),
            outcome.last_sequence == self.log.last_sequence(aggregate_id@),
            outcome.snapshot_sequence == latest_snapshot_sequence(
                self.snapshots.contents(),
                aggregate_id@,
            ),
    {
        reconstruct(&self.log, &self.snapshots, aggregate_id)
    }

    /// Commits `events` for `aggregate_id` if `expected_sequence` is still the
    /// sequence number of its last event. Then takes a snapshot if one is due
    /// and hands the batch to every query processor. A writer that lost the
    /// race gets `AppendError::Concurrency` and nothing is changed.
    pub fn commit(
        &mut self,
        aggregate_id: &str,
        expected_sequence: usize,
        events: &Vec<A::Event>,
        metadata: &str,
    ) -> (outcome: Result<Committed<A::Event>, AppendError>)
        requires
            old(self).wf(),
        ensures
            final(self).wf(),
            match append_verdict(
                old(self).log.last_sequence(aggregate_id@),
                expected_sequence as int,
                events@.len() as int,
            ) {
                Ok(_) => outcome matches Ok(report) && old(self).committed(
                    final(self),
                    aggregate_id@,
                    expected_sequence as int,
                    events@,
                    metadata@,
                    report,
                ),
                Err(refusal) => outcome == Err::<Committed<A::Event>, AppendError>(refusal)
                    && old(self).untouched(final(self), aggregate_id@),
            },
    {
        let batch = match self.log.append(aggregate_id, expected_sequence, events, metadata) {
            Ok(batch) => batch,
            Err(refusal) => {
                proof {
                    assert forall|k: int| 0 <= k < self.snapshots.contents().len() implies faithful(
                        &self.log,
                        #[trigger] self.snapshots.contents()[k],
                    ) by {
                        lemma_append_keeps_faithful(
                            &old(self).log,
                            &self.log,
                            aggregate_id@,
                            Seq::empty(),
                            self.snapshots.contents()[k],
                        );
                    }
                }
                return Err(refusal);
            },
        };
        proof {
            assert forall|k: int| 0 <= k < self.snapshots.contents().len() implies faithful(
                &self.log,
                #[trigger] self.snapshots.contents()[k],
            ) by {
                lemma_append_keeps_faithful(
                    &old(self).log,
                    &self.log,
                    aggregate_id@,
                    batch@,
                    self.snapshots.contents()[k],
                );
            }
        }
        if self.snapshot_interval > 0 {
            let current = reconstruct(&self.log, &self.snapshots, aggregate_id);
            if current.last_sequence - current.snapshot_sequence >= self.snapshot_interval {
                proof {
                    lemma_latest_is_highest(self.snapshots.contents(), aggregate_id@);
                    assert(self.log.events_of(aggregate_id@).take(current.last_sequence as int)
                        =~= self.log.events_of(aggregate_id@));
                }
                let ghost earlier = self.snapshots.contents();
                self.snapshots.save(aggregate_id, current.last_sequence, current.state);
                proof {
                    let later = self.snapshots.contents();
                    assert forall|k: int| 0 <= k < later.len() implies faithful(
                        &self.log,
                        #[trigger] later[k],
                    ) by {
                        if k < earlier.len() {
                            assert(later[k] == later.drop_last()[k]);
                        }
                    }
                }
            }
        }
        let failed_projections = dispatch(&mut self.queries, &batch);
        Ok(Committed { batch, failed_projections })
    }

    /// Carries out `command` on `aggregate_id`: rebuilds the aggregate's
    /// state, lets its business rules decide, and commits the events they
    /// produce, each with `metadata`. A rejected command changes nothing.
    ///
    /// Within one processor the commit cannot lose a race: nothing writes to
    /// the log between the rebuild and the commit, so one attempt settles the
    /// command and a conflict never comes back. Writers that share a log
    /// through `commit` can lose one; `settle` says when they try again.
    pub fn execute_with_metadata(
        &mut self,
        aggregate_id: &str,
        command: &A::Command,
        services: &A::Services,
        metadata: &str,
    ) -> (outcome: Result<Committed<A::Event>, CommandError<A::Error>>)
        requires
            old(self).wf(),
        ensures
            final(self).wf(),
            match old(self).state_of(aggregate_id@).decide(*command, *services) {
                Err(reason) => outcome matches Err(CommandError::Validation(r)) && r == reason
                    && old(self).untouched(final(self), aggregate_id@),
                Ok(events) => if old(self).log.last_sequence(aggregate_id@) + events.len()
                    > usize::MAX {
                    outcome matches Err(CommandError::Storage) && old(self).untouched(
                        final(self),
                        aggregate_id@,
                    )
                } else {
                    outcome matches Ok(report) && old(self).committed(
                        final(self),
                        aggregate_id@,
                        old(self).log.last_sequence(aggregate_id@),
                        events,
                        metadata@,
                        report,
                    )
                },
            },
    {
        let current = reconstruct(&self.log, &self.snapshots, aggregate_id);
        let events = match current.state.handle(command, services) {
            Ok(events) => events,
            Err(reason) => {
                return Err(CommandError::Validation(reason));
            },
        };
        match self.commit(aggregate_id, current.last_sequence, &events, metadata) {
            Ok(report) => Ok(report),
            Err(AppendError::Storage) => Err(CommandError::Storage),
            Err(AppendError::Concurrency) => Err(CommandError::Concurrency),
        }
    }

    /// Carries out `command` on `aggregate_id` with empty metadata.
    pub fn execute(
        &mut self,
        aggregate_id: &str,
        command: &A::Command,
        services: &A::Services,
    ) -> (outcome: Result<Committed<A::Event>, CommandError<A::Error>>)
        requires
            old(self).wf(),
        ensures
            final(self).wf(),
            match old(self).state_of(aggregate_id@).decide(*command, *services) {
                Err(reason) => outcome matches Err(CommandError::Validation(r)) && r == reason
                    && old(self).untouched(final(self), aggregate_id@),
                Ok(events) => if old(self).log.last_sequence(aggregate_id@) + events.len()
                    > usize::MAX {
                    outcome matches Err(CommandError::Storage) && old(self).untouched(
                        final(self),
                        aggregate_id@,
                    )
                } else {
                    outcome matches Ok(report) && old(self).committed(
                        final(self),
                        aggregate_id@,
                        old(self).log.last_sequence(aggregate_id@),
                        events,
                        Seq::empty(),
                        report,
                    )
                },
            },
    {
        let metadata = String::new();
        self.execute_with_metadata(aggregate_id, command, services, metadata.as_str())
    }
}

} // verus!
