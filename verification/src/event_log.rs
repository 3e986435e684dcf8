//! The append-only event log, partitioned by aggregate identity.

use vstd::prelude::*;
use crate::aggregate::DomainEvent;

verus! {

/// One persisted event with the identity and position it was committed at.
pub struct EventEnvelope<E> {
    pub aggregate_id: String,
    pub sequence: usize,
    pub event_type: String,
    pub payload: E,
    /// What the writer said about the commit, stored as given.
    pub metadata: String,
}

/// Why an append was refused.
#[derive(PartialEq, Eq, Structural, Clone, Copy, Debug)]
pub enum AppendError {
    /// Another writer committed first: the expected sequence is not the last one.
    Concurrency,
    /// The stream cannot take this many further events.
    Storage,
}

/// The payloads that `envelopes` carry, in order.
pub open spec fn payloads<E>(envelopes: Seq<EventEnvelope<E>>) -> Seq<E> {
    Seq::new(envelopes.len(), |k: int| envelopes[k].payload)
}

/// `envelopes` carry `events` in order for the aggregate `id`, numbered
/// `first`, `first + 1`, and so on.
pub open spec fn stamped<E: DomainEvent>(
    envelopes: Seq<EventEnvelope<E>>,
    id: Seq<char>,
    first: int,
    events: Seq<E>,
) -> bool {
    &&& envelopes.len() == events.len()
    &&& forall|k: int|
        0 <= k < envelopes.len() ==> {
            &&& (#[trigger] envelopes[k]).aggregate_id@ == id
            &&& envelopes[k].sequence == first + k
            &&& envelopes[k].event_type@ == events[k].type_tag()
            &&& envelopes[k].payload == events[k]
        }
}

/// Every envelope carries `metadata`.
pub open spec fn annotated<E>(envelopes: Seq<EventEnvelope<E>>, metadata: Seq<char>) -> bool {
    forall|k: int| 0 <= k < envelopes.len() ==> (#[trigger] envelopes[k]).metadata@ == metadata
}

/// Whether an append of `count` events expecting `expected` as the last
/// sequence is accepted by a stream that holds `last` events.
pub open spec fn append_verdict(last: int, expected: int, count: int) -> Result<(), AppendError> {
    if expected != last {
        Err(AppendError::Concurrency)
    } else if last + count > usize::MAX {
        Err(AppendError::Storage)
    } else {
        Ok(())
    }
}

/// Of two writers that read the same last sequence number of one aggregate,
/// only one wins. Once the first has committed `first`, an append by the
/// second that still expects the old sequence number is refused as a
/// conflict; when it expects the new last sequence number instead, it is
/// accepted as far as the stream has room.
pub proof fn lemma_one_writer_wins<E: DomainEvent>(
    before: &EventLog<E>,
    after: &EventLog<E>,
    id: Seq<char>,
    first: Seq<EventEnvelope<E>>,
    second_count: int,
)
    requires
        after.wf(),
        after.events_of(id) == before.events_of(id) + first,
        first.len() > 0,
        second_count >= 0,
    ensures
        append_verdict(before.last_sequence(id), before.last_sequence(id), first.len() as int)
            is Ok,
        append_verdict(after.last_sequence(id), before.last_sequence(id), second_count) == Err::<
            (),
            AppendError,
        >(AppendError::Concurrency),
        after.last_sequence(id) + second_count <= usize::MAX ==> append_verdict(
            after.last_sequence(id),
            after.last_sequence(id),
            second_count,
        ) is Ok,
{
    after.lemma_last_sequence_bounded(id);
}

impl<E: DomainEvent> EventEnvelope<E> {
    /// Returns an envelope equal to this one.
    pub fn duplicate(&self) -> (copy: Self)
        ensures
            copy == *self,
    {
        EventEnvelope {
            aggregate_id: self.aggregate_id.clone(),
            sequence: self.sequence,
            event_type: self.event_type.clone(),
            payload: self.payload.duplicate(),
            metadata: self.metadata.clone(),
        }
    }
}

/// The events of one aggregate, oldest first.
struct EventStream<E> {
    aggregate_id: String,
    events: Vec<EventEnvelope<E>>,
}

/// Append-only storage of events, partitioned by aggregate identity and
/// ordered within each aggregate by sequence number.
pub struct EventLog<E> {
    streams: Vec<EventStream<E>>,
}

impl<E: DomainEvent> EventStream<E> {
    spec fn wf(&self) -> bool {
        stamped(self.events@, self.aggregate_id@, 1, payloads(self.events@))
    }
}

impl<E: DomainEvent> EventLog<E> {
    spec fn holds(&self, i: int, id: Seq<char>) -> bool {
        0 <= i < self.streams@.len() && self.streams@[i].aggregate_id@ == id
    }

    /// Every stream is numbered from 1 without gaps, and no identity has two streams.
    pub closed spec fn wf(&self) -> bool {
        &&& forall|i: int, j: int|
            0 <= i < j < self.streams@.len() ==> (#[trigger] self.streams@[i]).aggregate_id@ != (
            #[trigger] self.streams@[j]).aggregate_id@
        &&& forall|i: int| 0 <= i < self.streams@.len() ==> (#[trigger] self.streams@[i]).wf()
    }

    /// The events committed for the aggregate `id`, oldest first.
    pub closed spec fn events_of(&self, id: Seq<char>) -> Seq<EventEnvelope<E>> {
        if exists|i: int| self.holds(i, id) {
            self.streams@[choose|i: int| self.holds(i, id)].events@
        } else {
            Seq::empty()
        }
    }

    /// The sequence number of the last event committed for `id`, 0 if there is none.
    pub open spec fn last_sequence(&self, id: Seq<char>) -> int {
        self.events_of(id).len() as int
    }

    /// A stream's envelopes carry its identity and are numbered 1, 2, 3, ...
    /// in the order they were committed.
    pub proof fn lemma_sequences_contiguous(&self, id: Seq<char>)
        requires
            self.wf(),
        ensures
            stamped(self.events_of(id), id, 1, payloads(self.events_of(id))),
            forall|k: int|
                0 <= k < self.events_of(id).len() ==> (#[trigger] self.events_of(id)[k]).sequence
                    == k + 1,
    {
    }

    /// A stream never holds more events than a sequence number can count.
    pub proof fn lemma_last_sequence_bounded(&self, id: Seq<char>)
        requires
            self.wf(),
        ensures
            self.last_sequence(id) <= usize::MAX,
    {
        self.lemma_sequences_contiguous(id);
        let events = self.events_of(id);
        if events.len() > 0 {
            assert(events[events.len() - 1].sequence == events.len());
        }
    }

    proof fn lemma_events_at(&self, i: int, id: Seq<char>)
        requires
            self.wf(),
            self.holds(i, id),
        ensures
            self.events_of(id) == self.streams@[i].events@,
    {
        let j = choose|j: int| self.holds(j, id);
        assert(i == j);
    }

    pub fn new() -> (log: Self)
        ensures
            log.wf(),
            forall|id: Seq<char>| #[trigger] log.events_of(id) == Seq::<EventEnvelope<E>>::empty(),
    {
        EventLog { streams: Vec::new() }
    }

    fn find(&self, key: &String) -> (found: Option<usize>)
        requires
            self.wf(),
        ensures
            match found {
                Some(i) => self.holds(i as int, key@),
                None => forall|i: int| !self.holds(i, key@),
            },
    {
        let mut i: usize = 0;
        while i < self.streams.len()
            invariant
                i <= self.streams@.len(),
                forall|j: int| 0 <= j < i ==> !self.holds(j, key@),
            decreases self.streams@.len() - i,
        {
            if self.streams[i].aggregate_id == *key {
                return Some(i);
            }
            i += 1;
        }
        None
    }

    /// The sequence number of the last event committed for `aggregate_id`.
    pub fn current_sequence(&self, aggregate_id: &str) -> (last: usize)
        requires
            self.wf(),
        ensures
            last == self.last_sequence(aggregate_id@),
    {
        let key = aggregate_id.to_owned();
        match self.find(&key) {
            Some(i) => {
                proof {
                    self.lemma_events_at(i as int, key@);
                }
                self.streams[i].events.len()
            },
            None => 0,
        }
    }
    proof fn lemma_replaced(&self, before: &Self, i: int, id: Seq<char>)
        requires
            before.wf(),
            before.holds(i, id),
            self.streams@.len() == before.streams@.len(),
            forall|j: int|
                0 <= j < self.streams@.len() && j != i ==> self.streams@[j] == before.streams@[j],
            self.streams@[i].aggregate_id@ == id,
            self.streams@[i].wf(),
        ensures
            self.wf(),
            self.events_of(id) == self.streams@[i].events@,
            forall|other: Seq<char>|
                other != id ==> #[trigger] self.events_of(other) == before.events_of(other),
    {
        self.lemma_events_at(i, id);
        assert forall|other: Seq<char>| other != id implies #[trigger] self.events_of(other)
            == before.events_of(other) by {
            if exists|j: int| before.holds(j, other) {
                let j = choose|j: int| before.holds(j, other);
                assert(self.holds(j, other));
                self.lemma_events_at(j, other);
            } else {
                assert forall|j: int| !self.holds(j, other) by {
                    if self.holds(j, other) {
                        assert(before.holds(j, other));
                    }
                }
            }
        }
    }

    proof fn lemma_opened(&self, before: &Self, id: Seq<char>)
        requires
            before.wf(),
            forall|j: int| !before.holds(j, id),
            self.streams@.len() == before.streams@.len() + 1,
            forall|j: int| 0 <= j < before.streams@.len() ==> self.streams@[j] == before.streams@[j],
            self.streams@.last().aggregate_id@ == id,
            self.streams@.last().events@.len() == 0,
        ensures
            self.wf(),
            self.holds(self.streams@.len() - 1, id),
            forall|other: Seq<char>| #[trigger] self.events_of(other) == before.events_of(other),
    {
        let n = before.streams@.len() as int;
        assert forall|i: int, j: int| 0 <= i < j < self.streams@.len() implies (
        #[trigger] self.streams@[i]).aggregate_id@ != (#[trigger] self.streams@[j]).aggregate_id@ by {
            if j == n {
                assert(!before.holds(i, id));
            }
        }
        assert forall|other: Seq<char>| #[trigger] self.events_of(other) == before.events_of(
            other,
        ) by {
            if other == id {
                self.lemma_events_at(n, id);
                assert(self.events_of(id) =~= Seq::empty());
            } else if exists|j: int| before.holds(j, other) {
                let j = choose|j: int| before.holds(j, other);
                assert(self.holds(j, other));
                self.lemma_events_at(j, other);
            } else {
                assert forall|j: int| !self.holds(j, other) by {
                    if self.holds(j, other) {
                        assert(before.holds(j, other));
                    }
                }
            }
        }
    }

    /// Commits `events` for `aggregate_id` if `expected_sequence` is the
    /// sequence number of the last event committed for it. The events get the
    /// next sequence numbers in order, each carries `metadata`, and they come
    /// back as one batch. Nothing is stored when the append is refused.
    pub fn append(
        &mut self,
        aggregate_id: &str,
        expected_sequence: usize,
        events: &Vec<E>,
        metadata: &str,
    ) -> (outcome: Result<Vec<EventEnvelope<E>>, AppendError>)
        requires
            old(self).wf(),
        ensures
            final(self).wf(),
            forall|other: Seq<char>|
                other != aggregate_id@ ==> #[trigger] final(self).events_of(other) == old(self).events_of(
                    other,
                ),
            match append_verdict(
                old(self).last_sequence(aggregate_id@),
                expected_sequence as int,
                events@.len() as int,
            ) {
                Ok(_) => outcome is Ok && stamped(
                    outcome.unwrap()@,
                    aggregate_id@,
                    expected_sequence + 1,
                    events@,
                ) && annotated(outcome.unwrap()@, metadata@) && final(self).events_of(
                    aggregate_id@,
                ) == old(self).events_of(aggregate_id@) + outcome.unwrap()@,
                Err(refusal) => outcome == Err::<Vec<EventEnvelope<E>>, AppendError>(refusal)
                    && final(self).events_of(aggregate_id@) == old(self).events_of(aggregate_id@),
            },
    {
        let key = aggregate_id.to_owned();
        let found = self.find(&key);
        let last: usize = match found {
            Some(i) => {
                proof {
                    self.lemma_events_at(i as int, key@);
                }
                self.streams[i].events.len()
            },
            None => 0,
        };
        if expected_sequence != last {
            return Err(AppendError::Concurrency);
        }
        if events.len() > usize::MAX - last {
            return Err(AppendError::Storage);
        }
        let ghost before = *self;
        let i: usize = match found {
            Some(i) => i,
            None => {
                self.streams.push(EventStream { aggregate_id: key.clone(), events: Vec::new() });
                proof {
                    self.lemma_opened(&before, key@);
                }
                self.streams.len() - 1
            },
        };
        let ghost opened = *self;
        proof {
            opened.lemma_events_at(i as int, key@);
        }
        let mut batch: Vec<EventEnvelope<E>> = Vec::new();
        let mut k: usize = 0;
        while k < events.len()
            invariant
                opened.wf(),
                opened.holds(i as int, key@),
                opened.streams@[i as int].events@.len() == last,
                last + events@.len() <= usize::MAX,
                expected_sequence == last,
                k <= events@.len(),
                self.streams@.len() == opened.streams@.len(),
                forall|j: int|
                    0 <= j < self.streams@.len() && j != i ==> self.streams@[j]
                        == opened.streams@[j],
                self.streams@[i as int].aggregate_id@ == key@,
                self.streams@[i as int].events@ == opened.streams@[i as int].events@ + batch@,
                stamped(batch@, key@, expected_sequence + 1, events@.take(k as int)),
                annotated(batch@, metadata@),
            decreases events@.len() - k,
        {
            let envelope = EventEnvelope {
                aggregate_id: key.clone(),
                sequence: last + 1 + k,
                event_type: events[k].event_type(),
                payload: events[k].duplicate(),
                metadata: metadata.to_owned(),
            };
            batch.push(envelope.duplicate());
            self.streams[i].events.push(envelope);
            k += 1;
        }
        proof {
            assert(events@.take(k as int) =~= events@);
            self.lemma_replaced(&opened, i as int, key@);
        }
        Ok(batch)
    }

    /// The events committed for `aggregate_id` after the first
    /// `after_sequence`, in increasing sequence order.
    pub fn load(&self, aggregate_id: &str, after_sequence: usize) -> (events: Vec<EventEnvelope<E>>)
        requires
            self.wf(),
        ensures
            events@ == if after_sequence <= self.last_sequence(aggregate_id@) {
                self.events_of(aggregate_id@).skip(after_sequence as int)
            } else {
                Seq::empty()
            },
    {
        let key = aggregate_id.to_owned();
        let mut events: Vec<EventEnvelope<E>> = Vec::new();
        match self.find(&key) {
            Some(i) => {
                proof {
                    self.lemma_events_at(i as int, key@);
                }
                let stream = &self.streams[i];
                let mut k: usize = after_sequence;
                while k < stream.events.len()
                    invariant
                        after_sequence <= k,
                        after_sequence <= stream.events@.len() ==> k <= stream.events@.len()
                            && events@ == stream.events@.subrange(after_sequence as int, k as int),
                        after_sequence > stream.events@.len() ==> events@.len() == 0,
                    decreases stream.events@.len() - k,
                {
                    events.push(stream.events[k].duplicate());
                    k += 1;
                }
                proof {
                    if after_sequence <= stream.events@.len() {
                        assert(events@ =~= stream.events@.skip(after_sequence as int));
                    } else {
                        assert(events@ =~= Seq::empty());
                    }
                }
            },
            None => {
                assert(self.events_of(key@).skip(0) =~= Seq::empty());
            },
        }
        events
    }
}

} // verus!
