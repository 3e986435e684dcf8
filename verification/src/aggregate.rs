//! The capabilities an aggregate and its events supply, and the fold that
//! derives an aggregate's state from its events.

use vstd::prelude::*;

verus! {

/// An immutable fact describing one state change of an aggregate.
pub trait DomainEvent: Sized {
    /// The tag that names the kind of this event.
    spec fn type_tag(&self) -> Seq<char>;

    /// Returns the tag that names the kind of this event.
    fn event_type(&self) -> (tag: String)
        ensures
            tag@ == self.type_tag(),
    ;

    /// Returns an event equal to this one.
    fn duplicate(&self) -> (copy: Self)
        ensures
            copy == *self,
    ;
}

/// A consistency boundary whose state is derived solely from its own events.
pub trait Aggregate: Sized {
    type Command;

    type Event: DomainEvent;

    type Error;

    /// What the business rules consult besides the aggregate's own state.
    type Services;

    /// The state of an aggregate that has no events yet.
    spec fn initial_state() -> Self;

    /// The state that follows `self` once `event` has happened.
    spec fn apply_event(self, event: Self::Event) -> Self;

    /// What the business rules make of `command` in state `self`: the events
    /// it produces, in order, or the reason it is rejected.
    spec fn decide(self, command: Self::Command, services: Self::Services) -> Result<
        Seq<Self::Event>,
        Self::Error,
    >;

    fn initial() -> (state: Self)
        ensures
            state == Self::initial_state(),
    ;

    fn apply(&mut self, event: &Self::Event)
        ensures
            *final(self) == old(self).apply_event(*event),
    ;

    fn handle(&self, command: &Self::Command, services: &Self::Services) -> (outcome: Result<
        Vec<Self::Event>,
        Self::Error,
    >)
        ensures
            match outcome {
                Ok(events) => self.decide(*command, *services) == Ok::<
                    Seq<Self::Event>,
                    Self::Error,
                >(events@),
                Err(reason) => self.decide(*command, *services) == Err::<
                    Seq<Self::Event>,
                    Self::Error,
                >(reason),
            },
    ;

    /// Returns a state equal to this one.
    fn duplicate(&self) -> (copy: Self)
        ensures
            copy == *self,
    ;
}

/// The state reached from `state` by applying `events` in order.
pub open spec fn replay<A: Aggregate>(state: A, events: Seq<A::Event>) -> A
    decreases events.len(),
{
    if events.len() == 0 {
        state
    } else {
        replay(state, events.drop_last()).apply_event(events.last())
    }
}

/// Replaying a stream in two parts, the second from the state the first
/// reached, gives the state that replaying the whole stream gives.
pub proof fn lemma_replay_concat<A: Aggregate>(state: A, head: Seq<A::Event>, tail: Seq<A::Event>)
    ensures
        replay(state, head + tail) == replay(replay(state, head), tail),
    decreases tail.len(),
{
    if tail.len() == 0 {
        assert(head + tail =~= head);
    } else {
        lemma_replay_concat(state, head, tail.drop_last());
        assert((head + tail).drop_last() =~= head + tail.drop_last());
        assert((head + tail).last() == tail.last());
    }
}

} // verus!
