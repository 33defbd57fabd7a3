//! The queue of events a dispatch run has still to settle: a
//! `heapless::Deque` of fixed capacity, seen by the library as the sequence
//! of its events, oldest first.

use vstd::prelude::*;
use crate::model::Event;

verus! {

/// How many events the queue holds at most.
pub const QUEUE_CAPACITY: usize = 8;

/// A bounded queue of events. Verus cannot name the storage type that
/// `heapless::Deque` is built on, so the deque is held in a field that only
/// the wrappers below reach.
#[verifier::external_body]
pub struct EventQueue {
    deque: heapless::Deque<Event, QUEUE_CAPACITY>,
}

/// The events in the queue, oldest first.
pub uninterp spec fn queued_events(q: EventQueue) -> Seq<Event>;

impl View for EventQueue {
    type V = Seq<Event>;

    open spec fn view(&self) -> Seq<Event> {
        queued_events(*self)
    }
}

impl EventQueue {
    /// `heapless::Deque::new`: an empty queue.
    #[verifier::external_body]
    pub(crate) fn new() -> (q: Self)
        ensures
            queued_events(q) == Seq::<Event>::empty(),
    {
        EventQueue { deque: heapless::Deque::new() }
    }

    /// `heapless::Deque::is_full`: whether the queue holds as many events as
    /// its capacity.
    #[verifier::external_body]
    pub(crate) fn is_full(&self) -> (r: bool)
        requires
            queued_events(*self).len() <= QUEUE_CAPACITY,
        ensures
            r == (queued_events(*self).len() == QUEUE_CAPACITY),
    {
        self.deque.is_full()
    }

    /// `heapless::Deque::len`: how many events the queue holds.
    #[verifier::external_body]
    pub(crate) fn len(&self) -> (r: usize)
        ensures
            r == queued_events(*self).len(),
    {
        self.deque.len()
    }

    /// `heapless::Deque::push_back`: append `ev`, or hand it back when the
    /// queue is full.
    #[verifier::external_body]
    pub(crate) fn push_back(&mut self, ev: Event) -> (r: Result<(), Event>)
        requires
            queued_events(*old(self)).len() <= QUEUE_CAPACITY,
        ensures
            queued_events(*old(self)).len() < QUEUE_CAPACITY ==> r is Ok && queued_events(*final(self))
                == queued_events(*old(self)).push(ev),
            queued_events(*old(self)).len() == QUEUE_CAPACITY ==> (r matches Err(x) && x == ev)
                && queued_events(*final(self)) == queued_events(*old(self)),
    {
        self.deque.push_back(ev)
    }

    /// `heapless::Deque::push_front`: put `ev` in front, or hand it back when
    /// the queue is full.
    #[verifier::external_body]
    pub(crate) fn push_front(&mut self, ev: Event) -> (r: Result<(), Event>)
        requires
            queued_events(*old(self)).len() <= QUEUE_CAPACITY,
        ensures
            queued_events(*old(self)).len() < QUEUE_CAPACITY ==> r is Ok && queued_events(*final(self))
                == seq![ev] + queued_events(*old(self)),
            queued_events(*old(self)).len() == QUEUE_CAPACITY ==> (r matches Err(x) && x == ev)
                && queued_events(*final(self)) == queued_events(*old(self)),
    {
        self.deque.push_front(ev)
    }

    /// `heapless::Deque::pop_front`: take the oldest event, if any.
    #[verifier::external_body]
    pub(crate) fn pop_front(&mut self) -> (r: Option<Event>)
        ensures
            queued_events(*old(self)).len() == 0 ==> r is None && queued_events(*final(self)) == queued_events(
                *old(self),
            ),
            queued_events(*old(self)).len() > 0 ==> r == Some(queued_events(*old(self))[0]) && queued_events(
                *final(self),
            ) == queued_events(*old(self)).drop_first(),
    {
        self.deque.pop_front()
    }

    /// `heapless::Deque::pop_back`: take the newest event, if any.
    #[verifier::external_body]
    pub(crate) fn pop_back(&mut self) -> (r: Option<Event>)
        ensures
            queued_events(*old(self)).len() == 0 ==> r is None && queued_events(*final(self)) == queued_events(
                *old(self),
            ),
            queued_events(*old(self)).len() > 0 ==> r == Some(queued_events(*old(self)).last()) && queued_events(
                *final(self),
            ) == queued_events(*old(self)).drop_last(),
    {
        self.deque.pop_back()
    }
}

} // verus!
