use vstd::prelude::*;

use crate::events::StreamEvent;
use crate::events::count_complete_events;
use crate::events::count_error_events;
use crate::events::count_next_events;

verus! {

/// The capability to receive `next`, `error` and `complete` events.
///
/// Every implementation carries an abstract log of the events it has been
/// handed, oldest first, so callers can state exactly what reached it. An
/// observer itself accepts every call; holding a misbehaving caller to the
/// at-most-one-terminal contract is the subscriber's job.
pub trait Observer: Sized {
    /// The type of the values the stream carries.
    type Item;

    /// The type of the error value a failed stream carries.
    type E;

    /// The events this observer has received so far, oldest first.
    spec fn received(&self) -> Seq<StreamEvent<Self::Item, Self::E>>;

    /// Receive one value.
    fn next(&mut self, value: &Self::Item)
        ensures
            final(self).received() == old(self).received().push(
                StreamEvent::<Self::Item, Self::E>::Next(*value),
            ),
    ;

    /// Receive a failure.
    fn error(&mut self, err: &Self::E)
        ensures
            final(self).received() == old(self).received().push(
                StreamEvent::<Self::Item, Self::E>::Error(*err),
            ),
    ;

    /// Receive the end of the stream.
    fn complete(&mut self)
        ensures
            final(self).received() == old(self).received().push(
                StreamEvent::<Self::Item, Self::E>::Complete,
            ),
    ;
}

/// A terminal consumer that keeps every event it receives, in order.
pub struct Recorder<Item, E> {
    pub events: Vec<StreamEvent<Item, E>>,
}

impl<Item: Copy, E: Copy> Observer for Recorder<Item, E> {
    type Item = Item;

    type E = E;

    open spec fn received(&self) -> Seq<StreamEvent<Item, E>> {
        self.events@
    }

    fn next(&mut self, value: &Item) {
        self.events.push(StreamEvent::Next(*value));
    }

    fn error(&mut self, err: &E) {
        self.events.push(StreamEvent::Error(*err));
    }

    fn complete(&mut self) {
        self.events.push(StreamEvent::Complete);
    }
}

impl<Item, E> Recorder<Item, E> {
    /// A recorder that has seen nothing yet.
    pub fn new() -> (r: Self)
        ensures
            r.events@ == Seq::<StreamEvent<Item, E>>::empty(),
    {
        Recorder { events: Vec::new() }
    }

    /// How many values this recorder has received.
    pub fn next_count(&self) -> (n: usize)
        ensures
            n as int == count_next_events(self.events@),
    {
        let mut n: usize = 0;
        let mut i: usize = 0;
        while i < self.events.len()
            invariant
                i <= self.events@.len(),
                n <= i,
                n as int == count_next_events(self.events@.take(i as int)),
            decreases self.events@.len() - i,
        {
            proof {
                assert(self.events@.take(i as int + 1).drop_last() =~= self.events@.take(i as int));
                assert(self.events@.take(i as int + 1).last() == self.events@[i as int]);
            }
            match &self.events[i] {
                StreamEvent::Next(_) => {
                    n = n + 1;
                },
                _ => {
                },
            }
            i = i + 1;
        }
        proof {
            assert(self.events@.take(self.events@.len() as int) =~= self.events@);
        }
        n
    }

    /// How many failures this recorder has received.
    pub fn error_count(&self) -> (n: usize)
        ensures
            n as int == count_error_events(self.events@),
    {
        let mut n: usize = 0;
        let mut i: usize = 0;
        while i < self.events.len()
            invariant
                i <= self.events@.len(),
                n <= i,
                n as int == count_error_events(self.events@.take(i as int)),
            decreases self.events@.len() - i,
        {
            proof {
                assert(self.events@.take(i as int + 1).drop_last() =~= self.events@.take(i as int));
                assert(self.events@.take(i as int + 1).last() == self.events@[i as int]);
            }
            match &self.events[i] {
                StreamEvent::Error(_) => {
                    n = n + 1;
                },
                _ => {
                },
            }
            i = i + 1;
        }
        proof {
            assert(self.events@.take(self.events@.len() as int) =~= self.events@);
        }
        n
    }

    /// How many `complete` events this recorder has received.
    pub fn complete_count(&self) -> (n: usize)
        ensures
            n as int == count_complete_events(self.events@),
    {
        let mut n: usize = 0;
        let mut i: usize = 0;
        while i < self.events.len()
            invariant
                i <= self.events@.len(),
                n <= i,
                n as int == count_complete_events(self.events@.take(i as int)),
            decreases self.events@.len() - i,
        {
            proof {
                assert(self.events@.take(i as int + 1).drop_last() =~= self.events@.take(i as int));
                assert(self.events@.take(i as int + 1).last() == self.events@[i as int]);
            }
            match &self.events[i] {
                StreamEvent::Complete => {
                    n = n + 1;
                },
                _ => {
                },
            }
            i = i + 1;
        }
        proof {
            assert(self.events@.take(self.events@.len() as int) =~= self.events@);
        }
        n
    }
}

} // verus!
