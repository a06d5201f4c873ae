use vstd::prelude::*;

use crate::events::SinkCall;
use crate::events::StreamEvent;
use crate::events::closed_after;
use crate::events::delivered;
use crate::events::lemma_delivered_push;
use crate::observer::Observer;
use crate::subscription::ChildResource;
use crate::subscription::LocalSubscription;
use crate::subscription::SharedSubscription;
use crate::subscription::SubscriptionLike;

verus! {

/// Decorates an observer with a subscription and enforces the stream
/// contract on it: events are handed on only while the subscription is
/// open, a delivered terminal event closes it, and external cancellation
/// silences everything without a terminal callback of its own.
///
/// `calls` is the abstract log of every call made on this subscriber since
/// it was created; what the wrapped observer has seen is always exactly
/// `base` followed by `delivered(calls)`.
pub struct Subscriber<O: Observer, U: SubscriptionLike> {
    pub observer: O,
    pub subscription: U,
    /// Every call made on this subscriber, oldest first.
    pub calls: Ghost<Seq<SinkCall<O::Item, O::E>>>,
    /// What the wrapped observer had already received when this subscriber
    /// was created.
    pub base: Ghost<Seq<StreamEvent<O::Item, O::E>>>,
}

impl<O: Observer, U: SubscriptionLike> Subscriber<O, U> {
    /// The subscriber's invariant: the subscription is closed exactly when
    /// some call so far closed it, and the wrapped observer has received
    /// exactly the calls that passed the guard.
    pub open spec fn wf(&self) -> bool {
        &&& self.subscription.closed() == closed_after(self.calls@)
        &&& self.observer.received() == self.base@ + delivered(self.calls@)
    }

    /// The events this subscriber has let through to the wrapped observer.
    pub open spec fn delivered_events(&self) -> Seq<StreamEvent<O::Item, O::E>> {
        delivered(self.calls@)
    }

    /// Hand one value on, unless the subscription is closed; a late value
    /// from a misbehaving source is silently dropped, never an error.
    pub fn next(&mut self, value: &O::Item)
        requires
            old(self).wf(),
        ensures
            final(self).wf(),
            final(self).calls@ == old(self).calls@.push(SinkCall::Next(*value)),
            final(self).base == old(self).base,
            final(self).subscription == old(self).subscription,
            !old(self).subscription.closed() ==> final(self).observer.received() == old(
                self,
            ).observer.received().push(StreamEvent::Next(*value)),
            old(self).subscription.closed() ==> final(self).observer == old(self).observer,
    {
        if !self.subscription.is_closed() {
            self.observer.next(value);
        }
        proof {
            lemma_delivered_push(old(self).calls@, SinkCall::<O::Item, O::E>::Next(*value));
        }
        self.calls = Ghost(self.calls@.push(SinkCall::Next(*value)));
        proof {
            if !closed_after(old(self).calls@) {
                assert(self.base@ + delivered(old(self).calls@).push(StreamEvent::Next(*value))
                    =~= (self.base@ + delivered(old(self).calls@)).push(
                    StreamEvent::Next(*value),
                ));
            }
        }
    }

    /// If the subscription is open, deliver `complete` to the wrapped
    /// observer and then close the subscription, in that order; otherwise do
    /// nothing.
    pub fn complete(&mut self)
        requires
            old(self).wf(),
        ensures
            final(self).wf(),
            final(self).calls@ == old(self).calls@.push(SinkCall::Complete),
            final(self).base == old(self).base,
            final(self).subscription.closed(),
            !old(self).subscription.closed() ==> final(self).observer.received() == old(
                self,
            ).observer.received().push(StreamEvent::Complete),
            !old(self).subscription.closed() ==> U::is_close_of(
                old(self).subscription,
                final(self).subscription,
            ),
            old(self).subscription.closed() ==> final(self).observer == old(self).observer,
            old(self).subscription.closed() ==> final(self).subscription == old(self).subscription,
    {
        if !self.subscription.is_closed() {
            self.observer.complete();
            self.subscription.unsubscribe();
            proof {
                U::close_properties(old(self).subscription, self.subscription);
            }
        }
        proof {
            lemma_delivered_push(old(self).calls@, SinkCall::<O::Item, O::E>::Complete);
        }
        self.calls = Ghost(self.calls@.push(SinkCall::Complete));
        proof {
            if !closed_after(old(self).calls@) {
                assert(self.base@ + delivered(old(self).calls@).push(
                    StreamEvent::<O::Item, O::E>::Complete,
                ) =~= (self.base@ + delivered(old(self).calls@)).push(StreamEvent::Complete));
            }
        }
    }

    /// If the subscription is open, deliver the failure to the wrapped
    /// observer and then close the subscription, in that order; otherwise do
    /// nothing.
    pub fn error(&mut self, err: &O::E)
        requires
            old(self).wf(),
        ensures
            final(self).wf(),
            final(self).calls@ == old(self).calls@.push(SinkCall::Error(*err)),
            final(self).base == old(self).base,
            final(self).subscription.closed(),
            !old(self).subscription.closed() ==> final(self).observer.received() == old(
                self,
            ).observer.received().push(StreamEvent::Error(*err)),
            !old(self).subscription.closed() ==> U::is_close_of(
                old(self).subscription,
                final(self).subscription,
            ),
            old(self).subscription.closed() ==> final(self).observer == old(self).observer,
            old(self).subscription.closed() ==> final(self).subscription == old(self).subscription,
    {
        if !self.subscription.is_closed() {
            self.observer.error(err);
            self.subscription.unsubscribe();
            proof {
                U::close_properties(old(self).subscription, self.subscription);
            }
        }
        proof {
            lemma_delivered_push(old(self).calls@, SinkCall::<O::Item, O::E>::Error(*err));
        }
        self.calls = Ghost(self.calls@.push(SinkCall::Error(*err)));
        proof {
            if !closed_after(old(self).calls@) {
                assert(self.base@ + delivered(old(self).calls@).push(StreamEvent::Error(*err))
                    =~= (self.base@ + delivered(old(self).calls@)).push(
                    StreamEvent::Error(*err),
                ));
            }
        }
    }

    /// Consumer-initiated cancellation: close the subscription without any
    /// terminal callback. The wrapped observer is left untouched.
    pub fn unsubscribe(&mut self)
        requires
            old(self).wf(),
        ensures
            final(self).wf(),
            final(self).calls@ == old(self).calls@.push(SinkCall::Unsubscribe),
            final(self).base == old(self).base,
            final(self).subscription.closed(),
            final(self).observer == old(self).observer,
            U::is_close_of(old(self).subscription, final(self).subscription),
    {
        self.subscription.unsubscribe();
        proof {
            U::close_properties(old(self).subscription, self.subscription);
            lemma_delivered_push(old(self).calls@, SinkCall::<O::Item, O::E>::Unsubscribe);
        }
        self.calls = Ghost(self.calls@.push(SinkCall::Unsubscribe));
    }

    /// Pure query, delegated to the owned subscription.
    pub fn is_closed(&self) -> (r: bool)
        ensures
            r == self.subscription.closed(),
    {
        self.subscription.is_closed()
    }
}

impl<O: Observer> Subscriber<O, LocalSubscription> {
    /// Wrap an observer for use within a single thread of control.
    pub fn local(observer: O) -> (s: Self)
        ensures
            s.wf(),
            s.calls@ == Seq::<SinkCall<O::Item, O::E>>::empty(),
            s.base@ == observer.received(),
            s.observer == observer,
            !s.subscription.closed(),
            s.subscription.children@ == Seq::<ChildResource>::empty(),
    {
        let ghost base = observer.received();
        let s = Subscriber {
            observer,
            subscription: LocalSubscription::default(),
            calls: Ghost(Seq::empty()),
            base: Ghost(base),
        };
        proof {
            assert(s.base@ + delivered(s.calls@) =~= s.base@);
        }
        s
    }

    /// Lift a single-thread subscriber into the shared variant, deep-
    /// converting the owned subscription; the observer and the call log
    /// carry over unchanged.
    pub fn to_shared(self) -> (s: Subscriber<O, SharedSubscription>)
        ensures
            s.observer == self.observer,
            s.calls == self.calls,
            s.base == self.base,
            s.subscription.closed == self.subscription.closed,
            s.subscription.children@ == self.subscription.children@,
            self.wf() ==> s.wf(),
    {
        Subscriber {
            observer: self.observer,
            subscription: self.subscription.to_shared(),
            calls: self.calls,
            base: self.base,
        }
    }
}

impl<O: Observer> Subscriber<O, SharedSubscription> {
    /// Wrap an observer in the shared variant directly.
    pub fn shared(observer: O) -> (s: Self)
        ensures
            s.wf(),
            s.calls@ == Seq::<SinkCall<O::Item, O::E>>::empty(),
            s.base@ == observer.received(),
            s.observer == observer,
            !s.subscription.closed(),
            s.subscription.children@ == Seq::<ChildResource>::empty(),
    {
        let ghost base = observer.received();
        let s = Subscriber {
            observer,
            subscription: SharedSubscription::default(),
            calls: Ghost(Seq::empty()),
            base: Ghost(base),
        };
        proof {
            assert(s.base@ + delivered(s.calls@) =~= s.base@);
        }
        s
    }
}

} // verus!
