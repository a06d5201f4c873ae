use vstd::prelude::*;

use crate::events::SinkCall;
use crate::events::StreamEvent;
use crate::events::closed_after;
use crate::events::delivered;
use crate::events::has_terminal;
use crate::events::well_formed;
use crate::events::lemma_delivered_push;
use crate::events::lemma_delivered_well_formed;
use crate::observer::Observer;
use crate::subscriber::Subscriber;
use crate::subscription::ChildResource;
use crate::subscription::LocalSubscription;

verus! {

/// The lifecycle of a running switch operator.
#[derive(Clone, Copy, Debug)]
pub enum Phase {
    /// The outer stream is running and no inner stream is active.
    Idle,
    /// The outer stream is running and one inner stream is active.
    Active,
    /// The outer stream has completed; its last inner stream is still
    /// active, and its completion will complete the combined stream.
    OuterDone,
    /// A terminal event went downstream or the operator was cancelled.
    Closed,
}

/// One occurrence in the interleaved life of a switch operator. Inner
/// streams are numbered in the order they start; an inner event names the
/// stream it comes from, so a value from an already-replaced inner is
/// recognisable as stale.
pub enum SwitchAction<Item, E> {
    /// The outer stream hands over a new inner stream.
    OuterNext,
    /// The outer stream completes.
    OuterComplete,
    /// The outer stream fails.
    OuterError(E),
    /// The inner stream with the given number emits a value.
    InnerNext(int, Item),
    /// The inner stream with the given number completes.
    InnerComplete(int),
    /// The inner stream with the given number fails.
    InnerError(int, E),
    /// External cancellation of the whole operator.
    Cancel,
}

/// The abstract state of the switch machine.
pub struct SwitchState {
    pub phase: Phase,
    /// How many inner streams have been started; the live one, if any, is
    /// number `started - 1`.
    pub started: int,
}

/// The state of a switch operator that has processed nothing.
pub open spec fn initial_state() -> SwitchState {
    SwitchState { phase: Phase::Idle, started: 0 }
}

/// Whether the inner stream numbered `id` is the live one: the most
/// recently started inner, with the operator still listening to it.
pub open spec fn live_inner(m: SwitchState, id: int) -> bool {
    (m.phase is Active || m.phase is OuterDone) && id == m.started - 1
}

/// How one action changes the machine's state.
pub open spec fn step<Item, E>(m: SwitchState, a: SwitchAction<Item, E>) -> SwitchState {
    match a {
        SwitchAction::OuterNext => if m.phase is Idle || m.phase is Active {
            SwitchState { phase: Phase::Active, started: m.started + 1 }
        } else {
            m
        },
        SwitchAction::OuterComplete => if m.phase is Idle {
            SwitchState { phase: Phase::Closed, started: m.started }
        } else if m.phase is Active {
            SwitchState { phase: Phase::OuterDone, started: m.started }
        } else {
            m
        },
        SwitchAction::OuterError(_) => if m.phase is Idle || m.phase is Active {
            SwitchState { phase: Phase::Closed, started: m.started }
        } else {
            m
        },
        SwitchAction::InnerNext(_, _) => m,
        SwitchAction::InnerComplete(id) => if live_inner(m, id) {
            if m.phase is Active {
                SwitchState { phase: Phase::Idle, started: m.started }
            } else {
                SwitchState { phase: Phase::Closed, started: m.started }
            }
        } else {
            m
        },
        SwitchAction::InnerError(id, _) => if live_inner(m, id) {
            SwitchState { phase: Phase::Closed, started: m.started }
        } else {
            m
        },
        SwitchAction::Cancel => if m.phase is Closed {
            m
        } else {
            SwitchState { phase: Phase::Closed, started: m.started }
        },
    }
}

/// The calls one action sends to the downstream subscriber.
pub open spec fn step_calls<Item, E>(m: SwitchState, a: SwitchAction<Item, E>) -> Seq<
    SinkCall<Item, E>,
> {
    match a {
        SwitchAction::OuterNext => Seq::empty(),
        SwitchAction::OuterComplete => if m.phase is Idle {
            seq![SinkCall::Complete]
        } else {
            Seq::empty()
        },
        SwitchAction::OuterError(e) => if m.phase is Idle || m.phase is Active {
            seq![SinkCall::Error(e)]
        } else {
            Seq::empty()
        },
        SwitchAction::InnerNext(id, v) => if live_inner(m, id) {
            seq![SinkCall::Next(v)]
        } else {
            Seq::empty()
        },
        SwitchAction::InnerComplete(id) => if live_inner(m, id) && m.phase is OuterDone {
            seq![SinkCall::Complete]
        } else {
            Seq::empty()
        },
        SwitchAction::InnerError(id, e) => if live_inner(m, id) {
            seq![SinkCall::Error(e)]
        } else {
            Seq::empty()
        },
        SwitchAction::Cancel => if m.phase is Closed {
            Seq::empty()
        } else {
            seq![SinkCall::Unsubscribe]
        },
    }
}

/// The machine's state after processing the actions `h`, oldest first.
pub open spec fn run_state<Item, E>(h: Seq<SwitchAction<Item, E>>) -> SwitchState
    decreases h.len(),
{
    if h.len() == 0 {
        initial_state()
    } else {
        step(run_state(h.drop_last()), h.last())
    }
}

/// Every call the machine has sent downstream after processing `h`.
pub open spec fn run_calls<Item, E>(h: Seq<SwitchAction<Item, E>>) -> Seq<SinkCall<Item, E>>
    decreases h.len(),
{
    if h.len() == 0 {
        Seq::empty()
    } else {
        run_calls(h.drop_last()) + step_calls(run_state(h.drop_last()), h.last())
    }
}

/// The events of the combined stream: what the downstream subscriber lets
/// through to the wrapped observer after the actions `h`.
pub open spec fn switch_output<Item, E>(h: Seq<SwitchAction<Item, E>>) -> Seq<
    StreamEvent<Item, E>,
> {
    delivered(run_calls(h))
}

/// How one further action extends the run.
pub proof fn lemma_run_push<Item, E>(h: Seq<SwitchAction<Item, E>>, a: SwitchAction<Item, E>)
    ensures
        run_state(h.push(a)) == step(run_state(h), a),
        run_calls(h.push(a)) == run_calls(h) + step_calls(run_state(h), a),
{
    assert(h.push(a).drop_last() =~= h);
    assert(h.push(a).last() == a);
}

/// The machine has closed the downstream subscription exactly when it has
/// reached the `Closed` phase, and `started` never decreases along a run.
pub proof fn lemma_run_closed<Item, E>(h: Seq<SwitchAction<Item, E>>)
    ensures
        (run_state(h).phase is Closed) == closed_after(run_calls(h)),
        run_state(h).started >= 0,
    decreases h.len(),
{
    if h.len() == 0 {
        assert(run_calls(h) =~= Seq::<SinkCall<Item, E>>::empty());
    } else {
        let rest = h.drop_last();
        let a = h.last();
        let m = run_state(rest);
        lemma_run_closed(rest);
        let emitted = step_calls(m, a);
        if emitted.len() == 0 {
            assert(run_calls(h) =~= run_calls(rest));
        } else {
            assert(run_calls(h).drop_last() =~= run_calls(rest));
            assert(run_calls(h).last() == emitted[0]);
        }
    }
}

/// The number of started inner streams never decreases along a run.
pub proof fn lemma_started_monotonic<Item, E>(h: Seq<SwitchAction<Item, E>>, i: int, j: int)
    requires
        0 <= i <= j <= h.len(),
    ensures
        run_state(h.take(i)).started <= run_state(h.take(j)).started,
    decreases j - i,
{
    if i < j {
        lemma_started_monotonic(h, i, j - 1);
        assert(h.take(j).drop_last() =~= h.take(j - 1));
        assert(h.take(j).last() == h[j - 1]);
    }
}

/// The latest inner stream wins: once a later inner stream has started
/// (`started` has passed `id + 1` at some point `i`), a value that the
/// earlier inner `id` emits at any later point `j` is dropped and never
/// reaches the downstream observer.
pub proof fn lemma_latest_inner_wins<Item, E>(
    h: Seq<SwitchAction<Item, E>>,
    i: int,
    j: int,
    id: int,
    v: Item,
)
    requires
        0 <= i <= j < h.len(),
        run_state(h.take(i)).started >= id + 2,
        h[j] == SwitchAction::<Item, E>::InnerNext(id, v),
    ensures
        run_calls(h.take(j + 1)) == run_calls(h.take(j)),
        switch_output(h.take(j + 1)) == switch_output(h.take(j)),
{
    lemma_started_monotonic(h, i, j);
    assert(h.take(j + 1).drop_last() =~= h.take(j));
    assert(h.take(j + 1).last() == h[j]);
    assert(run_calls(h.take(j + 1)) =~= run_calls(h.take(j)));
}

/// If the outer stream completes while no inner is active, the combined
/// stream completes at once.
pub proof fn lemma_complete_when_no_inner<Item, E>(h: Seq<SwitchAction<Item, E>>)
    requires
        run_state(h).phase is Idle,
    ensures
        run_state(h.push(SwitchAction::OuterComplete)).phase is Closed,
        switch_output(h.push(SwitchAction::OuterComplete)) == switch_output(h).push(
            StreamEvent::Complete,
        ),
{
    lemma_run_push(h, SwitchAction::<Item, E>::OuterComplete);
    lemma_run_closed(h);
    lemma_delivered_push(run_calls(h), SinkCall::<Item, E>::Complete);
    assert(run_calls(h) + seq![SinkCall::<Item, E>::Complete] =~= run_calls(h).push(
        SinkCall::Complete,
    ));
}

/// If the outer stream completes while an inner is still active, the
/// combined stream does not complete yet: the operator waits, and the later
/// completion of that inner is what completes the combined stream.
pub proof fn lemma_complete_waits_for_inner<Item, E>(h: Seq<SwitchAction<Item, E>>)
    requires
        run_state(h).phase is Active,
    ensures
        run_state(h.push(SwitchAction::OuterComplete)).phase is OuterDone,
        switch_output(h.push(SwitchAction::OuterComplete)) == switch_output(h),
        run_state(
            h.push(SwitchAction::OuterComplete).push(
                SwitchAction::InnerComplete(run_state(h).started - 1),
            ),
        ).phase is Closed,
        switch_output(
            h.push(SwitchAction::OuterComplete).push(
                SwitchAction::InnerComplete(run_state(h).started - 1),
            ),
        ) == switch_output(h).push(StreamEvent::Complete),
{
    let oc = SwitchAction::<Item, E>::OuterComplete;
    let ic = SwitchAction::<Item, E>::InnerComplete(run_state(h).started - 1);
    let h1 = h.push(oc);
    lemma_run_push(h, oc);
    assert(run_calls(h1) =~= run_calls(h));
    lemma_run_push(h1, ic);
    lemma_run_closed(h);
    lemma_delivered_push(run_calls(h), SinkCall::<Item, E>::Complete);
    assert(run_calls(h1.push(ic)) =~= run_calls(h).push(SinkCall::Complete));
}

/// If an inner stream completes while the outer is still running, the
/// combined stream neither completes nor closes: the operator returns to
/// waiting, and the next outer item starts a fresh inner stream.
pub proof fn lemma_inner_complete_keeps_stream_open<Item, E>(h: Seq<SwitchAction<Item, E>>)
    requires
        run_state(h).phase is Active,
    ensures
        run_state(h.push(SwitchAction::InnerComplete(run_state(h).started - 1))).phase is Idle,
        switch_output(h.push(SwitchAction::InnerComplete(run_state(h).started - 1)))
            == switch_output(h),
        run_state(
            h.push(SwitchAction::InnerComplete(run_state(h).started - 1)).push(
                SwitchAction::OuterNext,
            ),
        ).phase is Active,
{
    let ic = SwitchAction::<Item, E>::InnerComplete(run_state(h).started - 1);
    let h1 = h.push(ic);
    lemma_run_push(h, ic);
    assert(run_calls(h1) =~= run_calls(h));
    lemma_run_push(h1, SwitchAction::<Item, E>::OuterNext);
}

/// While the operator has not closed, no terminal event has reached the
/// downstream observer: in particular, an outer completion that still waits
/// for an inner has not completed the combined stream.
pub proof fn lemma_no_terminal_while_open<Item, E>(h: Seq<SwitchAction<Item, E>>)
    requires
        !(run_state(h).phase is Closed),
    ensures
        !has_terminal(switch_output(h)),
{
    lemma_run_closed(h);
    lemma_delivered_well_formed(run_calls(h));
}

/// Whatever the interleaving of outer and inner events, the combined
/// stream the downstream observer sees is well-formed: at most one
/// terminal event, with nothing after it.
pub proof fn lemma_switch_output_well_formed<Item, E>(h: Seq<SwitchAction<Item, E>>)
    ensures
        well_formed(switch_output(h)),
{
    lemma_delivered_well_formed(run_calls(h));
}

/// The switch (flatten-latest) operator over an outer stream whose items
/// are themselves streams: the combined stream follows only the most
/// recently started inner stream, cancelling the previous one as soon as a
/// new one arrives.
pub struct SwitchOp<S> {
    /// The outer source this operator was composed onto.
    pub source: S,
}

impl<S> SwitchOp<S> {
    /// Compose the operator onto an outer source.
    pub fn new(source: S) -> (r: Self)
        ensures
            r.source == source,
    {
        SwitchOp { source }
    }

    /// Begin emission: wrap the downstream observer in a fresh subscriber
    /// and return the operator's observer machine, ready to be driven with
    /// the outer stream's events and the live inner stream's events.
    pub fn actual_subscribe<O: Observer>(self, observer: O) -> (r: SwitchObserver<O>)
        ensures
            r.wf(),
            r.actions@ == Seq::<SwitchAction<O::Item, O::E>>::empty(),
            r.phase is Idle,
            r.started == 0,
            r.current_observable is None,
            r.observer.observer == observer,
            r.observer.base@ == observer.received(),
            r.observer.subscription.children@ == Seq::<ChildResource>::empty(),
    {
        let downstream = Subscriber::local(observer);
        let r = SwitchObserver {
            observer: downstream,
            current_observable: None,
            started: 0,
            phase: Phase::Idle,
            actions: Ghost(Seq::empty()),
        };
        proof {
            assert(run_calls(r.actions@) =~= r.observer.calls@);
        }
        r
    }
}

/// The observer the switch operator subscribes to its outer stream, holding
/// the downstream subscriber and the slot for the current inner stream.
///
/// Inner streams are numbered in the order they start; the slot holds the
/// number of the live one. An event arriving with a stale number — from an
/// inner that a newer one has replaced — is dropped, which is how replacing
/// an inner cancels it.
pub struct SwitchObserver<O: Observer> {
    /// The downstream subscriber every forwarded event goes to.
    pub observer: Subscriber<O, LocalSubscription>,
    /// The number of the live inner stream, if one is active.
    pub current_observable: Option<u64>,
    /// How many inner streams have been started so far.
    pub started: u64,
    pub phase: Phase,
    /// Every action this operator has processed, oldest first.
    pub actions: Ghost<Seq<SwitchAction<O::Item, O::E>>>,
}

impl<O: Observer> SwitchObserver<O> {
    /// The operator's invariant: the concrete fields mirror the machine's
    /// state over the processed actions, and the downstream subscriber has
    /// been sent exactly the machine's calls.
    pub open spec fn wf(&self) -> bool {
        &&& self.observer.wf()
        &&& run_state(self.actions@) == SwitchState {
            phase: self.phase,
            started: self.started as int,
        }
        &&& self.observer.calls@ == run_calls(self.actions@)
        &&& match self.current_observable {
            Some(id) => (self.phase is Active || self.phase is OuterDone) && id as int
                == self.started as int - 1,
            None => !(self.phase is Active) && !(self.phase is OuterDone),
        }
    }

    /// The events the combined stream has delivered so far.
    pub open spec fn output(&self) -> Seq<StreamEvent<O::Item, O::E>> {
        switch_output(self.actions@)
    }

    /// The outer stream hands over the next inner stream: the previous
    /// inner, if any, is cancelled, and the returned number names the fresh
    /// live inner. After the outer stream has terminated the call is
    /// dropped.
    pub fn next(&mut self) -> (id: u64)
        requires
            old(self).wf(),
            old(self).started < u64::MAX,
        ensures
            final(self).wf(),
            final(self).actions@ == old(self).actions@.push(SwitchAction::OuterNext),
            final(self).observer == old(self).observer,
            id == old(self).started,
            old(self).phase is Idle || old(self).phase is Active ==> {
                &&& final(self).phase is Active
                &&& final(self).started == old(self).started + 1
                &&& final(self).current_observable == Some(id)
            },
            !(old(self).phase is Idle || old(self).phase is Active) ==> {
                &&& final(self).phase == old(self).phase
                &&& final(self).started == old(self).started
                &&& final(self).current_observable == old(self).current_observable
            },
    {
        let ghost a = SwitchAction::<O::Item, O::E>::OuterNext;
        let id = self.started;
        match self.phase {
            Phase::Idle | Phase::Active => {
                self.started = self.started + 1;
                self.current_observable = Some(id);
                self.phase = Phase::Active;
            },
            _ => {},
        }
        proof {
            lemma_run_push(old(self).actions@, a);
            assert(run_calls(old(self).actions@) + step_calls(
                run_state(old(self).actions@),
                a,
            ) =~= run_calls(old(self).actions@));
        }
        self.actions = Ghost(self.actions@.push(a));
        id
    }

    /// The outer stream fails: fatal to the combined stream. The failure
    /// goes downstream at once and the operator closes. After the outer
    /// stream has terminated the call is dropped.
    pub fn error(&mut self, err: &O::E)
        requires
            old(self).wf(),
        ensures
            final(self).wf(),
            final(self).actions@ == old(self).actions@.push(SwitchAction::OuterError(*err)),
            old(self).phase is Idle || old(self).phase is Active ==> {
                &&& final(self).phase is Closed
                &&& final(self).current_observable is None
                &&& final(self).observer.observer.received() == old(self).observer.observer.received().push(StreamEvent::Error(*err))
            },
            !(old(self).phase is Idle || old(self).phase is Active) ==> {
                &&& final(self).phase == old(self).phase
                &&& final(self).current_observable == old(self).current_observable
                &&& final(self).observer == old(self).observer
            },
            final(self).started == old(self).started,
    {
        let ghost a = SwitchAction::<O::Item, O::E>::OuterError(*err);
        match self.phase {
            Phase::Idle | Phase::Active => {
                proof {
                    lemma_run_closed(old(self).actions@);
                }
                self.observer.error(err);
                self.phase = Phase::Closed;
                self.current_observable = None;
            },
            _ => {},
        }
        proof {
            lemma_run_push(old(self).actions@, a);
            assert(run_calls(old(self).actions@.push(a)) =~= old(self).observer.calls@
                + step_calls(run_state(old(self).actions@), a));
            if old(self).phase is Idle || old(self).phase is Active {
                assert(old(self).observer.calls@ + seq![
                    SinkCall::<O::Item, O::E>::Error(*err),
                ] =~= old(self).observer.calls@.push(SinkCall::Error(*err)));
            } else {
                assert(old(self).observer.calls@ + Seq::<SinkCall<O::Item, O::E>>::empty()
                    =~= old(self).observer.calls@);
            }
        }
        self.actions = Ghost(self.actions@.push(a));
    }

    /// The outer stream completes. With no inner active the combined
    /// stream completes at once; with an inner still active the operator
    /// waits for it. After the outer stream has terminated the call is
    /// dropped.
    pub fn complete(&mut self)
        requires
            old(self).wf(),
        ensures
            final(self).wf(),
            final(self).actions@ == old(self).actions@.push(SwitchAction::OuterComplete),
            old(self).phase is Idle ==> {
                &&& final(self).phase is Closed
                &&& final(self).observer.observer.received() == old(self).observer.observer.received().push(StreamEvent::Complete)
            },
            old(self).phase is Active ==> {
                &&& final(self).phase is OuterDone
                &&& final(self).observer == old(self).observer
            },
            !(old(self).phase is Idle || old(self).phase is Active) ==> {
                &&& final(self).phase == old(self).phase
                &&& final(self).observer == old(self).observer
            },
            final(self).started == old(self).started,
            final(self).current_observable == old(self).current_observable,
    {
        let ghost a = SwitchAction::<O::Item, O::E>::OuterComplete;
        match self.phase {
            Phase::Idle => {
                proof {
                    lemma_run_closed(old(self).actions@);
                }
                self.observer.complete();
                self.phase = Phase::Closed;
            },
            Phase::Active => {
                self.phase = Phase::OuterDone;
            },
            _ => {},
        }
        proof {
            lemma_run_push(old(self).actions@, a);
            assert(run_calls(old(self).actions@.push(a)) =~= old(self).observer.calls@
                + step_calls(run_state(old(self).actions@), a));
            if old(self).phase is Idle {
                assert(old(self).observer.calls@ + seq![SinkCall::<O::Item, O::E>::Complete]
                    =~= old(self).observer.calls@.push(SinkCall::Complete));
            } else {
                assert(old(self).observer.calls@ + Seq::<SinkCall<O::Item, O::E>>::empty()
                    =~= old(self).observer.calls@);
            }
        }
        self.actions = Ghost(self.actions@.push(a));
    }

    /// A value from the inner stream numbered `id`. A value from the live
    /// inner goes downstream; a stale value — from an inner that a newer
    /// one has replaced, or arriving after the operator closed — is
    /// dropped.
    pub fn inner_next(&mut self, id: u64, value: &O::Item)
        requires
            old(self).wf(),
        ensures
            final(self).wf(),
            final(self).actions@ == old(self).actions@.push(
                SwitchAction::InnerNext(id as int, *value),
            ),
            final(self).phase == old(self).phase,
            final(self).started == old(self).started,
            final(self).current_observable == old(self).current_observable,
            old(self).current_observable == Some(id) ==> final(self).observer.observer.received() == old(self).observer.observer.received().push(
                StreamEvent::Next(*value),
            ),
            old(self).current_observable != Some(id) ==> final(self).observer == old(self).observer,
    {
        let ghost a = SwitchAction::<O::Item, O::E>::InnerNext(id as int, *value);
        let live = match self.current_observable {
            Some(cur) => cur == id,
            None => false,
        };
        if live {
            proof {
                lemma_run_closed(old(self).actions@);
            }
            self.observer.next(value);
        }
        proof {
            lemma_run_push(old(self).actions@, a);
            assert(run_calls(old(self).actions@.push(a)) =~= old(self).observer.calls@
                + step_calls(run_state(old(self).actions@), a));
            if live {
                assert(old(self).observer.calls@ + seq![
                    SinkCall::<O::Item, O::E>::Next(*value),
                ] =~= old(self).observer.calls@.push(SinkCall::Next(*value)));
            } else {
                assert(old(self).observer.calls@ + Seq::<SinkCall<O::Item, O::E>>::empty()
                    =~= old(self).observer.calls@);
            }
        }
        self.actions = Ghost(self.actions@.push(a));
    }

    /// The inner stream numbered `id` completes. If it is the live inner
    /// and the outer is still running, the operator just drops the slot and
    /// awaits the next outer item; if the outer has already completed, the
    /// combined stream now completes. A stale completion is dropped.
    pub fn inner_complete(&mut self, id: u64)
        requires
            old(self).wf(),
        ensures
            final(self).wf(),
            final(self).actions@ == old(self).actions@.push(SwitchAction::InnerComplete(id as int)),
            final(self).started == old(self).started,
            old(self).current_observable == Some(id) && old(self).phase is Active ==> {
                &&& final(self).phase is Idle
                &&& final(self).current_observable is None
                &&& final(self).observer == old(self).observer
            },
            old(self).current_observable == Some(id) && old(self).phase is OuterDone ==> {
                &&& final(self).phase is Closed
                &&& final(self).current_observable is None
                &&& final(self).observer.observer.received() == old(self).observer.observer.received().push(StreamEvent::Complete)
            },
            old(self).current_observable != Some(id) ==> {
                &&& final(self).phase == old(self).phase
                &&& final(self).current_observable == old(self).current_observable
                &&& final(self).observer == old(self).observer
            },
    {
        let ghost a = SwitchAction::<O::Item, O::E>::InnerComplete(id as int);
        let live = match self.current_observable {
            Some(cur) => cur == id,
            None => false,
        };
        let mut delivered_complete = false;
        if live {
            match self.phase {
                Phase::Active => {
                    self.phase = Phase::Idle;
                    self.current_observable = None;
                },
                Phase::OuterDone => {
                    proof {
                        lemma_run_closed(old(self).actions@);
                    }
                    self.observer.complete();
                    self.phase = Phase::Closed;
                    self.current_observable = None;
                    delivered_complete = true;
                },
                _ => {},
            }
        }
        proof {
            lemma_run_push(old(self).actions@, a);
            assert(run_calls(old(self).actions@.push(a)) =~= old(self).observer.calls@
                + step_calls(run_state(old(self).actions@), a));
            if live && old(self).phase is OuterDone {
                assert(old(self).observer.calls@ + seq![SinkCall::<O::Item, O::E>::Complete]
                    =~= old(self).observer.calls@.push(SinkCall::Complete));
            } else {
                assert(old(self).observer.calls@ + Seq::<SinkCall<O::Item, O::E>>::empty()
                    =~= old(self).observer.calls@);
            }
        }
        self.actions = Ghost(self.actions@.push(a));
    }

    /// The inner stream numbered `id` fails. A failure of the live inner is
    /// fatal: it goes downstream at once and the operator closes. A stale
    /// failure is dropped.
    pub fn inner_error(&mut self, id: u64, err: &O::E)
        requires
            old(self).wf(),
        ensures
            final(self).wf(),
            final(self).actions@ == old(self).actions@.push(
                SwitchAction::InnerError(id as int, *err),
            ),
            final(self).started == old(self).started,
            old(self).current_observable == Some(id) ==> {
                &&& final(self).phase is Closed
                &&& final(self).current_observable is None
                &&& final(self).observer.observer.received() == old(self).observer.observer.received().push(StreamEvent::Error(*err))
            },
            old(self).current_observable != Some(id) ==> {
                &&& final(self).phase == old(self).phase
                &&& final(self).current_observable == old(self).current_observable
                &&& final(self).observer == old(self).observer
            },
    {
        let ghost a = SwitchAction::<O::Item, O::E>::InnerError(id as int, *err);
        let live = match self.current_observable {
            Some(cur) => cur == id,
            None => false,
        };
        if live {
            proof {
                lemma_run_closed(old(self).actions@);
            }
            self.observer.error(err);
            self.phase = Phase::Closed;
            self.current_observable = None;
        }
        proof {
            lemma_run_push(old(self).actions@, a);
            assert(run_calls(old(self).actions@.push(a)) =~= old(self).observer.calls@
                + step_calls(run_state(old(self).actions@), a));
            if live {
                assert(old(self).observer.calls@ + seq![
                    SinkCall::<O::Item, O::E>::Error(*err),
                ] =~= old(self).observer.calls@.push(SinkCall::Error(*err)));
            } else {
                assert(old(self).observer.calls@ + Seq::<SinkCall<O::Item, O::E>>::empty()
                    =~= old(self).observer.calls@);
            }
        }
        self.actions = Ghost(self.actions@.push(a));
    }

    /// External cancellation: close the downstream subscription and drop
    /// the current inner, delivering no further event of any kind.
    /// Idempotent, like every close.
    pub fn unsubscribe(&mut self)
        requires
            old(self).wf(),
        ensures
            final(self).wf(),
            final(self).actions@ == old(self).actions@.push(SwitchAction::Cancel),
            final(self).phase is Closed,
            final(self).current_observable is None,
            final(self).started == old(self).started,
            final(self).observer.observer == old(self).observer.observer,
            old(self).phase is Closed ==> final(self).observer == old(self).observer,
    {
        let ghost a = SwitchAction::<O::Item, O::E>::Cancel;
        match self.phase {
            Phase::Closed => {},
            _ => {
                self.observer.unsubscribe();
                self.phase = Phase::Closed;
                self.current_observable = None;
            },
        }
        proof {
            lemma_run_push(old(self).actions@, a);
            assert(run_calls(old(self).actions@.push(a)) =~= old(self).observer.calls@
                + step_calls(run_state(old(self).actions@), a));
            if old(self).phase is Closed {
                assert(old(self).observer.calls@ + Seq::<SinkCall<O::Item, O::E>>::empty()
                    =~= old(self).observer.calls@);
            } else {
                assert(old(self).observer.calls@ + seq![
                    SinkCall::<O::Item, O::E>::Unsubscribe,
                ] =~= old(self).observer.calls@.push(SinkCall::Unsubscribe));
            }
        }
        self.actions = Ghost(self.actions@.push(a));
    }

    /// Whether the operator has closed.
    pub fn is_closed(&self) -> (r: bool)
        ensures
            r == (self.phase is Closed),
    {
        match self.phase {
            Phase::Closed => true,
            _ => false,
        }
    }
}

/// What the wrapped downstream observer has seen is exactly what it had
/// seen at subscribe time followed by the combined stream's output.
pub proof fn lemma_switch_end_to_end<O: Observer>(s: SwitchObserver<O>)
    requires
        s.wf(),
    ensures
        s.observer.observer.received() == s.observer.base@ + s.output(),
{
}

} // verus!
