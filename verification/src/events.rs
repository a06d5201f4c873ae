use vstd::prelude::*;

verus! {

/// An event as a wrapped observer sees it: a value, a failure, or the end of
/// the stream.
#[derive(Clone, Copy, Debug)]
pub enum StreamEvent<Item, E> {
    Next(Item),
    Error(E),
    Complete,
}

/// One call made on a subscriber: the three observer events, plus external
/// cancellation, which delivers nothing but closes the subscription.
#[derive(Clone, Copy, Debug)]
pub enum SinkCall<Item, E> {
    Next(Item),
    Error(E),
    Complete,
    Unsubscribe,
}

/// A terminal event ends the stream: `error` or `complete`.
pub open spec fn is_terminal<Item, E>(e: StreamEvent<Item, E>) -> bool {
    match e {
        StreamEvent::Next(_) => false,
        StreamEvent::Error(_) => true,
        StreamEvent::Complete => true,
    }
}

/// A closing call shuts the subscription: a terminal event or a cancellation.
pub open spec fn is_closing<Item, E>(c: SinkCall<Item, E>) -> bool {
    match c {
        SinkCall::Next(_) => false,
        SinkCall::Error(_) => true,
        SinkCall::Complete => true,
        SinkCall::Unsubscribe => true,
    }
}

/// Whether a subscriber that has seen the calls `h`, oldest first, has a
/// closed subscription. Closing is monotonic: once some call closes the
/// subscription, every longer history stays closed.
pub open spec fn closed_after<Item, E>(h: Seq<SinkCall<Item, E>>) -> bool
    decreases h.len(),
{
    if h.len() == 0 {
        false
    } else {
        closed_after(h.drop_last()) || is_closing(h.last())
    }
}

/// The events that actually reach the wrapped observer when the calls `h`
/// are made on a fresh subscriber: a call is delivered only while the
/// subscription is still open, and cancellation delivers nothing.
pub open spec fn delivered<Item, E>(h: Seq<SinkCall<Item, E>>) -> Seq<
    StreamEvent<Item, E>,
>
    decreases h.len(),
{
    if h.len() == 0 {
        Seq::empty()
    } else {
        let rest = delivered(h.drop_last());
        if closed_after(h.drop_last()) {
            rest
        } else {
            match h.last() {
                SinkCall::Next(v) => rest.push(StreamEvent::Next(v)),
                SinkCall::Error(e) => rest.push(StreamEvent::Error(e)),
                SinkCall::Complete => rest.push(StreamEvent::Complete),
                SinkCall::Unsubscribe => rest,
            }
        }
    }
}

pub open spec fn has_terminal<Item, E>(s: Seq<StreamEvent<Item, E>>) -> bool {
    exists|i: int| 0 <= i < s.len() && is_terminal(s[i])
}

/// A well-formed observed sequence: any terminal event is the last event, so
/// at most one terminal occurs and no event of any kind follows it.
pub open spec fn well_formed<Item, E>(s: Seq<StreamEvent<Item, E>>) -> bool {
    forall|i: int| 0 <= i < s.len() && is_terminal(#[trigger] s[i]) ==> i == s.len() - 1
}

/// How a single further call changes the closed state and the delivered
/// events.
pub proof fn lemma_delivered_push<Item, E>(h: Seq<SinkCall<Item, E>>, c: SinkCall<Item, E>)
    ensures
        closed_after(h.push(c)) == (closed_after(h) || is_closing(c)),
        closed_after(h) ==> delivered(h.push(c)) == delivered(h),
        !closed_after(h) ==> delivered(h.push(c)) == (match c {
            SinkCall::Next(v) => delivered(h).push(StreamEvent::Next(v)),
            SinkCall::Error(e) => delivered(h).push(StreamEvent::Error(e)),
            SinkCall::Complete => delivered(h).push(StreamEvent::Complete),
            SinkCall::Unsubscribe => delivered(h),
        }),
{
    assert(h.push(c).drop_last() =~= h);
    assert(h.push(c).last() == c);
}

/// No sequence of calls, however careless the caller, makes the delivered
/// events ill-formed: the wrapped observer receives at most one terminal
/// event and nothing after it. While the subscription is still open, no
/// terminal event has been delivered at all.
pub proof fn lemma_delivered_well_formed<Item, E>(h: Seq<SinkCall<Item, E>>)
    ensures
        well_formed(delivered(h)),
        !closed_after(h) ==> !has_terminal(delivered(h)),
    decreases h.len(),
{
    if h.len() == 0 {
    } else {
        let rest = h.drop_last();
        lemma_delivered_well_formed(rest);
        if closed_after(rest) {
        } else {
            match h.last() {
                SinkCall::Next(v) => {
                    let d = delivered(rest).push(StreamEvent::Next(v));
                    assert forall|i: int|
                        0 <= i < d.len() && is_terminal(#[trigger] d[i]) implies i == d.len()
                        - 1 by {
                        if i < d.len() - 1 {
                            assert(d[i] == delivered(rest)[i]);
                            assert(has_terminal(delivered(rest)));
                        }
                    }
                    assert forall|i: int| 0 <= i < d.len() implies !is_terminal(
                        #[trigger] d[i],
                    ) by {
                        if i < d.len() - 1 {
                            assert(d[i] == delivered(rest)[i]);
                            assert(!has_terminal(delivered(rest)));
                        }
                    }
                },
                SinkCall::Unsubscribe => {
                },
                _ => {
                    let d = delivered(h);
                    assert forall|i: int|
                        0 <= i < d.len() && is_terminal(#[trigger] d[i]) implies i == d.len()
                        - 1 by {
                        if i < d.len() - 1 {
                            assert(d[i] == delivered(rest)[i]);
                            assert(has_terminal(delivered(rest)));
                        }
                    }
                },
            }
        }
    }
}

/// How many values a sequence of observed events carries.
pub open spec fn count_next_events<Item, E>(s: Seq<StreamEvent<Item, E>>) -> int
    decreases s.len(),
{
    if s.len() == 0 {
        0
    } else {
        count_next_events(s.drop_last()) + (match s.last() {
            StreamEvent::Next(_) => 1int,
            _ => 0int,
        })
    }
}

/// How many `error` events a sequence of observed events carries.
pub open spec fn count_error_events<Item, E>(s: Seq<StreamEvent<Item, E>>) -> int
    decreases s.len(),
{
    if s.len() == 0 {
        0
    } else {
        count_error_events(s.drop_last()) + (match s.last() {
            StreamEvent::Error(_) => 1int,
            _ => 0int,
        })
    }
}

/// How many `complete` events a sequence of observed events carries.
pub open spec fn count_complete_events<Item, E>(s: Seq<StreamEvent<Item, E>>) -> int
    decreases s.len(),
{
    if s.len() == 0 {
        0
    } else {
        count_complete_events(s.drop_last()) + (match s.last() {
            StreamEvent::Complete => 1int,
            _ => 0int,
        })
    }
}

} // verus!
