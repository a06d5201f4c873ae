use rx_core::events::StreamEvent;
use rx_core::observer::Recorder;
use rx_core::ops::switch::SwitchOp;

#[test]
fn test() {
    // The outer stream carries three inner streams; inner stream i emits
    // the values i..3 and completes before the next outer item arrives.
    let mut sw = SwitchOp::new(()).actual_subscribe(Recorder::<i32, ()>::new());
    let mut i: i32 = 0;
    while i < 3 {
        let id = sw.next();
        let mut v = i;
        while v < 3 {
            sw.inner_next(id, &v);
            v += 1;
        }
        sw.inner_complete(id);
        i += 1;
    }
    sw.complete();

    let events = &sw.observer.observer.events;
    let expected = [0, 1, 2, 1, 2, 2];
    assert_eq!(events.len(), expected.len() + 1);
    for (k, want) in expected.iter().enumerate() {
        match events[k] {
            StreamEvent::Next(got) => assert_eq!(got, *want),
            _ => panic!("expected a value"),
        }
    }
    assert!(matches!(events[expected.len()], StreamEvent::Complete));
    assert!(sw.is_closed());
}

#[test]
fn latest_inner_wins() {
    let mut sw = SwitchOp::new(()).actual_subscribe(Recorder::<i32, ()>::new());
    let a = sw.next();
    sw.inner_next(a, &10);
    // B starts before A completes: A is cancelled.
    let b = sw.next();
    sw.inner_next(a, &11); // late value from A: dropped
    sw.inner_next(b, &20);
    sw.inner_next(b, &21);
    sw.inner_complete(a); // stale completion: dropped
    sw.complete(); // outer done, B still active
    assert_eq!(sw.observer.observer.complete_count(), 0);
    sw.inner_complete(b);

    let events = &sw.observer.observer.events;
    assert_eq!(events.len(), 4);
    assert!(matches!(events[0], StreamEvent::Next(10)));
    assert!(matches!(events[1], StreamEvent::Next(20)));
    assert!(matches!(events[2], StreamEvent::Next(21)));
    assert!(matches!(events[3], StreamEvent::Complete));
}

#[test]
fn outer_completes_waits_for_inner() {
    let mut sw = SwitchOp::new(()).actual_subscribe(Recorder::<i32, ()>::new());
    let id = sw.next();
    sw.inner_next(id, &1);
    sw.complete();
    assert_eq!(sw.observer.observer.complete_count(), 0);
    assert!(!sw.is_closed());
    sw.inner_next(id, &2);
    sw.inner_complete(id);
    assert_eq!(sw.observer.observer.next_count(), 2);
    assert_eq!(sw.observer.observer.complete_count(), 1);
    assert!(sw.is_closed());
}

#[test]
fn outer_completes_immediately_with_no_inner() {
    let mut sw = SwitchOp::new(()).actual_subscribe(Recorder::<i32, ()>::new());
    sw.complete();
    assert_eq!(sw.observer.observer.complete_count(), 1);
    assert!(sw.is_closed());
}

#[test]
fn inner_completes_while_outer_running() {
    let mut sw = SwitchOp::new(()).actual_subscribe(Recorder::<i32, ()>::new());
    let a = sw.next();
    sw.inner_next(a, &1);
    sw.inner_complete(a);
    // the combined stream is still open and ready to switch
    assert_eq!(sw.observer.observer.complete_count(), 0);
    assert!(!sw.is_closed());
    let b = sw.next();
    sw.inner_next(b, &2);
    sw.inner_complete(b);
    sw.complete();
    assert_eq!(sw.observer.observer.next_count(), 2);
    assert_eq!(sw.observer.observer.complete_count(), 1);
}

#[test]
fn inner_error_is_fatal() {
    let mut sw = SwitchOp::new(()).actual_subscribe(Recorder::<i32, i32>::new());
    let a = sw.next();
    sw.inner_next(a, &1);
    sw.inner_error(a, &-1);
    assert!(sw.is_closed());
    // nothing flows after the failure
    sw.inner_next(a, &2);
    sw.complete();
    assert_eq!(sw.observer.observer.next_count(), 1);
    assert_eq!(sw.observer.observer.error_count(), 1);
    assert_eq!(sw.observer.observer.complete_count(), 0);
}

#[test]
fn outer_error_is_fatal() {
    let mut sw = SwitchOp::new(()).actual_subscribe(Recorder::<i32, i32>::new());
    let a = sw.next();
    sw.inner_next(a, &1);
    sw.error(&-7);
    assert!(sw.is_closed());
    sw.inner_next(a, &2);
    sw.inner_complete(a);
    assert_eq!(sw.observer.observer.next_count(), 1);
    assert_eq!(sw.observer.observer.error_count(), 1);
    assert_eq!(sw.observer.observer.complete_count(), 0);
}

#[test]
fn cancellation_silences_everything() {
    let mut sw = SwitchOp::new(()).actual_subscribe(Recorder::<i32, ()>::new());
    let a = sw.next();
    sw.inner_next(a, &1);
    sw.unsubscribe();
    assert!(sw.is_closed());
    sw.inner_next(a, &2);
    sw.complete();
    sw.unsubscribe(); // idempotent
    assert_eq!(sw.observer.observer.next_count(), 1);
    assert_eq!(sw.observer.observer.error_count(), 0);
    assert_eq!(sw.observer.observer.complete_count(), 0);
}

#[test]
fn stale_error_after_switch_is_dropped() {
    let mut sw = SwitchOp::new(()).actual_subscribe(Recorder::<i32, i32>::new());
    let a = sw.next();
    let b = sw.next();
    sw.inner_error(a, &-1); // stale failure from the replaced inner
    assert!(!sw.is_closed());
    sw.inner_next(b, &5);
    sw.inner_complete(b);
    sw.complete();
    assert_eq!(sw.observer.observer.next_count(), 1);
    assert_eq!(sw.observer.observer.error_count(), 0);
    assert_eq!(sw.observer.observer.complete_count(), 1);
}
