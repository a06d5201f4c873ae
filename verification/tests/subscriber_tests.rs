use rx_core::events::StreamEvent;
use rx_core::observer::Recorder;
use rx_core::subscriber::Subscriber;

#[test]
fn next_and_complete() {
    let mut subscriber = Subscriber::local(Recorder::<i32, ()>::new());

    subscriber.next(&1);
    subscriber.next(&2);
    subscriber.complete();
    subscriber.next(&3);
    subscriber.next(&4);
    assert_eq!(subscriber.observer.next_count(), 2);
    assert_eq!(subscriber.observer.complete_count(), 1);
}

#[test]
fn next_and_error() {
    let mut subscriber = Subscriber::local(Recorder::<i32, ()>::new());

    subscriber.next(&1);
    subscriber.next(&2);
    subscriber.error(&());
    subscriber.next(&3);
    subscriber.next(&4);

    assert_eq!(subscriber.observer.next_count(), 2);
    assert_eq!(subscriber.observer.error_count(), 1);
}

#[test]
fn shared_next_complete() {
    let mut subscriber = Subscriber::local(Recorder::<i32, ()>::new()).to_shared();
    subscriber.next(&1);
    subscriber.next(&2);
    subscriber.complete();
    subscriber.next(&3);
    subscriber.next(&4);
    assert_eq!(subscriber.observer.next_count(), 2);
    assert_eq!(subscriber.observer.complete_count(), 1);
}

#[test]
fn shared_err_complete() {
    let mut subscriber = Subscriber::local(Recorder::<i32, ()>::new()).to_shared();
    subscriber.next(&1);
    subscriber.next(&2);
    subscriber.error(&());
    subscriber.next(&3);
    subscriber.next(&4);

    assert_eq!(subscriber.observer.next_count(), 2);
    assert_eq!(subscriber.observer.error_count(), 1);
}

#[test]
fn complete_then_error_drops_error() {
    let mut subscriber = Subscriber::local(Recorder::<i32, ()>::new());
    subscriber.complete();
    subscriber.error(&());
    subscriber.complete();
    assert_eq!(subscriber.observer.complete_count(), 1);
    assert_eq!(subscriber.observer.error_count(), 0);
}

#[test]
fn error_then_complete_drops_complete() {
    let mut subscriber = Subscriber::local(Recorder::<i32, ()>::new());
    subscriber.next(&7);
    subscriber.error(&());
    subscriber.complete();
    subscriber.error(&());
    assert_eq!(subscriber.observer.next_count(), 1);
    assert_eq!(subscriber.observer.error_count(), 1);
    assert_eq!(subscriber.observer.complete_count(), 0);
}

#[test]
fn unsubscribe_is_silent() {
    let mut subscriber = Subscriber::local(Recorder::<i32, ()>::new());
    subscriber.next(&1);
    assert!(!subscriber.is_closed());
    subscriber.unsubscribe();
    assert!(subscriber.is_closed());
    subscriber.next(&2);
    subscriber.complete();
    subscriber.error(&());
    assert_eq!(subscriber.observer.next_count(), 1);
    assert_eq!(subscriber.observer.complete_count(), 0);
    assert_eq!(subscriber.observer.error_count(), 0);
}

#[test]
fn shared_constructor_matches_local() {
    let mut subscriber = Subscriber::shared(Recorder::<i32, ()>::new());
    subscriber.next(&5);
    subscriber.complete();
    subscriber.next(&6);
    assert_eq!(subscriber.observer.next_count(), 1);
    assert_eq!(subscriber.observer.complete_count(), 1);
    assert!(subscriber.is_closed());
}

#[test]
fn delivery_order_is_kept() {
    let mut subscriber = Subscriber::local(Recorder::<i32, ()>::new());
    subscriber.next(&10);
    subscriber.next(&20);
    subscriber.complete();
    let events = &subscriber.observer.events;
    assert_eq!(events.len(), 3);
    assert!(matches!(events[0], StreamEvent::Next(10)));
    assert!(matches!(events[1], StreamEvent::Next(20)));
    assert!(matches!(events[2], StreamEvent::Complete));
}
