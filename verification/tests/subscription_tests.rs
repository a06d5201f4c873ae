use rx_core::subscription::ChildResource;
use rx_core::subscription::LocalSubscription;
use rx_core::subscription::SharedSubscription;
use rx_core::subscription::SubscriptionLike;

fn released_count(children: &[ChildResource]) -> usize {
    children.iter().filter(|c| c.released).count()
}

#[test]
fn unsubscribe_is_idempotent() {
    let mut sub = LocalSubscription::default();
    sub.add(ChildResource::new());
    sub.add(ChildResource::new());
    sub.add(ChildResource::new());
    assert!(!sub.is_closed());
    assert_eq!(released_count(&sub.children), 0);

    sub.unsubscribe();
    assert!(sub.is_closed());
    // each distinct child released exactly once
    assert_eq!(sub.children.len(), 3);
    assert_eq!(released_count(&sub.children), 3);
    let once = sub.clone();

    // the second call never fails and changes nothing
    sub.unsubscribe();
    assert!(sub.is_closed());
    assert_eq!(sub.children.len(), 3);
    assert_eq!(released_count(&sub.children), 3);
    assert_eq!(sub.closed, once.closed);
    assert_eq!(sub.children.len(), once.children.len());
}

#[test]
fn shared_unsubscribe_is_idempotent() {
    let mut sub = SharedSubscription::default();
    sub.add(ChildResource::new());
    sub.unsubscribe();
    assert!(sub.is_closed());
    assert_eq!(released_count(&sub.children), 1);
    sub.unsubscribe();
    assert!(sub.is_closed());
    assert_eq!(released_count(&sub.children), 1);
}

#[test]
fn to_shared_deep_converts_children() {
    let mut local = LocalSubscription::default();
    local.add(ChildResource::new());
    local.add(ChildResource::new());
    let mut shared = local.to_shared();
    assert!(!shared.is_closed());
    assert_eq!(shared.children.len(), 2);
    assert_eq!(released_count(&shared.children), 0);
    shared.unsubscribe();
    assert!(shared.is_closed());
    assert_eq!(released_count(&shared.children), 2);
}

#[test]
fn add_to_closed_releases_at_once() {
    let mut sub = LocalSubscription::default();
    sub.unsubscribe();
    sub.add(ChildResource::new());
    // the closed subscription keeps nothing: the child was released, not leaked
    assert_eq!(sub.children.len(), 0);
    assert!(sub.is_closed());
}
