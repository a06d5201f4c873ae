use vstd::prelude::*;

verus! {

/// A cancellable handle telling whether a stream is still active.
///
/// `unsubscribe` is idempotent: the first call releases every owned child
/// resource and closes the handle; any further call changes nothing. The
/// two concrete variants share this contract and differ only in which
/// ownership discipline they are meant for.
pub trait SubscriptionLike: Sized {
    /// Whether this handle reports the stream as closed.
    spec fn closed(&self) -> bool;

    /// Relates a subscription value to its state after one `unsubscribe`
    /// call.
    spec fn is_close_of(pre: Self, post: Self) -> bool;

    /// Closing always closes, and closing an already-closed subscription
    /// changes nothing.
    proof fn close_properties(pre: Self, post: Self)
        requires
            Self::is_close_of(pre, post),
        ensures
            post.closed(),
            pre.closed() ==> post == pre,
    ;

    /// Cancel the stream: release every owned child resource and close the
    /// handle. Total and silent, whether or not the handle is already
    /// closed.
    fn unsubscribe(&mut self)
        ensures
            Self::is_close_of(*old(self), *final(self)),
    ;

    /// Pure query, no side effects.
    fn is_closed(&self) -> (r: bool)
        ensures
            r == self.closed(),
    ;
}

/// A resource owned by a subscription and released exactly once when the
/// subscription closes: a nested subscription handle or a teardown callback.
#[derive(Clone, Copy, Debug)]
pub struct ChildResource {
    pub released: bool,
}

impl ChildResource {
    /// A live, not yet released resource.
    pub fn new() -> (r: Self)
        ensures
            !r.released,
    {
        ChildResource { released: false }
    }

    /// Release the resource. Total: releasing never fails, and releasing an
    /// already-released resource leaves it released.
    pub fn release(self) -> (r: Self)
        ensures
            r.released,
    {
        ChildResource { released: true }
    }
}

/// Every child in the sequence has been released.
pub open spec fn all_released(children: Seq<ChildResource>) -> bool {
    forall|i: int| 0 <= i < children.len() ==> (#[trigger] children[i]).released
}

/// The subscription variant for a subscription tree confined to one thread
/// of control.
#[derive(Clone, Debug)]
pub struct LocalSubscription {
    pub closed: bool,
    pub children: Vec<ChildResource>,
}

/// The subscription variant meant to be shared across threads. It upholds
/// the same contract as the local variant; keeping the close/check sequence
/// atomic against concurrent callers is the duty of whatever synchronisation
/// wraps a handle that is actually shared.
#[derive(Clone, Debug)]
pub struct SharedSubscription {
    pub closed: bool,
    pub children: Vec<ChildResource>,
}

/// Releases every child resource in order: none is skipped, none is
/// released twice, and no release raises a failure. Shared by both
/// subscription variants.
fn release_all(children: &Vec<ChildResource>) -> (released: Vec<ChildResource>)
    ensures
        released@.len() == children@.len(),
        all_released(released@),
{
    let mut released: Vec<ChildResource> = Vec::new();
    let mut i: usize = 0;
    while i < children.len()
        invariant
            i <= children@.len(),
            released@.len() == i,
            all_released(released@),
        decreases children@.len() - i,
    {
        released.push(children[i].release());
        i = i + 1;
    }
    released
}

impl SubscriptionLike for LocalSubscription {
    open spec fn closed(&self) -> bool {
        self.closed
    }

    open spec fn is_close_of(pre: Self, post: Self) -> bool {
        if pre.closed {
            post == pre
        } else {
            &&& post.closed
            &&& post.children@.len() == pre.children@.len()
            &&& all_released(post.children@)
        }
    }

    proof fn close_properties(pre: Self, post: Self) {
    }

    fn unsubscribe(&mut self) {
        if !self.closed {
            let released = release_all(&self.children);
            self.children = released;
            self.closed = true;
        }
    }

    fn is_closed(&self) -> (r: bool) {
        self.closed
    }
}

impl SubscriptionLike for SharedSubscription {
    open spec fn closed(&self) -> bool {
        self.closed
    }

    open spec fn is_close_of(pre: Self, post: Self) -> bool {
        if pre.closed {
            post == pre
        } else {
            &&& post.closed
            &&& post.children@.len() == pre.children@.len()
            &&& all_released(post.children@)
        }
    }

    proof fn close_properties(pre: Self, post: Self) {
    }

    fn unsubscribe(&mut self) {
        if !self.closed {
            let released = release_all(&self.children);
            self.children = released;
            self.closed = true;
        }
    }

    fn is_closed(&self) -> (r: bool) {
        self.closed
    }
}

impl Default for LocalSubscription {
    /// A fresh, open subscription owning no children yet.
    fn default() -> (r: Self)
        ensures
            !r.closed,
            r.children@ == Seq::<ChildResource>::empty(),
    {
        LocalSubscription { closed: false, children: Vec::new() }
    }
}

impl Default for SharedSubscription {
    /// A fresh, open subscription owning no children yet.
    fn default() -> (r: Self)
        ensures
            !r.closed,
            r.children@ == Seq::<ChildResource>::empty(),
    {
        SharedSubscription { closed: false, children: Vec::new() }
    }
}

impl LocalSubscription {
    /// Hand a child resource to this subscription. An open subscription
    /// keeps it and will release it on close; a closed one releases it at
    /// once, so the resource is never leaked.
    pub fn add(&mut self, child: ChildResource)
        ensures
            !old(self).closed ==> final(self).closed == false && final(self).children@ == old(
                self,
            ).children@.push(child),
            old(self).closed ==> *final(self) == *old(self),
    {
        if self.closed {
            let _released = child.release();
        } else {
            self.children.push(child);
        }
    }

    /// Lift this handle into the shared variant, carrying the closed state
    /// and every owned child over unchanged.
    pub fn to_shared(self) -> (r: SharedSubscription)
        ensures
            r.closed == self.closed,
            r.children@ == self.children@,
    {
        SharedSubscription { closed: self.closed, children: self.children }
    }
}

impl SharedSubscription {
    /// Hand a child resource to this subscription. An open subscription
    /// keeps it and will release it on close; a closed one releases it at
    /// once, so the resource is never leaked.
    pub fn add(&mut self, child: ChildResource)
        ensures
            !old(self).closed ==> final(self).closed == false && final(self).children@ == old(
                self,
            ).children@.push(child),
            old(self).closed ==> *final(self) == *old(self),
    {
        if self.closed {
            let _released = child.release();
        } else {
            self.children.push(child);
        }
    }
}

/// Closing a subscription twice produces the very state that one close
/// produces: the second `unsubscribe` changes nothing, whichever variant the
/// handle is.
pub proof fn lemma_close_idempotent<U: SubscriptionLike>(s0: U, s1: U, s2: U)
    requires
        U::is_close_of(s0, s1),
        U::is_close_of(s1, s2),
    ensures
        s2 == s1,
{
    U::close_properties(s0, s1);
    U::close_properties(s1, s2);
}

} // verus!
