use vstd::prelude::*;

verus! {

/// A counting semaphore whose count lives in a lock held by the caller;
/// these are the decisions taken while the lock is held.
pub struct Semaphore {}

/// The count after a wait on `count`: one less when positive (`Some`), or
/// `None` when the waiter must yield and try again.
pub open spec fn after_wait(count: usize) -> Option<usize> {
    if count > 0 {
        Some((count - 1) as usize)
    } else {
        None
    }
}

/// The count after a post on `count`: one more.
pub open spec fn after_post(count: usize) -> int {
    count + 1
}

impl Semaphore {
    /// Waiting: with a positive count, the count drops by one and the
    /// waiter goes on; with none, the count is left and the waiter must
    /// yield and try again.
    pub fn wait(count: usize) -> (next: Option<usize>)
        ensures
            next == after_wait(count),
    {
        if count > 0 {
            Some(count - 1)
        } else {
            None
        }
    }

    /// Posting: the count rises by one.
    pub fn post(count: usize) -> (next: usize)
        requires
            count < usize::MAX,
        ensures
            next == after_post(count),
    {
        count + 1
    }
}

/// A post followed by a wait lets the waiter through and leaves the count
/// where it was.
pub proof fn post_then_wait(count: usize)
    requires
        count < usize::MAX,
    ensures
        after_wait(after_post(count) as usize) == Some(count),
{
}

/// A wait that lets the waiter through, followed by a post, leaves the count
/// where it was.
pub proof fn wait_then_post(count: usize)
    requires
        count > 0,
    ensures
        after_wait(count) matches Some(c) && after_post(c) == count,
{
}

} // verus!
