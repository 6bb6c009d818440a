use vstd::prelude::*;

verus! {

/// Whoever waits for a slot: a blocking thread or a suspended task, each
/// named by the identity its host assigned to it.
///
/// Two waiters are equal exactly when they are of the same kind and carry
/// the same identity; a thread never equals a task.
#[derive(Clone, Copy, Debug, PartialEq, Eq, Structural)]
pub enum ThreadOrWaker {
    Thread(u64),
    Waker(u64),
}

impl ThreadOrWaker {
    /// Whether `self` and `other` denote the same waiting party.
    pub fn same_party(&self, other: &ThreadOrWaker) -> (r: bool)
        ensures
            r <==> *self == *other,
    {
        match (*self, *other) {
            (ThreadOrWaker::Thread(a), ThreadOrWaker::Thread(b)) => a == b,
            (ThreadOrWaker::Waker(a), ThreadOrWaker::Waker(b)) => a == b,
            _ => false,
        }
    }
}

} // verus!
