//! The lifecycle registry: a process-wide, single-slot store for the handle
//! of the currently running sidecar process.
//!
//! The slot is the only shared mutable state of the supervisor.  Its
//! take-and-clear operation is the only way to remove a handle, which is
//! what prevents a double-termination race between two shutdown triggers.

use vstd::prelude::*;

verus! {

/// A live child process, identified by its operating-system process id.
/// Ownership of a handle stands for the right to terminate the process.
#[derive(Clone, Copy, PartialEq, Eq, Debug)]
pub struct ServiceHandle {
    pub pid: u32,
}

/// A single optional slot holding the current sidecar handle.  At most one
/// handle occupies the slot at any time.
pub struct LifecycleRegistry {
    slot: Option<ServiceHandle>,
}

/// What one `store` leaves in the slot.
pub open spec fn store_result(handle: ServiceHandle) -> Option<ServiceHandle> {
    Some(handle)
}

/// What `take` returns, paired with what it leaves in the slot.
pub open spec fn take_result(slot: Option<ServiceHandle>) -> (Option<ServiceHandle>, Option<
    ServiceHandle,
>) {
    (slot, None)
}

impl View for LifecycleRegistry {
    type V = Option<ServiceHandle>;

    closed spec fn view(&self) -> Option<ServiceHandle> {
        self.slot
    }
}

impl LifecycleRegistry {
    /// A fresh registry with nothing stored.
    pub fn empty() -> (registry: Self)
        ensures
            registry@ is None,
    {
        LifecycleRegistry { slot: None }
    }

    /// Puts a handle into the slot.  Called exactly once, right after a
    /// successful launch.
    pub fn store(&mut self, handle: ServiceHandle)
        ensures
            final(self)@ == store_result(handle),
    {
        self.slot = Some(handle);
    }

    /// Atomically removes and returns the current handle, leaving the slot
    /// empty.  Safe to call any number of times: only the first call after
    /// a `store` observes the handle.
    pub fn take(&mut self) -> (taken: Option<ServiceHandle>)
        ensures
            taken == take_result(old(self)@).0,
            final(self)@ == take_result(old(self)@).1,
    {
        self.slot.take()
    }
}

/// At-most-once hand-off: after exactly one `store`, the first `take`
/// returns the stored handle and every later `take` returns nothing, the
/// slot staying empty.
pub proof fn lemma_take_at_most_once(handle: ServiceHandle)
    ensures
        take_result(store_result(handle)).0 == Some(handle),
        take_result(take_result(store_result(handle)).1).0 is None,
        take_result(take_result(store_result(handle)).1).1 is None,
{
}

/// A `take` from any state leaves the slot empty, so however many further
/// `take`s follow the first, each returns nothing.
pub proof fn lemma_take_after_take_is_none(slot: Option<ServiceHandle>)
    ensures
        take_result(take_result(slot).1).0 is None,
{
}

} // verus!
