//! The shutdown coordinator: on an application-exit event it takes the
//! handle from the lifecycle registry and plans a best-effort termination,
//! always followed by a fallback sweep of the service port.
//!
//! The coordinator never fails: every step of the plan is best-effort, and
//! invoking it a second time is safe because the registry hands the handle
//! out at most once.

use vstd::prelude::*;
use crate::registry::LifecycleRegistry;
use crate::registry::ServiceHandle;

verus! {

/// What the embedding application must do on exit: kill the handle, if one
/// was registered, and reap the service port in any case.
#[derive(Clone, Copy, PartialEq, Eq, Debug)]
pub struct ShutdownPlan {
    /// The handle to terminate, if the registry still held one.
    pub kill: Option<ServiceHandle>,
    /// The port to sweep afterwards, whether or not a handle was found.
    pub reap_port: u16,
}

/// One coordinator step over the registry slot: what is killed, and what
/// the slot holds afterwards.
pub open spec fn shutdown_step(slot: Option<ServiceHandle>) -> (Option<ServiceHandle>, Option<
    ServiceHandle,
>) {
    (slot, None)
}

/// Plans the shutdown for one exit event.  Takes the handle out of the
/// registry (so no later invocation can see it) and orders the fallback
/// port sweep unconditionally.
pub fn coordinate(registry: &mut LifecycleRegistry, port: u16) -> (plan: ShutdownPlan)
    ensures
        plan.kill == shutdown_step(old(registry)@).0,
        final(registry)@ == shutdown_step(old(registry)@).1,
        plan.reap_port == port,
{
    let taken = registry.take();
    ShutdownPlan { kill: taken, reap_port: port }
}

/// Idempotent shutdown: coordinating twice in sequence never terminates a
/// process twice — the second step finds the slot empty and kills nothing —
/// while the fallback port sweep is ordered by both invocations.
pub proof fn lemma_shutdown_idempotent(slot: Option<ServiceHandle>)
    ensures
        shutdown_step(shutdown_step(slot).1).0 is None,
        shutdown_step(shutdown_step(slot).1).1 is None,
{
}

} // verus!
