//! Supervisor for a sidecar service process.
//!
//! The library guarantees that exactly one instance of a companion service
//! can be tracked at a time, that the TCP port the service binds to is
//! cleared before a launch, that the service's output stream is classified
//! and routed until termination, and that shutdown is idempotent: a second
//! shutdown never terminates a process twice.  The surrounding process I/O
//! (spawning, killing, reading pipes) is left to the embedding application;
//! this crate holds the decisions and proves them.

use vstd::prelude::*;

pub mod bytes;
pub mod events;
pub mod launcher;
pub mod migrations;
pub mod reaper;
pub mod registry;
pub mod shutdown;

verus! {

/// The well-known TCP port the sidecar service binds to.  It is used both
/// for the spawn environment and for reaping stale processes.
pub const API_PORT: u16 = 2620;

} // verus!
