//! The two message alphabets of the engine: commands from the coordinator to
//! a worker unit, and status reports from a worker unit to the coordinator.

use vstd::prelude::*;

verus! {

/// A command sent by the coordinator to one worker unit over that unit's
/// private command channel.
#[derive(Clone, Copy, PartialEq, Eq, Debug)]
pub enum BossMessage {
    /// Begin (or resume) draining the work pool.
    Go,
    /// Exit: the whole job is finished.
    Stop,
}

/// A status report sent by a worker unit to the coordinator.
#[derive(Clone, Copy, PartialEq, Eq, Debug)]
pub enum WorkerMessage {
    /// The transformation just produced at least one derived item, so new
    /// work may exist: idle peers must re-check the pool.
    WakeUp,
    /// The worker observed the cancellation flag and terminated.
    Slain,
    /// The worker found the pool empty and is awaiting a new command; the
    /// payload is the worker's own index.
    Sleeping(usize),
}

} // verus!
