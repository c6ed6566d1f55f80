//! A coordination engine for a bounded pool of workers that process a
//! dynamically growing set of work items.
//!
//! Processing an item with a caller-supplied transformation can produce zero,
//! one, or many new items, so the amount of work is not known up front. The
//! engine must detect the exact moment every worker is simultaneously idle
//! with no pending work (quiescence), and must also honour a cooperative
//! cancellation request that can interrupt busy workers between items.
//!
//! This crate holds the verified core of that engine:
//!
//! - [`pool`]: the shared LIFO work pool;
//! - [`messages`]: the commands and status reports exchanged between the
//!   coordinator and the worker units;
//! - [`worker`]: the caller-facing [`worker::WorkerFun`] trait and the worker
//!   unit state machine, including the routing of transformed items;
//! - [`coordinator`]: the coordinator state machine that tracks idle workers
//!   and decides when to emit the single completion marker;
//! - [`engine`]: a sequential executor and the mathematical model a run of
//!   the engine must agree with.
//!
//! Threads, channels and the atomic cancellation flag live outside this
//! library: a host wires the state machines to real workers by delivering
//! each observed event to the matching step function and performing the
//! actions the step returns.
//!
//! The engine's guarantees are stated and proved as public proof functions:
//! the completion marker is emitted exactly once, only at true quiescence or
//! on cancellation ([`coordinator`]); routing conserves the derived items,
//! only inspected items are delivered, and what a completed run delivers is
//! a multiset that no pool order or fuel choice can change ([`engine`]).

pub mod coordinator;
pub mod engine;
pub mod messages;
pub mod pool;
pub mod worker;
