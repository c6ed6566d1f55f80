//! The coordinator: one unit that commands the workers, tracks which of them
//! are idle, and decides when the single completion marker is emitted.
//!
//! The coordinator reacts to one status report at a time. `WakeUp` makes it
//! wake every idle worker; `Sleeping(i)` adds `i` to the idle set and, once
//! every worker is idle — global quiescence — emits the completion marker
//! and stops all workers; `Slain` (a worker saw the cancellation flag) makes
//! it emit the marker, wake the idle workers so they can observe the flag
//! themselves, and exit its receive loop.

use vstd::prelude::*;
use vstd::set_lib::lemma_int_range;
use vstd::set_lib::lemma_subset_equality;
use vstd::set_lib::set_int_range;

use crate::messages::{BossMessage, WorkerMessage};
use crate::worker::{command_next, command_report, WorkerState};

verus! {

/// The coordinator's state as the contracts see it: the worker count, the
/// indices currently idle, whether it still reads status reports, and
/// whether it has already broadcast `Stop` after detecting quiescence.
pub struct CoordView {
    /// The number of worker units, at least one.
    pub roster: nat,
    /// The indices of workers awaiting a new command, in arrival order.
    pub idled: Seq<usize>,
    /// False once the coordinator left its receive loop (cancellation path).
    pub listening: bool,
    /// True once quiescence was detected and `Stop` was broadcast.
    pub halted: bool,
}

/// The coordinator's state after it reads one status report.
pub open spec fn coord_next(c: CoordView, msg: WorkerMessage) -> CoordView {
    match msg {
        WorkerMessage::WakeUp => CoordView { idled: Seq::empty(), ..c },
        WorkerMessage::Slain => CoordView { listening: false, ..c },
        WorkerMessage::Sleeping(i) => CoordView {
            idled: c.idled.push(i),
            halted: c.halted || c.idled.len() + 1 == c.roster,
            ..c
        },
    }
}

/// Whether reading this report makes the coordinator emit the completion
/// marker: always on `Slain`, and on the `Sleeping` report that makes the
/// idle set cover the whole roster.
pub open spec fn coord_emits(c: CoordView, msg: WorkerMessage) -> bool {
    match msg {
        WorkerMessage::WakeUp => false,
        WorkerMessage::Slain => true,
        WorkerMessage::Sleeping(_) => c.idled.len() + 1 == c.roster,
    }
}

/// The workers the coordinator sends `Go` after reading this report.
pub open spec fn coord_wakes(c: CoordView, msg: WorkerMessage) -> Seq<usize> {
    match msg {
        WorkerMessage::WakeUp => c.idled,
        WorkerMessage::Slain => c.idled,
        WorkerMessage::Sleeping(_) => Seq::empty(),
    }
}

/// Whether reading this report makes the coordinator broadcast `Stop`.
pub open spec fn coord_stops_all(c: CoordView, msg: WorkerMessage) -> bool {
    msg is Sleeping && c.idled.len() + 1 == c.roster
}

/// What one coordinator step asks the host to do, in this order: deliver
/// the completion marker, send `Go` to the listed workers, send `Stop` to
/// every worker, and leave the receive loop.
pub struct CoordinatorStep {
    /// Deliver the completion marker (the single `None`) on the result
    /// stream.
    pub emit_marker: bool,
    /// Send `Go` to each of these worker indices.
    pub wake: Vec<usize>,
    /// Send `Stop` to every worker.
    pub stop_all: bool,
    /// Stop reading status reports.
    pub exit: bool,
}

/// The coordinator's mutable state.
pub struct Coordinator {
    roster: usize,
    idled: Vec<usize>,
    listening: bool,
    halted: bool,
}

impl View for Coordinator {
    type V = CoordView;

    closed spec fn view(&self) -> CoordView {
        CoordView {
            roster: self.roster as nat,
            idled: self.idled@,
            listening: self.listening,
            halted: self.halted,
        }
    }
}

/// Copies a vector of worker indices.
fn copy_indices(indices: &Vec<usize>) -> (copied: Vec<usize>)
    ensures
        copied@ == indices@,
{
    let mut copied: Vec<usize> = Vec::new();
    let mut j: usize = 0;
    while j < indices.len()
        invariant
            j <= indices.len(),
            copied@ == indices@.take(j as int),
        decreases indices.len() - j,
    {
        copied.push(indices[j]);
        proof {
            assert(indices@.take(j + 1 as int) =~= indices@.take(j as int).push(indices@[j as int]));
        }
        j = j + 1;
    }
    proof {
        assert(indices@.take(indices@.len() as int) =~= indices@);
    }
    copied
}

impl Coordinator {
    /// A fresh coordinator for `roster` workers: nobody idle, listening,
    /// quiescence not yet detected.
    pub fn new(roster: usize) -> (c: Coordinator)
        requires
            roster >= 1,
        ensures
            c@ == (CoordView {
                roster: roster as nat,
                idled: Seq::<usize>::empty(),
                listening: true,
                halted: false,
            }),
    {
        Coordinator { roster, idled: Vec::new(), listening: true, halted: false }
    }

    /// Reads one status report and returns what the host must do for it.
    pub fn on_message(&mut self, msg: WorkerMessage) -> (step: CoordinatorStep)
        requires
            old(self)@.listening,
        ensures
            final(self)@ == coord_next(old(self)@, msg),
            step.emit_marker == coord_emits(old(self)@, msg),
            step.wake@ == coord_wakes(old(self)@, msg),
            step.stop_all == coord_stops_all(old(self)@, msg),
            step.exit == !coord_next(old(self)@, msg).listening,
    {
        match msg {
            WorkerMessage::WakeUp => {
                let wake = copy_indices(&self.idled);
                self.idled.clear();
                CoordinatorStep { emit_marker: false, wake, stop_all: false, exit: false }
            },
            WorkerMessage::Slain => {
                self.listening = false;
                let wake = copy_indices(&self.idled);
                CoordinatorStep { emit_marker: true, wake, stop_all: false, exit: true }
            },
            WorkerMessage::Sleeping(i) => {
                self.idled.push(i);
                let quiescent = self.idled.len() == self.roster;
                if quiescent {
                    self.halted = true;
                }
                CoordinatorStep {
                    emit_marker: quiescent,
                    wake: Vec::new(),
                    stop_all: quiescent,
                    exit: false,
                }
            },
        }
    }
}

/// The coordinator's invariant: at least one worker, and an idle set without
/// duplicates, within the roster, and strictly short of it until quiescence.
pub open spec fn coord_inv(c: CoordView) -> bool {
    &&& c.roster >= 1
    &&& c.idled.no_duplicates()
    &&& (forall|j: int| 0 <= j < c.idled.len() ==> (#[trigger] c.idled[j] as nat) < c.roster)
    &&& c.idled.len() <= c.roster
    &&& (!c.halted ==> c.idled.len() < c.roster)
}

/// What the worker protocol guarantees of a status report that reaches a
/// listening coordinator: a worker reports `Sleeping(i)` only once per `Go`,
/// so `i` is a roster index not already idle; and after the coordinator
/// broadcast `Stop`, every worker is idle and stopping, so nothing reports
/// at all.
pub open spec fn valid_message(c: CoordView, msg: WorkerMessage) -> bool {
    match msg {
        WorkerMessage::Sleeping(i) => (i as nat) < c.roster && !c.idled.contains(i) && !c.halted,
        WorkerMessage::WakeUp => !c.halted,
        WorkerMessage::Slain => !c.halted,
    }
}

/// Whether every report of `msgs`, read in order, obeys the worker protocol
/// at the moment the coordinator reads it. Reports sent after the
/// coordinator exited are never read, so anything is allowed there.
pub open spec fn valid_trace(c: CoordView, msgs: Seq<WorkerMessage>) -> bool
    decreases msgs.len(),
{
    msgs.len() == 0 || !c.listening || (valid_message(c, msgs.first()) && valid_trace(
        coord_next(c, msgs.first()),
        msgs.drop_first(),
    ))
}

/// The coordinator's state after reading the reports of `msgs` in order,
/// stopping as soon as it exits its receive loop.
pub open spec fn coord_run(c: CoordView, msgs: Seq<WorkerMessage>) -> CoordView
    decreases msgs.len(),
{
    if msgs.len() == 0 || !c.listening {
        c
    } else {
        coord_run(coord_next(c, msgs.first()), msgs.drop_first())
    }
}

/// How many completion markers the coordinator emits while reading the
/// reports of `msgs` in order.
pub open spec fn markers_emitted(c: CoordView, msgs: Seq<WorkerMessage>) -> nat
    decreases msgs.len(),
{
    if msgs.len() == 0 || !c.listening {
        0
    } else {
        (if coord_emits(c, msgs.first()) {
            1 as nat
        } else {
            0 as nat
        }) + markers_emitted(coord_next(c, msgs.first()), msgs.drop_first())
    }
}

/// Reading a protocol-valid report preserves the coordinator's invariant.
pub proof fn lemma_step_preserves_inv(c: CoordView, msg: WorkerMessage)
    requires
        coord_inv(c),
        valid_message(c, msg),
    ensures
        coord_inv(coord_next(c, msg)),
{
    match msg {
        WorkerMessage::Sleeping(i) => {
            let next = coord_next(c, msg);
            assert forall|j: int| 0 <= j < next.idled.len() implies (#[trigger] next.idled[j] as nat)
                < next.roster by {
                if j < c.idled.len() {
                    assert(next.idled[j] == c.idled[j]);
                }
            }
        },
        _ => {},
    }
}

/// Completion exactly once. Over any run whose reports obey the worker
/// protocol, the coordinator emits the completion marker exactly once if
/// the run completes — by detecting quiescence (`halted`) or by reading a
/// cancellation report (no longer `listening`) — and never a second time;
/// a run that completes neither way has emitted no marker yet.
pub proof fn lemma_completion_marker_exactly_once(c: CoordView, msgs: Seq<WorkerMessage>)
    requires
        coord_inv(c),
        c.listening,
        !c.halted,
        valid_trace(c, msgs),
    ensures
        markers_emitted(c, msgs) == (if coord_run(c, msgs).halted || !coord_run(c, msgs).listening {
            1 as nat
        } else {
            0 as nat
        }),
    decreases msgs.len(),
{
    if msgs.len() == 0 {
    } else {
        let msg = msgs.first();
        let rest = msgs.drop_first();
        let next = coord_next(c, msg);
        lemma_step_preserves_inv(c, msg);
        match msg {
            WorkerMessage::WakeUp => {
                lemma_completion_marker_exactly_once(next, rest);
            },
            WorkerMessage::Slain => {
                assert(!next.listening);
                assert(markers_emitted(next, rest) == 0);
                assert(coord_run(next, rest) == next);
                assert(coord_run(c, msgs) == coord_run(next, rest));
            },
            WorkerMessage::Sleeping(i) => {
                if c.idled.len() + 1 == c.roster {
                    assert(next.halted && next.listening);
                    assert(valid_trace(next, rest));
                    assert(rest.len() == 0) by {
                        if rest.len() > 0 {
                            assert(valid_message(next, rest.first()));
                        }
                    }
                    assert(coord_run(next, rest) == next);
                    assert(coord_run(c, msgs) == coord_run(next, rest));
                    assert(markers_emitted(next, rest) == 0);
                    assert(markers_emitted(c, msgs) == 1);
                } else {
                    assert(!next.halted);
                    lemma_completion_marker_exactly_once(next, rest);
                }
            },
        }
    }
}

/// Quiescence detection correctness: the `Sleeping` report that triggers the
/// marker leaves every roster index in the idle set — each worker really is
/// awaiting a command, so no worker is running and the pool is empty.
pub proof fn lemma_quiescence_means_all_idle(c: CoordView, i: usize)
    requires
        coord_inv(c),
        valid_message(c, WorkerMessage::Sleeping(i)),
        coord_emits(c, WorkerMessage::Sleeping(i)),
    ensures
        forall|k: usize|
            (k as nat) < c.roster ==> coord_next(c, WorkerMessage::Sleeping(i)).idled.contains(k),
{
    let s = c.idled.push(i);
    assert(coord_next(c, WorkerMessage::Sleeping(i)).idled == s);
    assert(s.no_duplicates()) by {
        assert(forall|j: int| 0 <= j < c.idled.len() ==> s[j] == c.idled[j]);
    }
    let si = s.map_values(|u: usize| u as int);
    assert(si.no_duplicates()) by {
        assert forall|a: int, b: int|
            0 <= a < si.len() && 0 <= b < si.len() && a != b implies si[a] != si[b] by {
            assert(s[a] != s[b]);
        }
    }
    let range = set_int_range(0, c.roster as int);
    lemma_int_range(0, c.roster as int);
    assert(si.to_set().subset_of(range)) by {
        assert forall|x: int| si.to_set().contains(x) implies range.contains(x) by {
            let j = choose|j: int| 0 <= j < si.len() && si[j] == x;
            assert((s[j] as nat) < c.roster);
        }
    }
    si.unique_seq_to_set();
    assert(si.to_set().len() == c.roster);
    lemma_subset_equality(si.to_set(), range);
    assert forall|k: usize| (k as nat) < c.roster implies s.contains(k) by {
        assert(range.contains(k as int));
        assert(si.to_set().contains(k as int));
        assert(si.contains(k as int));
        let j = choose|j: int| 0 <= j < si.len() && si[j] == k as int;
        assert(s[j] == k);
    }
}

/// Cancellation responsiveness: with the cancellation flag set, a worker
/// told to begin exits at once with a `Slain` report, and the coordinator
/// answers the first `Slain` it reads with the completion marker and exits;
/// whatever valid reports were queued behind it are never read, so exactly
/// one marker is emitted.
pub proof fn lemma_cancellation_responsive(c: CoordView, msgs: Seq<WorkerMessage>)
    requires
        coord_inv(c),
        c.listening,
        !c.halted,
        msgs.len() >= 1,
        msgs.first() == WorkerMessage::Slain,
        valid_trace(c, msgs),
    ensures
        command_next(Some(BossMessage::Go), true) == WorkerState::Exited,
        command_report(Some(BossMessage::Go), true) == Some(WorkerMessage::Slain),
        markers_emitted(c, msgs) == 1,
        !coord_run(c, msgs).listening,
{
    lemma_completion_marker_exactly_once(c, msgs);
    let next = coord_next(c, WorkerMessage::Slain);
    assert(!next.listening);
    assert(coord_run(next, msgs.drop_first()) == next);
    assert(coord_run(c, msgs) == coord_run(next, msgs.drop_first()));
}

} // verus!
