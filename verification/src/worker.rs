//! The worker unit: the caller-facing pair of work functions and the state
//! machine each worker runs.
//!
//! A worker unit alternates between two states. In `AwaitingCommand` it
//! blocks on its private command channel; in `Draining` it repeatedly pops
//! the work pool, applies the transformation, and routes each derived item
//! either to the result stream (the predicate holds: the item is finished)
//! or back onto the pool (still unresolved). The step functions here decide
//! every transition; a host performs the communication they prescribe.

use vstd::prelude::*;

use crate::messages::{BossMessage, WorkerMessage};

verus! {

/// The caller-supplied pair of work functions.
///
/// `improve` consumes one item and returns zero or more derived items;
/// `inspect` decides whether a derived item is finished. Both must be pure:
/// the two spec functions name their results, and every implementation
/// promises that the executable functions agree with them. An implementation
/// written inside verified code overrides the two spec functions to say what
/// it computes; one written outside it may leave the defaults, which promise
/// nothing in particular.
pub trait WorkerFun<I: Send + 'static>: Send + Sync + 'static {
    /// The sequence of items `improve` derives from `item`.
    open spec fn improve_spec(&self, item: I) -> Seq<I> {
        vstd::pervasive::arbitrary()
    }

    /// Whether `inspect` judges `item` finished.
    open spec fn inspect_spec(&self, item: I) -> bool {
        vstd::pervasive::arbitrary()
    }

    /// Transforms one item into zero or more derived items.
    fn improve(&self, item: I) -> (widgets: Vec<I>)
        ensures
            widgets@ == self.improve_spec(item),
    ;

    /// Decides whether an item is finished and may leave the engine.
    fn inspect(&self, item: &I) -> (finished: bool)
        ensures
            finished == self.inspect_spec(*item),
    ;
}

/// The derived items that are finished: those the predicate accepts, in the
/// order `improve` produced them.
pub open spec fn finished_of<I: Send + 'static, W: WorkerFun<I>>(fun: W, widgets: Seq<I>) -> Seq<
    I,
> {
    widgets.filter(|w: I| fun.inspect_spec(w))
}

/// The derived items that go back onto the pool: those the predicate
/// rejects, in the order `improve` produced them.
pub open spec fn requeued_of<I: Send + 'static, W: WorkerFun<I>>(fun: W, widgets: Seq<I>) -> Seq<
    I,
> {
    widgets.filter(|w: I| !fun.inspect_spec(w))
}

/// Routing one more widget extends exactly one of the two routes.
pub proof fn lemma_routing_step<I: Send + 'static, W: WorkerFun<I>>(fun: W, widgets: Seq<I>, w: I)
    ensures
        finished_of(fun, widgets.push(w)) == (if fun.inspect_spec(w) {
            finished_of(fun, widgets).push(w)
        } else {
            finished_of(fun, widgets)
        }),
        requeued_of(fun, widgets.push(w)) == (if !fun.inspect_spec(w) {
            requeued_of(fun, widgets).push(w)
        } else {
            requeued_of(fun, widgets)
        }),
{
    widgets.lemma_filter_push(w, |x: I| fun.inspect_spec(x));
    widgets.lemma_filter_push(w, |x: I| !fun.inspect_spec(x));
}

/// Splits the derived items of one transformation into the finished ones and
/// the ones to requeue, keeping the order of production on both routes.
pub fn route_widgets<I: Send + 'static, W: WorkerFun<I>>(fun: &W, widgets: Vec<I>) -> (routed: (
    Vec<I>,
    Vec<I>,
))
    ensures
        routed.0@ == finished_of(*fun, widgets@),
        routed.1@ == requeued_of(*fun, widgets@),
{
    let ghost all = widgets@;
    let mut rest = widgets;
    let mut finished: Vec<I> = Vec::new();
    let mut requeue: Vec<I> = Vec::new();
    let ghost mut routed_len: int = 0;
    proof {
        assert(all.take(0) =~= Seq::<I>::empty());
        assert(rest@ =~= all.skip(0));
    }
    while rest.len() > 0
        invariant
            0 <= routed_len <= all.len(),
            rest@ == all.skip(routed_len),
            finished@ == finished_of(*fun, all.take(routed_len)),
            requeue@ == requeued_of(*fun, all.take(routed_len)),
        decreases rest@.len(),
    {
        let w = rest.remove(0);
        proof {
            assert(w == all[routed_len]);
            assert(all.take(routed_len + 1) =~= all.take(routed_len).push(w));
            lemma_routing_step(*fun, all.take(routed_len), w);
        }
        if fun.inspect(&w) {
            finished.push(w);
        } else {
            requeue.push(w);
        }
        proof {
            routed_len = routed_len + 1;
            assert(rest@ =~= all.skip(routed_len));
        }
    }
    proof {
        assert(all.take(routed_len) =~= all);
    }
    (finished, requeue)
}

/// The control state of one worker unit.
#[derive(Clone, Copy, PartialEq, Eq, Debug)]
pub enum WorkerState {
    /// Blocked on the private command channel.
    AwaitingCommand,
    /// Repeatedly popping the work pool.
    Draining,
    /// The unit's thread has left its loop for good.
    Exited,
}

/// One worker unit: its index in the roster and its control state.
pub struct WorkerUnit {
    /// The unit's index, `0 <= index < roster`; reported when going idle.
    pub index: usize,
    /// The unit's current control state.
    pub state: WorkerState,
}

/// The state an awaiting worker moves to on a command. A closed command
/// channel (`None`) is an implicit stop.
pub open spec fn command_next(command: Option<BossMessage>, cancelled: bool) -> WorkerState {
    match command {
        None => WorkerState::Exited,
        Some(BossMessage::Stop) => WorkerState::Exited,
        Some(BossMessage::Go) => if cancelled {
            WorkerState::Exited
        } else {
            WorkerState::Draining
        },
    }
}

/// The status an awaiting worker reports on a command: only a `Go` that runs
/// into the cancellation flag is answered, with `Slain`.
pub open spec fn command_report(command: Option<BossMessage>, cancelled: bool) -> Option<
    WorkerMessage,
> {
    if command == Some(BossMessage::Go) && cancelled {
        Some(WorkerMessage::Slain)
    } else {
        None
    }
}

/// The state a draining worker moves to after one attempt at the pool.
pub open spec fn drain_next<I>(popped: Option<I>, cancelled: bool) -> WorkerState {
    match popped {
        None => WorkerState::AwaitingCommand,
        Some(_) => if cancelled {
            WorkerState::Exited
        } else {
            WorkerState::Draining
        },
    }
}

/// The status a draining worker reports after one attempt at the pool: the
/// pool was empty (`Sleeping`), the flag was set (`Slain`), or the
/// transformation produced at least one derived item (`WakeUp`, sent once
/// per pop, not once per derived item).
pub open spec fn drain_report<I: Send + 'static, W: WorkerFun<I>>(
    fun: W,
    index: usize,
    popped: Option<I>,
    cancelled: bool,
) -> Option<WorkerMessage> {
    match popped {
        None => Some(WorkerMessage::Sleeping(index)),
        Some(item) => if cancelled {
            Some(WorkerMessage::Slain)
        } else if fun.improve_spec(item).len() > 0 {
            Some(WorkerMessage::WakeUp)
        } else {
            None
        },
    }
}

/// The items one drain step delivers to the result stream.
pub open spec fn drain_finished<I: Send + 'static, W: WorkerFun<I>>(
    fun: W,
    popped: Option<I>,
    cancelled: bool,
) -> Seq<I> {
    match popped {
        Some(item) => if !cancelled {
            finished_of(fun, fun.improve_spec(item))
        } else {
            Seq::<I>::empty()
        },
        None => Seq::<I>::empty(),
    }
}

/// The items one drain step sends back onto the pool.
pub open spec fn drain_requeued<I: Send + 'static, W: WorkerFun<I>>(
    fun: W,
    popped: Option<I>,
    cancelled: bool,
) -> Seq<I> {
    match popped {
        Some(item) => if !cancelled {
            requeued_of(fun, fun.improve_spec(item))
        } else {
            Seq::<I>::empty()
        },
        None => Seq::<I>::empty(),
    }
}

/// Everything one drain step asks the host to do: deliver `finished` on the
/// result stream, push `requeue` onto the pool, and send `report` (if any)
/// to the coordinator.
pub struct DrainOutcome<I> {
    /// Finished items, to be delivered on the result stream in this order.
    pub finished: Vec<I>,
    /// Unresolved items, to be pushed onto the pool in this order.
    pub requeue: Vec<I>,
    /// The status report for the coordinator, if this step owes one.
    pub report: Option<WorkerMessage>,
}

impl WorkerUnit {
    /// A fresh unit, awaiting its first command.
    pub fn new(index: usize) -> (unit: WorkerUnit)
        ensures
            unit.index == index,
            unit.state == WorkerState::AwaitingCommand,
    {
        WorkerUnit { index, state: WorkerState::AwaitingCommand }
    }

    /// Reacts to one command (or to the command channel closing, `None`),
    /// with the cancellation flag read as `cancelled`: `Stop` and a closed
    /// channel end the unit silently; `Go` under cancellation ends it with a
    /// `Slain` report; `Go` otherwise starts draining.
    pub fn handle_command(&mut self, command: Option<BossMessage>, cancelled: bool) -> (report:
        Option<WorkerMessage>)
        requires
            old(self).state == WorkerState::AwaitingCommand,
        ensures
            final(self).index == old(self).index,
            final(self).state == command_next(command, cancelled),
            report == command_report(command, cancelled),
    {
        match command {
            None | Some(BossMessage::Stop) => {
                self.state = WorkerState::Exited;
                None
            },
            Some(BossMessage::Go) => {
                if cancelled {
                    self.state = WorkerState::Exited;
                    Some(WorkerMessage::Slain)
                } else {
                    self.state = WorkerState::Draining;
                    None
                }
            },
        }
    }

    /// One round of the draining loop, after the host popped the pool
    /// (`popped`) and read the cancellation flag (`cancelled`). An empty
    /// pool sends the unit back to await a command; cancellation ends it
    /// (the popped item is abandoned); otherwise the item is transformed
    /// and its derived items are routed.
    pub fn drain_step<I: Send + 'static, W: WorkerFun<I>>(
        &mut self,
        fun: &W,
        popped: Option<I>,
        cancelled: bool,
    ) -> (out: DrainOutcome<I>)
        requires
            old(self).state == WorkerState::Draining,
        ensures
            final(self).index == old(self).index,
            final(self).state == drain_next(popped, cancelled),
            out.report == drain_report(*fun, old(self).index, popped, cancelled),
            out.finished@ == drain_finished(*fun, popped, cancelled),
            out.requeue@ == drain_requeued(*fun, popped, cancelled),
    {
        match popped {
            None => {
                self.state = WorkerState::AwaitingCommand;
                DrainOutcome {
                    finished: Vec::new(),
                    requeue: Vec::new(),
                    report: Some(WorkerMessage::Sleeping(self.index)),
                }
            },
            Some(item) => {
                if cancelled {
                    self.state = WorkerState::Exited;
                    DrainOutcome {
                        finished: Vec::new(),
                        requeue: Vec::new(),
                        report: Some(WorkerMessage::Slain),
                    }
                } else {
                    let widgets = fun.improve(item);
                    let produced = widgets.len() > 0;
                    let (finished, requeue) = route_widgets(fun, widgets);
                    DrainOutcome {
                        finished,
                        requeue,
                        report: if produced {
                            Some(WorkerMessage::WakeUp)
                        } else {
                            None
                        },
                    }
                }
            },
        }
    }
}

} // verus!
