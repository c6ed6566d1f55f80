//! The worker unit state machine, step by step.

use factory::messages::{BossMessage, WorkerMessage};
use factory::worker::{route_widgets, WorkerFun, WorkerState, WorkerUnit};

/// improve(n) = [n+1, n+2]; inspect(n) = n is even.
struct EvenKeeper;

impl WorkerFun<u64> for EvenKeeper {
    fn improve(&self, n: u64) -> Vec<u64> {
        vec![n + 1, n + 2]
    }

    fn inspect(&self, n: &u64) -> bool {
        *n % 2 == 0
    }
}

/// improve(n) = []: items vanish without successors.
struct Sink;

impl WorkerFun<u64> for Sink {
    fn improve(&self, _n: u64) -> Vec<u64> {
        vec![]
    }

    fn inspect(&self, _n: &u64) -> bool {
        true
    }
}

#[test]
fn stop_command_exits_silently() {
    let mut unit = WorkerUnit::new(3);
    let report = unit.handle_command(Some(BossMessage::Stop), false);
    assert_eq!(report, None);
    assert_eq!(unit.state, WorkerState::Exited);
    assert_eq!(unit.index, 3);
}

#[test]
fn closed_channel_is_an_implicit_stop() {
    let mut unit = WorkerUnit::new(0);
    let report = unit.handle_command(None, false);
    assert_eq!(report, None);
    assert_eq!(unit.state, WorkerState::Exited);
}

#[test]
fn go_under_cancellation_reports_slain() {
    let mut unit = WorkerUnit::new(1);
    let report = unit.handle_command(Some(BossMessage::Go), true);
    assert_eq!(report, Some(WorkerMessage::Slain));
    assert_eq!(unit.state, WorkerState::Exited);
}

#[test]
fn go_starts_draining() {
    let mut unit = WorkerUnit::new(1);
    let report = unit.handle_command(Some(BossMessage::Go), false);
    assert_eq!(report, None);
    assert_eq!(unit.state, WorkerState::Draining);
}

#[test]
fn empty_pool_sends_the_unit_back_to_sleep() {
    let mut unit = WorkerUnit::new(5);
    unit.handle_command(Some(BossMessage::Go), false);
    let out = unit.drain_step(&EvenKeeper, None, false);
    assert_eq!(out.report, Some(WorkerMessage::Sleeping(5)));
    assert!(out.finished.is_empty());
    assert!(out.requeue.is_empty());
    assert_eq!(unit.state, WorkerState::AwaitingCommand);
}

#[test]
fn cancellation_mid_drain_abandons_the_item() {
    let mut unit = WorkerUnit::new(0);
    unit.handle_command(Some(BossMessage::Go), false);
    let out = unit.drain_step(&EvenKeeper, Some(7), true);
    assert_eq!(out.report, Some(WorkerMessage::Slain));
    assert!(out.finished.is_empty());
    assert!(out.requeue.is_empty());
    assert_eq!(unit.state, WorkerState::Exited);
}

#[test]
fn productive_item_is_routed_and_wakes_peers() {
    let mut unit = WorkerUnit::new(0);
    unit.handle_command(Some(BossMessage::Go), false);
    let out = unit.drain_step(&EvenKeeper, Some(3), false);
    assert_eq!(out.finished, vec![4]);
    assert_eq!(out.requeue, vec![5]);
    assert_eq!(out.report, Some(WorkerMessage::WakeUp));
    assert_eq!(unit.state, WorkerState::Draining);
}

#[test]
fn unproductive_item_reports_nothing() {
    let mut unit = WorkerUnit::new(0);
    unit.handle_command(Some(BossMessage::Go), false);
    let out = unit.drain_step(&Sink, Some(9), false);
    assert!(out.finished.is_empty());
    assert!(out.requeue.is_empty());
    assert_eq!(out.report, None);
    assert_eq!(unit.state, WorkerState::Draining);
}

#[test]
fn routing_partitions_and_keeps_production_order() {
    let (finished, requeue) = route_widgets(&EvenKeeper, vec![1, 2, 3, 4, 6, 7]);
    assert_eq!(finished, vec![2, 4, 6]);
    assert_eq!(requeue, vec![1, 3, 7]);
}
