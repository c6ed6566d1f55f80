//! End-to-end scenarios: the sequential executor and a deterministic
//! round-robin host driving several worker units against one coordinator.

use factory::coordinator::Coordinator;
use factory::engine::run_to_quiescence;
use factory::messages::{BossMessage, WorkerMessage};
use factory::pool::WorkPool;
use factory::worker::{WorkerFun, WorkerState, WorkerUnit};

/// improve(n) = [n-1, n-1] for n > 0, else []; inspect(n) = n == 0.
struct Splitter;

impl WorkerFun<u64> for Splitter {
    fn improve(&self, n: u64) -> Vec<u64> {
        if n > 0 {
            vec![n - 1, n - 1]
        } else {
            vec![]
        }
    }

    fn inspect(&self, n: &u64) -> bool {
        *n == 0
    }
}

/// improve(n) = [] always: every item is consumed without successors.
struct Consumer;

impl WorkerFun<u64> for Consumer {
    fn improve(&self, _n: u64) -> Vec<u64> {
        vec![]
    }

    fn inspect(&self, _n: &u64) -> bool {
        true
    }
}

/// Drives `roster` worker units and one coordinator round-robin until no
/// component can move, and returns the result stream: `Some(item)` per
/// finished item, `None` per completion marker, in delivery order.
fn simulate<W: WorkerFun<u64>>(
    roster: usize,
    initial: Vec<u64>,
    fun: &W,
    cancelled: bool,
) -> Vec<Option<u64>> {
    let mut pool = WorkPool::new(initial);
    let mut units: Vec<WorkerUnit> = Vec::new();
    let mut commands: Vec<Vec<BossMessage>> = Vec::new();
    for i in 0..roster {
        units.push(WorkerUnit::new(i));
        commands.push(vec![BossMessage::Go]);
    }
    let mut coord = Coordinator::new(roster);
    let mut coord_listening = true;
    let mut status: Vec<WorkerMessage> = Vec::new();
    let mut stream: Vec<Option<u64>> = Vec::new();
    loop {
        let mut progress = false;
        for i in 0..roster {
            match units[i].state {
                WorkerState::AwaitingCommand => {
                    if !commands[i].is_empty() {
                        let cmd = commands[i].remove(0);
                        if let Some(report) = units[i].handle_command(Some(cmd), cancelled) {
                            status.push(report);
                        }
                        progress = true;
                    }
                }
                WorkerState::Draining => {
                    let popped = pool.pop();
                    let out = units[i].drain_step(fun, popped, cancelled);
                    for item in out.finished {
                        stream.push(Some(item));
                    }
                    pool.push_all(out.requeue);
                    if let Some(report) = out.report {
                        status.push(report);
                    }
                    progress = true;
                }
                WorkerState::Exited => {}
            }
        }
        while coord_listening && !status.is_empty() {
            let msg = status.remove(0);
            let step = coord.on_message(msg);
            if step.emit_marker {
                stream.push(None);
            }
            for &idx in step.wake.iter() {
                if idx < roster {
                    commands[idx].push(BossMessage::Go);
                }
            }
            if step.stop_all {
                for inbox in commands.iter_mut() {
                    inbox.push(BossMessage::Stop);
                }
            }
            if step.exit {
                coord_listening = false;
            }
            progress = true;
        }
        if !progress {
            break;
        }
    }
    stream
}

fn finished_of_stream(stream: &[Option<u64>]) -> Vec<u64> {
    stream.iter().filter_map(|entry| *entry).collect()
}

fn markers_of_stream(stream: &[Option<u64>]) -> usize {
    stream.iter().filter(|entry| entry.is_none()).count()
}

#[test]
fn splitter_from_four_yields_sixteen_zeros() {
    let outcome = run_to_quiescence(&Splitter, vec![4], 1000);
    let delivered = outcome.expect("the splitter tree is finite");
    assert_eq!(delivered.len(), 16);
    assert!(delivered.iter().all(|n| *n == 0));
}

#[test]
fn splitter_from_two_yields_four_zeros() {
    let outcome = run_to_quiescence(&Splitter, vec![2], 1000);
    let delivered = outcome.expect("the splitter tree is finite");
    assert_eq!(delivered, vec![0, 0, 0, 0]);
}

#[test]
fn insufficient_fuel_reports_no_quiescence() {
    assert_eq!(run_to_quiescence(&Splitter, vec![4], 2), None);
}

#[test]
fn empty_input_completes_immediately() {
    let outcome = run_to_quiescence(&Splitter, vec![], 0);
    assert_eq!(outcome, Some(vec![]));
    let stream = simulate(1, vec![], &Splitter, false);
    assert_eq!(stream, vec![None]);
}

#[test]
fn consumer_never_emits_and_completes() {
    let stream = simulate(3, vec![1, 1, 1], &Consumer, false);
    assert_eq!(finished_of_stream(&stream).len(), 0);
    assert_eq!(markers_of_stream(&stream), 1);
}

#[test]
fn one_and_many_workers_agree_on_the_multiset() {
    let single = run_to_quiescence(&Splitter, vec![3], 1000).expect("finite");
    let mut single_sorted = single.clone();
    single_sorted.sort();
    for roster in [1usize, 2, 3, 8] {
        let stream = simulate(roster, vec![3], &Splitter, false);
        let mut finished = finished_of_stream(&stream);
        finished.sort();
        assert_eq!(finished, single_sorted);
    }
}

#[test]
fn pool_order_changes_delivery_order_but_not_the_multiset() {
    let forward = run_to_quiescence(&Splitter, vec![2, 3], 1000).expect("finite");
    let backward = run_to_quiescence(&Splitter, vec![3, 2], 1000).expect("finite");
    let mut forward_sorted = forward.clone();
    let mut backward_sorted = backward.clone();
    forward_sorted.sort();
    backward_sorted.sort();
    assert_eq!(forward_sorted, backward_sorted);
    assert_eq!(forward_sorted.len(), 4 + 8);
}

#[test]
fn completion_marker_exactly_once_and_last() {
    let stream = simulate(2, vec![4], &Splitter, false);
    assert_eq!(markers_of_stream(&stream), 1);
    assert_eq!(stream.last(), Some(&None));
    assert_eq!(finished_of_stream(&stream).len(), 16);
}

#[test]
fn cancellation_yields_single_marker_and_halts() {
    let stream = simulate(2, vec![4], &Splitter, true);
    assert_eq!(markers_of_stream(&stream), 1);
    assert_eq!(finished_of_stream(&stream).len(), 0);
}
