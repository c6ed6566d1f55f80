//! The coordinator state machine, message by message.

use factory::coordinator::Coordinator;
use factory::messages::WorkerMessage;

#[test]
fn quiescence_is_detected_on_the_last_sleeper() {
    let mut coord = Coordinator::new(3);
    let step = coord.on_message(WorkerMessage::Sleeping(0));
    assert!(!step.emit_marker && !step.stop_all && !step.exit);
    assert!(step.wake.is_empty());
    let step = coord.on_message(WorkerMessage::Sleeping(2));
    assert!(!step.emit_marker && !step.stop_all && !step.exit);
    let step = coord.on_message(WorkerMessage::Sleeping(1));
    assert!(step.emit_marker);
    assert!(step.stop_all);
    assert!(!step.exit);
    assert!(step.wake.is_empty());
}

#[test]
fn wake_up_rouses_exactly_the_idle_workers() {
    let mut coord = Coordinator::new(3);
    coord.on_message(WorkerMessage::Sleeping(2));
    coord.on_message(WorkerMessage::Sleeping(0));
    let step = coord.on_message(WorkerMessage::WakeUp);
    assert_eq!(step.wake, vec![2, 0]);
    assert!(!step.emit_marker && !step.stop_all && !step.exit);
    // the idle set was cleared: quiescence again needs all three sleepers
    let step = coord.on_message(WorkerMessage::Sleeping(1));
    assert!(!step.emit_marker);
    let step = coord.on_message(WorkerMessage::Sleeping(0));
    assert!(!step.emit_marker);
    let step = coord.on_message(WorkerMessage::Sleeping(2));
    assert!(step.emit_marker && step.stop_all);
}

#[test]
fn slain_emits_the_marker_wakes_sleepers_and_exits() {
    let mut coord = Coordinator::new(2);
    coord.on_message(WorkerMessage::Sleeping(1));
    let step = coord.on_message(WorkerMessage::Slain);
    assert!(step.emit_marker);
    assert_eq!(step.wake, vec![1]);
    assert!(!step.stop_all);
    assert!(step.exit);
}

#[test]
fn a_single_worker_quiesces_alone() {
    let mut coord = Coordinator::new(1);
    let step = coord.on_message(WorkerMessage::Sleeping(0));
    assert!(step.emit_marker && step.stop_all && !step.exit);
}
