use threads::worker::Worker;
use threads::worker::WorkerState;

#[test]
fn fresh_worker_runs_and_holds_its_thread() {
    let w = Worker::new(7);
    assert_eq!(w.id, 7);
    assert!(matches!(w.state, WorkerState::Running));
    assert!(w.thread.is_some());
}

#[test]
fn stopping_keeps_the_thread_handle() {
    let mut w = Worker::new(0);
    w.stop();
    assert!(matches!(w.state, WorkerState::Stopped));
    assert!(w.thread.is_some());
}

#[test]
fn thread_handle_can_be_taken_exactly_once() {
    let mut w = Worker::new(3);
    let first = w.take_thread();
    assert!(first.is_some());
    assert!(w.thread.is_none());
    let second = w.take_thread();
    assert!(second.is_none());
    assert_eq!(w.id, 3);
}
