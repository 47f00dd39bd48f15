use rusty_server::queue::JobQueue;
use rusty_server::worker::{Step, Worker, WorkerState};

#[test]
fn new_worker_is_running() {
    let w = Worker::new(6);
    assert_eq!(w.id(), 6);
    assert_eq!(w.state(), WorkerState::Running);
    assert!(w.is_joinable());
}

#[test]
fn worker_follows_the_queue() {
    let mut q = JobQueue::new();
    let mut w = Worker::new(0);
    assert_eq!(w.step(&mut q), Step::Wait);
    assert_eq!(w.state(), WorkerState::Running);
    assert_eq!(q.push("job"), Ok(()));
    assert_eq!(w.step(&mut q), Step::Run("job"));
    assert_eq!(w.state(), WorkerState::Running);
    q.close();
    assert_eq!(w.step(&mut q), Step::Exit);
    assert_eq!(w.state(), WorkerState::Stopped);
}

#[test]
fn stopped_worker_leaves_the_queue_alone() {
    let mut closed = JobQueue::<u8>::new();
    closed.close();
    let mut w = Worker::new(3);
    assert_eq!(w.step(&mut closed), Step::Exit);
    let mut other = JobQueue::new();
    assert_eq!(other.push(4), Ok(()));
    assert_eq!(w.step(&mut other), Step::Exit);
    assert_eq!(other.len(), 1);
    assert_eq!(w.state(), WorkerState::Stopped);
}

#[test]
fn thread_is_claimed_once() {
    let mut w = Worker::new(1);
    assert!(w.take_thread());
    assert!(!w.is_joinable());
    assert!(!w.take_thread());
    assert_eq!(w.id(), 1);
    assert_eq!(w.state(), WorkerState::Running);
}
