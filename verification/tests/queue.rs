use rusty_server::queue::{Dequeue, JobQueue, SubmissionAfterClose};

#[test]
fn new_queue_is_open_and_empty() {
    let mut q = JobQueue::<u8>::new();
    assert!(q.is_open());
    assert_eq!(q.len(), 0);
    assert_eq!(q.pop(), Dequeue::Empty);
}

#[test]
fn queue_is_first_in_first_out() {
    let mut q = JobQueue::new();
    assert_eq!(q.push('a'), Ok(()));
    assert_eq!(q.push('b'), Ok(()));
    assert_eq!(q.pop(), Dequeue::Job('a'));
    assert_eq!(q.push('c'), Ok(()));
    assert_eq!(q.len(), 2);
    assert_eq!(q.pop(), Dequeue::Job('b'));
    assert_eq!(q.pop(), Dequeue::Job('c'));
    assert_eq!(q.pop(), Dequeue::Empty);
}

#[test]
fn closed_queue_hands_the_job_back() {
    let mut q = JobQueue::new();
    q.close();
    assert!(!q.is_open());
    assert_eq!(q.push(9), Err(SubmissionAfterClose(9)));
    assert_eq!(q.len(), 0);
}

#[test]
fn closed_queue_still_gives_out_what_waits() {
    let mut q = JobQueue::new();
    assert_eq!(q.push(1), Ok(()));
    assert_eq!(q.push(2), Ok(()));
    q.close();
    q.close();
    assert_eq!(q.pop(), Dequeue::Job(1));
    assert_eq!(q.pop(), Dequeue::Job(2));
    assert_eq!(q.pop(), Dequeue::Closed);
    assert_eq!(q.pop(), Dequeue::Closed);
}
