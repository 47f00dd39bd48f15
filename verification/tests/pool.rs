use rusty_server::error::PoolCreationError;
use rusty_server::pool::ThreadPool;
use rusty_server::worker::{Step, WorkerState};
use std::cell::{Cell, RefCell};
use std::rc::Rc;

type Job = Box<dyn FnOnce()>;

/// Lets worker `id` take turns, running what it is handed, until it is told
/// to wait or to exit. Says whether it exited.
fn run_worker(pool: &mut ThreadPool<Job>, id: u32) -> bool {
    loop {
        match pool.next_job(id) {
            Step::Run(job) => job(),
            Step::Wait => return false,
            Step::Exit => return true,
        }
    }
}

fn counting_jobs(pool: &mut ThreadPool<Job>, m: usize) -> Vec<Rc<Cell<u32>>> {
    let counters: Vec<Rc<Cell<u32>>> = (0..m).map(|_| Rc::new(Cell::new(0))).collect();
    for counter in &counters {
        let counter = Rc::clone(counter);
        pool.execute(Box::new(move || counter.set(counter.get() + 1)));
    }
    counters
}

#[test]
fn build_with_no_workers_fails() {
    let r = ThreadPool::<u32>::build(0);
    assert!(matches!(r, Err(PoolCreationError)));
}

#[test]
fn creation_error_names_the_cause() {
    assert_eq!(PoolCreationError.message(), "Pool Creation Error: Size cannot be 0.");
}

#[test]
fn build_starts_every_worker() {
    for n in 1..=9u32 {
        let mut pool = ThreadPool::<u32>::build(n).unwrap();
        assert_eq!(pool.size(), n as usize);
        assert!(pool.is_open());
        assert_eq!(pool.pending(), 0);
        for id in 0..n {
            assert_eq!(pool.worker_state(id), WorkerState::Running);
        }
        assert_eq!(pool.shutdown(), (0..n).collect::<Vec<u32>>());
    }
}

#[test]
fn new_starts_every_worker() {
    let mut pool = ThreadPool::<u32>::new(4);
    assert_eq!(pool.size(), 4);
    assert!(pool.is_open());
    for id in 0..4 {
        assert_eq!(pool.worker_state(id), WorkerState::Running);
        assert_eq!(pool.next_job(id), Step::Wait);
    }
    assert_eq!(pool.shutdown(), vec![0, 1, 2, 3]);
}

#[test]
fn a_pool_of_one_is_accepted() {
    let mut pool = ThreadPool::<u32>::build(1).unwrap();
    pool.execute(5);
    assert_eq!(pool.next_job(0), Step::Run(5));
    assert_eq!(pool.shutdown(), vec![0]);
    assert_eq!(pool.next_job(0), Step::Exit);
}

#[test]
fn jobs_go_out_in_submission_order() {
    let mut pool = ThreadPool::<u32>::new(3);
    for job in [10, 20, 30, 40, 50] {
        pool.execute(job);
    }
    assert_eq!(pool.pending(), 5);
    assert_eq!(pool.next_job(2), Step::Run(10));
    assert_eq!(pool.next_job(0), Step::Run(20));
    assert_eq!(pool.next_job(2), Step::Run(30));
    assert_eq!(pool.next_job(1), Step::Run(40));
    assert_eq!(pool.next_job(1), Step::Run(50));
    assert_eq!(pool.pending(), 0);
    assert_eq!(pool.next_job(0), Step::Wait);
}

#[test]
fn every_job_runs_exactly_once() {
    let mut pool: ThreadPool<Job> = ThreadPool::new(3);
    let counters = counting_jobs(&mut pool, 10);
    for id in [1, 0, 2, 2, 1] {
        if let Step::Run(job) = pool.next_job(id) {
            job();
        }
    }
    let threads = pool.shutdown();
    for id in threads {
        assert!(run_worker(&mut pool, id));
    }
    for counter in &counters {
        assert_eq!(counter.get(), 1);
    }
}

#[test]
fn more_jobs_than_workers_all_run() {
    let mut pool: ThreadPool<Job> = ThreadPool::new(2);
    let counters = counting_jobs(&mut pool, 50);
    let mut turn = 0;
    while pool.pending() > 0 {
        if let Step::Run(job) = pool.next_job(turn % 2) {
            job();
        }
        turn += 1;
    }
    assert_eq!(turn, 50);
    for id in pool.shutdown() {
        assert!(run_worker(&mut pool, id));
    }
    assert!(counters.iter().all(|c| c.get() == 1));
}

#[test]
fn log_holds_every_index_once() {
    let mut pool: ThreadPool<Job> = ThreadPool::new(4);
    let log: Rc<RefCell<Vec<usize>>> = Rc::new(RefCell::new(Vec::new()));
    for index in 0..12usize {
        let log = Rc::clone(&log);
        pool.execute(Box::new(move || log.borrow_mut().push(index)));
    }
    // Workers take their jobs in one order and finish them in another.
    let mut held: Vec<Job> = Vec::new();
    for id in [3, 1, 0, 2] {
        match pool.next_job(id) {
            Step::Run(job) => held.push(job),
            _ => panic!("a job was waiting"),
        }
    }
    while let Some(job) = held.pop() {
        job();
    }
    assert_eq!(*log.borrow(), vec![3, 2, 1, 0]);
    for id in pool.shutdown() {
        assert!(run_worker(&mut pool, id));
    }
    let mut seen = log.borrow().clone();
    seen.sort();
    assert_eq!(seen, (0..12).collect::<Vec<usize>>());
}

#[test]
fn one_worker_runs_jobs_in_submission_order() {
    let mut pool: ThreadPool<Job> = ThreadPool::new(1);
    let log: Rc<RefCell<Vec<usize>>> = Rc::new(RefCell::new(Vec::new()));
    for index in 0..6usize {
        let log = Rc::clone(&log);
        pool.execute(Box::new(move || log.borrow_mut().push(index)));
    }
    assert!(!run_worker(&mut pool, 0));
    assert_eq!(*log.borrow(), vec![0, 1, 2, 3, 4, 5]);
}

#[test]
fn shutdown_drains_the_queue_before_workers_exit() {
    let mut pool: ThreadPool<Job> = ThreadPool::new(3);
    let counters = counting_jobs(&mut pool, 7);
    let threads = pool.shutdown();
    assert_eq!(threads, vec![0, 1, 2]);
    assert!(!pool.is_open());
    assert_eq!(pool.pending(), 7);
    // Waiting for a thread means letting its worker run until it exits.
    for id in threads {
        assert!(run_worker(&mut pool, id));
        assert_eq!(pool.worker_state(id), WorkerState::Stopped);
    }
    assert_eq!(pool.pending(), 0);
    for counter in &counters {
        assert_eq!(counter.get(), 1);
    }
}

#[test]
fn idle_workers_exit_after_shutdown() {
    let mut pool = ThreadPool::<u32>::new(3);
    for id in 0..3 {
        assert_eq!(pool.next_job(id), Step::Wait);
    }
    pool.shutdown();
    for id in 0..3 {
        assert_eq!(pool.next_job(id), Step::Exit);
        assert_eq!(pool.worker_state(id), WorkerState::Stopped);
    }
}

#[test]
fn a_worker_takes_a_waiting_job_before_it_exits() {
    let mut pool = ThreadPool::<u32>::new(2);
    pool.execute(1);
    pool.execute(2);
    pool.shutdown();
    assert_eq!(pool.next_job(1), Step::Run(1));
    assert_eq!(pool.worker_state(1), WorkerState::Running);
    assert_eq!(pool.next_job(1), Step::Run(2));
    assert_eq!(pool.next_job(1), Step::Exit);
    assert_eq!(pool.next_job(0), Step::Exit);
}

#[test]
fn busy_worker_does_not_hold_up_the_next_job() {
    let mut pool: ThreadPool<Job> = ThreadPool::new(2);
    let slow_done = Rc::new(Cell::new(false));
    let quick_done = Rc::new(Cell::new(false));
    let flag = Rc::clone(&slow_done);
    pool.execute(Box::new(move || flag.set(true)));
    let slow = match pool.next_job(0) {
        Step::Run(job) => job,
        _ => panic!("the slow job was waiting"),
    };
    // Worker 0 is now busy with the slow job.
    let flag = Rc::clone(&quick_done);
    pool.execute(Box::new(move || flag.set(true)));
    match pool.next_job(1) {
        Step::Run(job) => job(),
        _ => panic!("the quick job was waiting"),
    }
    assert!(matches!(pool.next_job(1), Step::Wait));
    assert!(quick_done.get());
    assert!(!slow_done.get());
    slow();
    assert!(slow_done.get());
    assert!(matches!(pool.next_job(0), Step::Wait));
}

#[test]
fn second_shutdown_changes_nothing() {
    let mut pool = ThreadPool::<u32>::new(3);
    pool.execute(8);
    assert_eq!(pool.shutdown(), vec![0, 1, 2]);
    assert_eq!(pool.shutdown(), Vec::<u32>::new());
    assert!(!pool.is_open());
    assert_eq!(pool.pending(), 1);
    assert_eq!(pool.size(), 3);
    assert_eq!(pool.next_job(0), Step::Run(8));
    assert_eq!(pool.shutdown(), Vec::<u32>::new());
    for id in 0..3 {
        assert_eq!(pool.next_job(id), Step::Exit);
    }
    assert_eq!(pool.shutdown(), Vec::<u32>::new());
}

#[test]
fn a_stopped_worker_stays_stopped() {
    let mut pool = ThreadPool::<u32>::new(2);
    pool.shutdown();
    assert_eq!(pool.next_job(0), Step::Exit);
    assert_eq!(pool.next_job(0), Step::Exit);
    assert_eq!(pool.worker_state(0), WorkerState::Stopped);
    assert_eq!(pool.worker_state(1), WorkerState::Running);
}

#[test]
fn a_waiting_worker_gets_the_next_submission() {
    let mut pool = ThreadPool::<u32>::new(2);
    assert_eq!(pool.next_job(1), Step::Wait);
    pool.execute(77);
    assert_eq!(pool.next_job(1), Step::Run(77));
    assert_eq!(pool.next_job(0), Step::Wait);
}

#[test]
fn pools_are_independent() {
    let mut a = ThreadPool::<u32>::new(1);
    let mut b = ThreadPool::<u32>::new(2);
    a.execute(1);
    a.shutdown();
    assert!(b.is_open());
    assert_eq!(b.pending(), 0);
    b.execute(2);
    assert_eq!(a.next_job(0), Step::Run(1));
    assert_eq!(b.next_job(0), Step::Run(2));
}
