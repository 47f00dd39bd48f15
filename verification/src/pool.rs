//! The pool: a fixed set of workers around one shared queue.

use crate::error::PoolCreationError;
use crate::queue::{lemma_concat_push, lemma_concat_shift, JobQueue, QueueView};
use crate::worker::{Step, Worker, WorkerState, WorkerView};
use vstd::prelude::*;

verus! {

/// The pool as contracts see it.
///
/// Jobs are told apart by their ticket: the job submitted as the `k`-th has
/// ticket `k`, counting from zero, and is `queue.sent[k]`.
pub struct PoolView<J> {
    /// The workers, by identifier.
    pub workers: Seq<WorkerView>,
    /// The shared queue.
    pub queue: QueueView<J>,
    /// For each worker, the ticket of the job it is executing, if any.
    pub running: Seq<Option<nat>>,
    /// The tickets of the jobs that have run to completion, in the order in
    /// which their workers reported back.
    pub log: Seq<nat>,
}

impl<J> PoolView<J> {
    /// The number of workers.
    pub open spec fn size(self) -> nat {
        self.workers.len()
    }

    /// The number of jobs handed to workers so far, which is also the ticket
    /// of the next job to go out.
    pub open spec fn dispatched(self) -> nat {
        self.queue.delivered.len()
    }

    /// Whether every worker has stopped.
    pub open spec fn all_stopped(self) -> bool {
        forall|i: int|
            0 <= i < self.workers.len() ==> (#[trigger] self.workers[i]).state
                == WorkerState::Stopped
    }

    /// Ticket `t` is either in the log or in some worker's hands.
    pub open spec fn accounted(self, t: nat) -> bool {
        self.log.contains(t) || self.running.contains(Some(t))
    }

    /// There is at least one worker, worker `i` has identifier `i`, and the
    /// threads are unclaimed exactly as long as the queue is open.
    pub open spec fn shape(self) -> bool {
        &&& 1 <= self.workers.len() <= u32::MAX
        &&& self.running.len() == self.workers.len()
        &&& forall|i: int|
            0 <= i < self.workers.len() ==> {
                &&& (#[trigger] self.workers[i]).id == i
                &&& self.workers[i].joinable == self.queue.open
            }
    }

    /// A worker stops only at the end of the queue, and with empty hands.
    pub open spec fn stops_at_end(self) -> bool {
        forall|i: int|
            0 <= i < self.workers.len() && (#[trigger] self.workers[i]).state
                == WorkerState::Stopped ==> self.queue.drained() && self.running[i] is None
    }

    /// Every ticket handed out is in exactly one place: once in the log, or
    /// with one worker.
    pub open spec fn tickets(self) -> bool {
        &&& self.log.no_duplicates()
        &&& forall|k: int| 0 <= k < self.log.len() ==> #[trigger] self.log[k] < self.dispatched()
        &&& forall|i: int|
            0 <= i < self.running.len() ==> match #[trigger] self.running[i] {
                Some(t) => t < self.dispatched() && !self.log.contains(t),
                None => true,
            }
        &&& forall|i: int, j: int|
            0 <= i < j < self.running.len() && (#[trigger] self.running[i]) is Some
                ==> self.running[i] != #[trigger] self.running[j]
        &&& forall|t: nat| t < self.dispatched() ==> #[trigger] self.accounted(t)
    }

    /// The pool's invariant.
    pub open spec fn wf(self) -> bool {
        &&& self.shape()
        &&& self.queue.wf()
        &&& self.stops_at_end()
        &&& self.tickets()
    }

    /// A pool of `size` workers as it is created: all running, nothing
    /// submitted.
    pub open spec fn fresh(size: nat) -> Self {
        PoolView {
            workers: Seq::new(size, |i: int| WorkerView::fresh(i as u32)),
            queue: QueueView::fresh(),
            running: Seq::new(size, |i: int| None),
            log: Seq::empty(),
        }
    }

    /// The pool after `job` was submitted.
    pub open spec fn submit(self, job: J) -> Self {
        PoolView { queue: self.queue.push(job), ..self }
    }

    /// The pool after worker `id` reported back: the job it was executing,
    /// if any, is complete and enters the log.
    pub open spec fn report(self, id: int) -> Self {
        match self.running[id] {
            Some(t) => PoolView {
                running: self.running.update(id, None),
                log: self.log.push(t),
                ..self
            },
            None => self,
        }
    }

    /// What worker `id` is told when it comes back for work.
    pub open spec fn step(self, id: int) -> Step<J> {
        self.workers[id].decide(self.queue)
    }

    /// The pool after worker `id` came back for work: its previous job is
    /// logged, and what it was told has taken effect.
    pub open spec fn next(self, id: int) -> Self {
        let s = self.report(id);
        let w = s.workers[id];
        PoolView {
            workers: s.workers.update(id, w.advance(s.queue)),
            queue: w.leaves(s.queue),
            running: if s.step(id) is Run {
                s.running.update(id, Some(s.dispatched()))
            } else {
                s.running
            },
            log: s.log,
        }
    }

    /// The pool after a shutdown was started: the queue is closed and every
    /// thread is claimed.
    pub open spec fn shut(self) -> Self {
        PoolView {
            workers: self.workers.map_values(|w: WorkerView| w.claimed()),
            queue: self.queue.close(),
            ..self
        }
    }

    /// The identifiers of the workers whose threads are still unclaimed, in
    /// ascending order.
    pub open spec fn claims(self) -> Seq<u32> {
        self.workers.filter_map(|w: WorkerView| w.claim())
    }
}

/// Something that happens to a pool.
pub enum Event<J> {
    /// A job is submitted.
    Submit(J),
    /// The worker with this identifier comes back for work.
    Next(nat),
    /// A shutdown is started.
    Shutdown,
}

impl<J> PoolView<J> {
    /// The pool after one event. A worker that does not exist changes
    /// nothing, and neither does a job submitted to a closed pool.
    pub open spec fn apply(self, event: Event<J>) -> Self {
        match event {
            Event::Submit(job) => self.submit(job),
            Event::Next(id) => if id < self.size() {
                self.next(id as int)
            } else {
                self
            },
            Event::Shutdown => self.shut(),
        }
    }

    /// The pool after a sequence of events, oldest first.
    pub open spec fn run(self, events: Seq<Event<J>>) -> Self
        decreases events.len(),
    {
        if events.len() == 0 {
            self
        } else {
            self.run(events.drop_last()).apply(events.last())
        }
    }
}

/// A fixed-size pool of workers fed from one queue of jobs of type `J`.
///
/// The pool never runs a job itself and never blocks. A job is an opaque
/// value that is moved in by `execute` and moved out, to exactly one worker,
/// by `next_job`; running it is up to whoever drives that worker. Every
/// method that changes the pool takes it by `&mut`, so only one worker at a
/// time can be at the queue, while jobs that were handed out run outside of
/// any borrow of the pool.
pub struct ThreadPool<J> {
    workers: Vec<Worker>,
    queue: JobQueue<J>,
    running: Ghost<Seq<Option<nat>>>,
    log: Ghost<Seq<nat>>,
}

impl<J> View for ThreadPool<J> {
    type V = PoolView<J>;

    closed spec fn view(&self) -> PoolView<J> {
        PoolView {
            workers: self.workers@.map_values(|w: Worker| w@),
            queue: self.queue@,
            running: self.running@,
            log: self.log@,
        }
    }
}

impl<J> ThreadPool<J> {
    /// The pool's invariant, stated on its view.
    pub open spec fn wf(&self) -> bool {
        self@.wf()
    }

    /// Creates a pool of `size` workers, or fails if `size` is zero.
    pub fn build(size: u32) -> (r: Result<ThreadPool<J>, PoolCreationError>)
        ensures
            size == 0 <==> r is Err,
            r matches Ok(pool) ==> pool.wf() && pool@ == PoolView::<J>::fresh(size as nat),
    {
        if size > 0 {
            Ok(Self::new(size))
        } else {
            Err(PoolCreationError)
        }
    }

    /// Creates a pool of `size` workers, numbered from zero.
    pub fn new(size: u32) -> (pool: ThreadPool<J>)
        requires
            size > 0,
        ensures
            pool.wf(),
            pool@ == PoolView::<J>::fresh(size as nat),
    {
        let mut workers: Vec<Worker> = Vec::with_capacity(size as usize);
        let mut id: u32 = 0;
        while id < size
            invariant
                id <= size,
                workers@.len() == id,
                forall|i: int|
                    0 <= i < id ==> (#[trigger] workers@[i])@ == WorkerView::fresh(i as u32),
            decreases size - id,
        {
            workers.push(Worker::new(id));
            id += 1;
        }
        let pool = ThreadPool {
            workers,
            queue: JobQueue::new(),
            running: Ghost(Seq::new(size as nat, |i: int| None)),
            log: Ghost(Seq::empty()),
        };
        proof {
            assert(pool@.workers =~= PoolView::<J>::fresh(size as nat).workers);
            lemma_fresh_wf::<J>(size as nat);
        }
        pool
    }

    /// The number of workers.
    pub fn size(&self) -> (n: usize)
        ensures
            n == self@.size(),
    {
        self.workers.len()
    }

    /// Whether jobs can still be submitted.
    pub fn is_open(&self) -> (b: bool)
        ensures
            b == self@.queue.open,
    {
        self.queue.is_open()
    }

    /// The number of jobs waiting for a worker.
    pub fn pending(&self) -> (n: usize)
        ensures
            n == self@.queue.pending.len(),
    {
        self.queue.len()
    }

    /// Where worker `id` is in its life cycle.
    pub fn worker_state(&self, id: u32) -> (s: WorkerState)
        requires
            id < self@.size(),
        ensures
            s == self@.workers[id as int].state,
    {
        self.workers[id as usize].state()
    }

    /// Submits `job`: it goes behind every job already waiting. This never
    /// depends on what the workers are doing.
    pub fn execute(&mut self, job: J)
        requires
            old(self).wf(),
            old(self)@.queue.open,
        ensures
            final(self).wf(),
            final(self)@ == old(self)@.submit(job),
    {
        let _ = self.queue.push(job);
        proof {
            lemma_submit_wf(old(self)@, job);
        }
    }

    /// Worker `id` has finished whatever it was given last and comes back
    /// for work. It is handed the oldest waiting job, told to wait if the
    /// queue is empty but open, and told to exit, for good, once the queue is
    /// closed and empty.
    pub fn next_job(&mut self, id: u32) -> (step: Step<J>)
        requires
            old(self).wf(),
            id < old(self)@.size(),
        ensures
            final(self).wf(),
            step == old(self)@.step(id as int),
            final(self)@ == old(self)@.next(id as int),
    {
        let step = self.workers[id as usize].step(&mut self.queue);
        proof {
            let before = old(self)@.report(id as int);
            self.log@ = before.log;
            self.running@ = if step is Run {
                before.running.update(id as int, Some(before.dispatched()))
            } else {
                before.running
            };
            assert(self@.workers =~= old(self)@.next(id as int).workers);
            lemma_next_wf(old(self)@, id as int);
        }
        step
    }

    /// Starts the shutdown: closes the queue, so that no job can be
    /// submitted any more and idle workers are told to exit, and claims the
    /// thread of every worker. Returns the identifiers of the workers whose
    /// threads the caller now has to wait for, in ascending order. Jobs that
    /// wait in the queue stay there for the workers to take. A second
    /// shutdown changes nothing and returns nothing.
    pub fn shutdown(&mut self) -> (threads: Vec<u32>)
        requires
            old(self).wf(),
        ensures
            final(self).wf(),
            final(self)@ == old(self)@.shut(),
            threads@ == old(self)@.claims(),
            old(self)@.queue.open ==> threads@ == Seq::new(old(self)@.size(), |i: int| i as u32),
            !old(self)@.queue.open ==> threads@.len() == 0,
    {
        self.queue.close();
        let ghost claim = |w: WorkerView| w.claim();
        let mut threads: Vec<u32> = Vec::new();
        let mut i: usize = 0;
        while i < self.workers.len()
            invariant
                i <= self.workers@.len() == old(self).workers@.len(),
                self.queue@ == old(self)@.queue.close(),
                self.running@ == old(self).running@,
                self.log@ == old(self).log@,
                claim == |w: WorkerView| w.claim(),
                forall|j: int|
                    0 <= j < i ==> (#[trigger] self.workers@[j])@
                        == old(self).workers@[j]@.claimed(),
                forall|j: int|
                    i <= j < self.workers@.len() ==> (#[trigger] self.workers@[j])@
                        == old(self).workers@[j]@,
                threads@ == old(self)@.workers.take(i as int).filter_map(claim),
            decreases self.workers@.len() - i,
        {
            proof {
                old(self)@.workers.lemma_filter_map_take_succ(claim, i as int);
            }
            let id = self.workers[i].id();
            if self.workers[i].take_thread() {
                threads.push(id);
            }
            i += 1;
        }
        proof {
            assert(old(self)@.workers.take(i as int) =~= old(self)@.workers);
            assert(self@.workers =~= old(self)@.shut().workers);
            lemma_shut_wf(old(self)@);
            lemma_claims(old(self)@);
        }
        threads
    }
}

/// A new pool satisfies the invariant.
pub proof fn lemma_fresh_wf<J>(size: nat)
    requires
        1 <= size <= u32::MAX,
    ensures
        PoolView::<J>::fresh(size).wf(),
{
    let s = PoolView::<J>::fresh(size);
    assert(s.queue.sent =~= s.queue.delivered + s.queue.pending);
}

/// Submitting a job keeps the invariant.
pub proof fn lemma_submit_wf<J>(s: PoolView<J>, job: J)
    requires
        s.wf(),
        s.queue.open,
    ensures
        s.submit(job).wf(),
{
    let n = s.submit(job);
    lemma_concat_push(s.queue.delivered, s.queue.pending, job);
    assert forall|t: nat| t < n.dispatched() implies #[trigger] n.accounted(t) by {
        assert(s.accounted(t));
    }
}

/// A worker reporting back keeps the invariant.
pub proof fn lemma_report_wf<J>(s: PoolView<J>, id: int)
    requires
        s.wf(),
        0 <= id < s.size(),
    ensures
        s.report(id).wf(),
        s.report(id).running[id] is None,
{
    let n = s.report(id);
    if let Some(t) = s.running[id] {
        assert(n.log.drop_last() =~= s.log);
        assert forall|k: int, l: int|
            0 <= k < n.log.len() && 0 <= l < n.log.len() && k != l implies n.log[k]
            != n.log[l] by {
            if k == s.log.len() {
                assert(s.log.contains(s.log[l]));
            } else if l == s.log.len() {
                assert(s.log.contains(s.log[k]));
            }
        }
        assert forall|i: int| 0 <= i < n.running.len() implies match #[trigger] n.running[i] {
            Some(u) => u < n.dispatched() && !n.log.contains(u),
            None => true,
        } by {
            if let Some(u) = n.running[i] {
                assert(s.running[i] == Some(u));
                if n.log.contains(u) {
                    let k = choose|k: int| 0 <= k < n.log.len() && n.log[k] == u;
                    if k < s.log.len() {
                        assert(s.log.contains(u));
                    } else {
                        assert(s.running[id] == s.running[i]);
                    }
                }
            }
        }
        assert forall|u: nat| u < n.dispatched() implies #[trigger] n.accounted(u) by {
            assert(s.accounted(u));
            if s.log.contains(u) {
                let k = choose|k: int| 0 <= k < s.log.len() && s.log[k] == u;
                assert(n.log[k] == u);
            } else {
                let i = choose|i: int| 0 <= i < s.running.len() && s.running[i] == Some(u);
                if i == id {
                    assert(n.log[s.log.len() as int] == u);
                } else {
                    assert(n.running[i] == Some(u));
                }
            }
        }
    }
}

/// A worker coming back for work keeps the invariant.
pub proof fn lemma_next_wf<J>(s: PoolView<J>, id: int)
    requires
        s.wf(),
        0 <= id < s.size(),
    ensures
        s.next(id).wf(),
{
    lemma_report_wf(s, id);
    let r = s.report(id);
    let n = s.next(id);
    if r.step(id) is Run {
        lemma_concat_shift(r.queue.delivered, r.queue.pending);
        let d = r.dispatched();
        assert forall|i: int| 0 <= i < n.running.len() implies match #[trigger] n.running[i] {
            Some(u) => u < n.dispatched() && !n.log.contains(u),
            None => true,
        } by {
            if i == id {
                if n.log.contains(d) {
                    let k = choose|k: int| 0 <= k < r.log.len() && r.log[k] == d;
                    assert(r.log[k] < d);
                }
            } else {
                assert(n.running[i] == r.running[i]);
            }
        }
        assert forall|i: int, j: int|
            0 <= i < j < n.running.len() && (#[trigger] n.running[i]) is Some
            implies n.running[i] != #[trigger] n.running[j] by {
            if i != id && j != id {
                assert(n.running[i] == r.running[i]);
                assert(n.running[j] == r.running[j]);
            } else if i == id {
                assert(n.running[j] == r.running[j]);
            } else {
                assert(n.running[i] == r.running[i]);
            }
        }
        assert forall|u: nat| u < n.dispatched() implies #[trigger] n.accounted(u) by {
            if u == d {
                assert(n.running[id] == Some(u));
            } else {
                assert(r.accounted(u));
                if !r.log.contains(u) {
                    let i = choose|i: int| 0 <= i < r.running.len() && r.running[i] == Some(u);
                    assert(n.running[i] == Some(u));
                }
            }
        }
    } else {
        assert(n.queue == r.queue);
        assert forall|u: nat| u < n.dispatched() implies #[trigger] n.accounted(u) by {
            assert(r.accounted(u));
        }
    }
}

/// A shutdown waits for every worker if the pool is still open, and for none
/// if it was shut down before.
pub proof fn lemma_claims<J>(s: PoolView<J>)
    requires
        s.wf(),
    ensures
        s.queue.open ==> s.claims() == Seq::new(s.size(), |i: int| i as u32),
        !s.queue.open ==> s.claims() == Seq::<u32>::empty(),
{
    lemma_claims_prefix(s, s.size());
    assert(s.workers.take(s.size() as int) =~= s.workers);
}

/// The claims among the first `n` workers.
proof fn lemma_claims_prefix<J>(s: PoolView<J>, n: nat)
    requires
        s.wf(),
        n <= s.size(),
    ensures
        s.queue.open ==> s.workers.take(n as int).filter_map(|w: WorkerView| w.claim())
            == Seq::new(n, |i: int| i as u32),
        !s.queue.open ==> s.workers.take(n as int).filter_map(|w: WorkerView| w.claim())
            == Seq::<u32>::empty(),
    decreases n,
{
    let claim = |w: WorkerView| w.claim();
    if n == 0 {
        assert(s.workers.take(0).filter_map(claim) =~= Seq::empty());
        assert(Seq::new(0, |i: int| i as u32) =~= Seq::empty());
    } else {
        let m = (n - 1) as nat;
        lemma_claims_prefix(s, m);
        s.workers.lemma_filter_map_take_succ(claim, m as int);
        let w = s.workers[m as int];
        if s.queue.open {
            assert(Seq::new(n, |i: int| i as u32) =~= Seq::new(m, |i: int| i as u32) + seq![w.id]);
        } else {
            assert(Seq::<u32>::empty() + Seq::<u32>::empty() =~= Seq::<u32>::empty());
        }
    }
}

/// Starting a shutdown keeps the invariant.
pub proof fn lemma_shut_wf<J>(s: PoolView<J>)
    requires
        s.wf(),
    ensures
        s.shut().wf(),
{
    let n = s.shut();
    assert forall|t: nat| t < n.dispatched() implies #[trigger] n.accounted(t) by {
        assert(s.accounted(t));
    }
}

} // verus!
