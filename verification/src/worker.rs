//! One worker of the pool: its identifier, its two-state life cycle, and the
//! decision it takes each time it comes back for work.

use crate::queue::{Dequeue, JobQueue, QueueView};
use vstd::prelude::*;

verus! {

/// The life cycle of a worker. `Stopped` is final.
#[derive(Clone, Copy, Debug, PartialEq, Eq, Structural)]
pub enum WorkerState {
    /// The worker takes jobs as they come.
    Running,
    /// The worker has seen the end of the queue and will take nothing more.
    Stopped,
}

/// What a worker has to do next.
#[derive(Debug, PartialEq, Eq)]
pub enum Step<J> {
    /// Run this job, outside any lock, then come back.
    Run(J),
    /// Nothing to do yet: block until the queue changes, then come back.
    Wait,
    /// Leave the loop: the thread ends.
    Exit,
}

/// A worker as contracts see it.
pub struct WorkerView {
    /// The worker's identifier.
    pub id: u32,
    /// Where the worker is in its life cycle.
    pub state: WorkerState,
    /// Whether the worker's thread has not been claimed for joining yet.
    pub joinable: bool,
}

impl WorkerView {
    /// A worker as it is created: running, its thread not yet claimed.
    pub open spec fn fresh(id: u32) -> Self {
        WorkerView { id, state: WorkerState::Running, joinable: true }
    }

    /// Whether this worker, coming back for work, looks into the queue at
    /// all. A stopped worker does not.
    pub open spec fn polls(self) -> bool {
        self.state == WorkerState::Running
    }

    /// What the worker does next, given the queue it finds.
    pub open spec fn decide<J>(self, queue: QueueView<J>) -> Step<J> {
        if !self.polls() {
            Step::Exit
        } else {
            match queue.front() {
                Dequeue::Job(job) => Step::Run(job),
                Dequeue::Empty => Step::Wait,
                Dequeue::Closed => Step::Exit,
            }
        }
    }

    /// The worker after it came back for work and found `queue`: it stops
    /// exactly when it is told to exit.
    pub open spec fn advance<J>(self, queue: QueueView<J>) -> Self {
        if self.decide(queue) is Exit {
            WorkerView { state: WorkerState::Stopped, ..self }
        } else {
            self
        }
    }

    /// The queue after this worker came back for work: a running worker has
    /// taken the oldest job, a stopped one has touched nothing.
    pub open spec fn leaves<J>(self, queue: QueueView<J>) -> QueueView<J> {
        if self.polls() {
            queue.pop()
        } else {
            queue
        }
    }

    /// The identifier to wait for when this worker's thread is claimed, if
    /// the thread is still there to claim.
    pub open spec fn claim(self) -> Option<u32> {
        if self.joinable {
            Some(self.id)
        } else {
            None
        }
    }

    /// The worker after its thread was claimed for joining.
    pub open spec fn claimed(self) -> Self {
        WorkerView { joinable: false, ..self }
    }
}

/// The pool's record of one worker.
pub struct Worker {
    id: u32,
    state: WorkerState,
    thread: bool,
}

impl View for Worker {
    type V = WorkerView;

    closed spec fn view(&self) -> WorkerView {
        WorkerView { id: self.id, state: self.state, joinable: self.thread }
    }
}

impl Worker {
    /// Creates the record of a worker that has just been started.
    pub fn new(id: u32) -> (w: Worker)
        ensures
            w@ == WorkerView::fresh(id),
    {
        Worker { id, state: WorkerState::Running, thread: true }
    }

    /// The worker's identifier.
    pub fn id(&self) -> (id: u32)
        ensures
            id == self@.id,
    {
        self.id
    }

    /// Where the worker is in its life cycle.
    pub fn state(&self) -> (s: WorkerState)
        ensures
            s == self@.state,
    {
        self.state
    }

    /// Whether the worker's thread has not been claimed for joining yet.
    pub fn is_joinable(&self) -> (b: bool)
        ensures
            b == self@.joinable,
    {
        self.thread
    }

    /// One turn of the worker's loop: look into the queue and decide. A
    /// running worker takes the oldest job if there is one, waits if the
    /// queue is empty but open, and stops for good once it is closed and
    /// empty. A stopped worker leaves the queue alone.
    pub fn step<J>(&mut self, queue: &mut JobQueue<J>) -> (step: Step<J>)
        requires
            old(queue).wf(),
        ensures
            final(queue).wf(),
            step == old(self)@.decide(old(queue)@),
            final(self)@ == old(self)@.advance(old(queue)@),
            final(queue)@ == old(self)@.leaves(old(queue)@),
    {
        match self.state {
            WorkerState::Stopped => Step::Exit,
            WorkerState::Running => match queue.pop() {
                Dequeue::Job(job) => Step::Run(job),
                Dequeue::Empty => Step::Wait,
                Dequeue::Closed => {
                    self.state = WorkerState::Stopped;
                    Step::Exit
                },
            },
        }
    }

    /// Claims the worker's thread for joining. Says whether it was still
    /// there to claim; afterwards it is not.
    pub fn take_thread(&mut self) -> (present: bool)
        ensures
            present == old(self)@.joinable,
            final(self)@ == old(self)@.claimed(),
    {
        let present = self.thread;
        self.thread = false;
        present
    }
}

} // verus!
