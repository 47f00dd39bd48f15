//! The shared job queue: an unbounded first-in, first-out hand-off between
//! the submitter and the workers, which can be closed once.

use std::collections::VecDeque;
use vstd::prelude::*;

verus! {

/// What a consumer finds when it asks the queue for the next job.
#[derive(Debug, PartialEq, Eq)]
pub enum Dequeue<J> {
    /// The oldest waiting job, now owned by the consumer.
    Job(J),
    /// Nothing is waiting, but more may still be submitted.
    Empty,
    /// Nothing is waiting and nothing will ever be submitted again.
    Closed,
}

/// A job that was offered to a queue after it had been closed, handed back.
#[derive(Debug, PartialEq, Eq)]
pub struct SubmissionAfterClose<J>(pub J);

/// The queue as contracts see it: what is waiting, and the two histories of
/// what has gone in and what has come out.
pub struct QueueView<J> {
    /// Every job ever accepted, oldest first.
    pub sent: Seq<J>,
    /// Every job ever handed to a consumer, in the order handed out.
    pub delivered: Seq<J>,
    /// The jobs still waiting, oldest first.
    pub pending: Seq<J>,
    /// Whether the producer side is still open.
    pub open: bool,
}

impl<J> QueueView<J> {
    /// Nothing is lost, doubled or reordered: what went in is exactly what
    /// came out followed by what still waits.
    pub open spec fn wf(self) -> bool {
        self.sent == self.delivered + self.pending
    }

    /// A new queue: open, and nothing has happened yet.
    pub open spec fn fresh() -> Self {
        QueueView { sent: Seq::empty(), delivered: Seq::empty(), pending: Seq::empty(), open: true }
    }

    /// The queue after `job` was offered: appended if the queue is open,
    /// otherwise nothing changes.
    pub open spec fn push(self, job: J) -> Self {
        if self.open {
            QueueView { sent: self.sent.push(job), pending: self.pending.push(job), ..self }
        } else {
            self
        }
    }

    /// What a consumer is told when it asks for a job.
    pub open spec fn front(self) -> Dequeue<J> {
        if self.pending.len() > 0 {
            Dequeue::Job(self.pending[0])
        } else if self.open {
            Dequeue::Empty
        } else {
            Dequeue::Closed
        }
    }

    /// The queue after a consumer asked for a job: the oldest waiting job,
    /// if there is one, has moved to the delivered history.
    pub open spec fn pop(self) -> Self {
        if self.pending.len() > 0 {
            QueueView {
                delivered: self.delivered.push(self.pending[0]),
                pending: self.pending.skip(1),
                ..self
            }
        } else {
            self
        }
    }

    /// The queue after the producer side was closed. Waiting jobs stay.
    pub open spec fn close(self) -> Self {
        QueueView { open: false, ..self }
    }

    /// No job waits and none can arrive any more.
    pub open spec fn drained(self) -> bool {
        !self.open && self.pending.len() == 0
    }
}

/// The shared queue of jobs.
pub struct JobQueue<J> {
    items: VecDeque<J>,
    open: bool,
    sent: Ghost<Seq<J>>,
    delivered: Ghost<Seq<J>>,
}

impl<J> View for JobQueue<J> {
    type V = QueueView<J>;

    closed spec fn view(&self) -> QueueView<J> {
        QueueView {
            sent: self.sent@,
            delivered: self.delivered@,
            pending: self.items@,
            open: self.open,
        }
    }
}

impl<J> JobQueue<J> {
    /// The queue's invariant, stated on its view.
    pub open spec fn wf(&self) -> bool {
        self@.wf()
    }

    /// Creates an open, empty queue.
    pub fn new() -> (q: Self)
        ensures
            q.wf(),
            q@ == QueueView::<J>::fresh(),
    {
        JobQueue {
            items: VecDeque::new(),
            open: true,
            sent: Ghost(Seq::empty()),
            delivered: Ghost(Seq::empty()),
        }
    }

    /// Whether jobs can still be submitted.
    pub fn is_open(&self) -> (b: bool)
        ensures
            b == self@.open,
    {
        self.open
    }

    /// The number of jobs waiting.
    pub fn len(&self) -> (n: usize)
        ensures
            n == self@.pending.len(),
    {
        self.items.len()
    }

    /// Appends `job` behind every job already waiting. A closed queue takes
    /// nothing and hands the job back.
    pub fn push(&mut self, job: J) -> (r: Result<(), SubmissionAfterClose<J>>)
        requires
            old(self).wf(),
        ensures
            final(self).wf(),
            final(self)@ == old(self)@.push(job),
            old(self)@.open ==> r is Ok,
            !old(self)@.open ==> r == Err::<(), _>(SubmissionAfterClose(job)),
    {
        if self.open {
            self.items.push_back(job);
            proof {
                self.sent@ = self.sent@.push(job);
                lemma_concat_push(old(self)@.delivered, old(self)@.pending, job);
            }
            Ok(())
        } else {
            Err(SubmissionAfterClose(job))
        }
    }

    /// Takes the oldest waiting job, or says why there is none.
    pub fn pop(&mut self) -> (r: Dequeue<J>)
        requires
            old(self).wf(),
        ensures
            final(self).wf(),
            final(self)@ == old(self)@.pop(),
            r == old(self)@.front(),
    {
        match self.items.pop_front() {
            Some(job) => {
                proof {
                    self.delivered@ = self.delivered@.push(job);
                    lemma_concat_shift(old(self)@.delivered, old(self)@.pending);
                }
                Dequeue::Job(job)
            },
            None => {
                if self.open {
                    Dequeue::Empty
                } else {
                    Dequeue::Closed
                }
            },
        }
    }

    /// Closes the producer side. Closing again changes nothing.
    pub fn close(&mut self)
        requires
            old(self).wf(),
        ensures
            final(self).wf(),
            final(self)@ == old(self)@.close(),
    {
        self.open = false;
    }
}

/// Appending to the tail of a concatenation appends to the whole.
pub proof fn lemma_concat_push<J>(a: Seq<J>, b: Seq<J>, x: J)
    ensures
        (a + b).push(x) == a + b.push(x),
{
    assert((a + b).push(x) =~= a + b.push(x));
}

/// Moving the head of the second part to the end of the first leaves the
/// concatenation as it was.
pub proof fn lemma_concat_shift<J>(a: Seq<J>, b: Seq<J>)
    requires
        b.len() > 0,
    ensures
        a.push(b[0]) + b.skip(1) == a + b,
{
    assert(a.push(b[0]) + b.skip(1) =~= a + b);
}

} // verus!
