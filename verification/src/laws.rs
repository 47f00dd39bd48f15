//! What holds of every pool, proved from the invariant and the transitions.

use crate::pool::{
    lemma_claims, lemma_fresh_wf, lemma_next_wf, lemma_shut_wf, lemma_submit_wf, Event, PoolView,
};
use crate::queue::QueueView;
use crate::worker::{Step, WorkerState};
use vstd::prelude::*;

verus! {

/// The tickets `0, 1, ..., n - 1`.
pub open spec fn tickets_below(n: nat) -> Set<nat> {
    Set::new(|t: nat| t < n)
}

/// There are exactly `n` tickets below `n`.
pub proof fn lemma_tickets_below_len(n: nat)
    ensures
        tickets_below(n).finite(),
        tickets_below(n).len() == n,
    decreases n,
{
    if n == 0 {
        assert(tickets_below(0) =~= Set::<nat>::empty());
    } else {
        let m = (n - 1) as nat;
        lemma_tickets_below_len(m);
        assert(tickets_below(n) =~= tickets_below(m).insert(m));
    }
}

/// The queue is first in, first out: the `k`-th job handed out is the `k`-th
/// job submitted, and the jobs still waiting are the ones submitted after
/// those, in the order of their submission.
pub proof fn lemma_first_in_first_out<J>(q: QueueView<J>)
    requires
        q.wf(),
    ensures
        q.sent.len() == q.delivered.len() + q.pending.len(),
        forall|k: int| 0 <= k < q.delivered.len() ==> q.delivered[k] == q.sent[k],
        forall|k: int| 0 <= k < q.pending.len() ==> q.pending[k] == q.sent[q.delivered.len() + k],
{
}

/// A new pool of `size` workers has exactly `size` workers, numbered from
/// zero, all of them running and none of them busy; nothing was submitted;
/// and a shutdown would have to wait for every one of them.
pub proof fn lemma_fresh_pool<J>(size: nat)
    requires
        1 <= size <= u32::MAX,
    ensures
        PoolView::<J>::fresh(size).wf(),
        PoolView::<J>::fresh(size).size() == size,
        forall|i: int|
            0 <= i < size ==> (#[trigger] PoolView::<J>::fresh(size).workers[i]).id == i,
        forall|i: int|
            0 <= i < size ==> (#[trigger] PoolView::<J>::fresh(size).workers[i]).state
                == WorkerState::Running,
        forall|i: int|
            0 <= i < size ==> (#[trigger] PoolView::<J>::fresh(size).workers[i]).joinable,
        forall|i: int| 0 <= i < size ==> #[trigger] PoolView::<J>::fresh(size).running[i] is None,
        PoolView::<J>::fresh(size).queue.sent.len() == 0,
        PoolView::<J>::fresh(size).claims() == Seq::new(size, |i: int| i as u32),
{
    lemma_fresh_wf::<J>(size);
    lemma_claims(PoolView::<J>::fresh(size));
}

/// At any time every job submitted so far is in exactly one place: still
/// waiting, in the hands of exactly one worker, or once in the log of
/// completed jobs. None is lost and none is there twice.
pub proof fn lemma_each_job_in_one_place<J>(s: PoolView<J>, t: nat)
    requires
        s.wf(),
        t < s.queue.sent.len(),
    ensures
        s.dispatched() <= s.queue.sent.len(),
        t >= s.dispatched() ==> s.queue.pending[t - s.dispatched()] == s.queue.sent[t as int],
        t >= s.dispatched() ==> !s.log.contains(t) && !s.running.contains(Some(t)),
        t < s.dispatched() ==> s.log.contains(t) != s.running.contains(Some(t)),
        forall|i: int, j: int|
            0 <= i < s.size() && 0 <= j < s.size() && s.running[i] == Some(t) && s.running[j]
                == Some(t) ==> i == j,
        forall|k: int, l: int|
            0 <= k < s.log.len() && 0 <= l < s.log.len() && s.log[k] == t && s.log[l] == t ==> k
                == l,
{
    assert(s.queue.sent.len() == s.queue.delivered.len() + s.queue.pending.len());
    if t < s.dispatched() {
        assert(s.accounted(t));
    }
}

/// Once every worker has stopped, every job that was ever submitted has run
/// to completion exactly once: nothing waits, nothing is in a worker's
/// hands, and the log of completed jobs holds each ticket once.
pub proof fn lemma_all_stopped_all_done<J>(s: PoolView<J>)
    requires
        s.wf(),
        s.all_stopped(),
    ensures
        s.queue.drained(),
        s.queue.delivered == s.queue.sent,
        forall|i: int| 0 <= i < s.size() ==> #[trigger] s.running[i] is None,
        s.log.no_duplicates(),
        s.log.to_set() == tickets_below(s.queue.sent.len()),
        s.log.len() == s.queue.sent.len(),
{
    assert(s.workers[0].state == WorkerState::Stopped);
    assert(s.queue.delivered =~= s.queue.delivered + s.queue.pending);
    assert forall|i: int| 0 <= i < s.size() implies #[trigger] s.running[i] is None by {
        assert(s.workers[i].state == WorkerState::Stopped);
    }
    let m = s.queue.sent.len();
    assert forall|t: nat| s.log.to_set().contains(t) <==> tickets_below(m).contains(t) by {
        if t < m {
            assert(s.accounted(t));
        }
    }
    assert(s.log.to_set() =~= tickets_below(m));
    s.log.unique_seq_to_set();
    lemma_tickets_below_len(m);
}

/// Whether a shutdown is among the events.
pub open spec fn shut_down<J>(events: Seq<Event<J>>) -> bool {
    exists|k: int| 0 <= k < events.len() && events[k] is Shutdown
}

/// The jobs a pool takes in over a sequence of events: those submitted
/// before the first shutdown, in the order of their submission.
pub open spec fn accepted<J>(events: Seq<Event<J>>) -> Seq<J>
    decreases events.len(),
{
    if events.len() == 0 {
        Seq::empty()
    } else {
        let earlier = events.drop_last();
        match events.last() {
            Event::Submit(job) => if shut_down(earlier) {
                accepted(earlier)
            } else {
                accepted(earlier).push(job)
            },
            _ => accepted(earlier),
        }
    }
}

/// Whatever happens to a pool, in whatever order, it keeps its invariant.
pub proof fn lemma_run_wf<J>(s: PoolView<J>, events: Seq<Event<J>>)
    requires
        s.wf(),
    ensures
        s.run(events).wf(),
        s.run(events).size() == s.size(),
    decreases events.len(),
{
    if events.len() > 0 {
        lemma_run_wf(s, events.drop_last());
        let before = s.run(events.drop_last());
        match events.last() {
            Event::Submit(job) => {
                if before.queue.open {
                    lemma_submit_wf(before, job);
                }
            },
            Event::Next(id) => {
                if id < before.size() {
                    lemma_next_wf(before, id as int);
                }
            },
            Event::Shutdown => {
                lemma_shut_wf(before);
            },
        }
    }
}

/// A pool that starts fresh stays open until its first shutdown, and the
/// jobs it has taken in are exactly the ones submitted until then.
pub proof fn lemma_run_accepts<J>(size: nat, events: Seq<Event<J>>)
    requires
        1 <= size <= u32::MAX,
    ensures
        PoolView::<J>::fresh(size).run(events).queue.open == !shut_down(events),
        PoolView::<J>::fresh(size).run(events).queue.sent == accepted(events),
    decreases events.len(),
{
    let start = PoolView::<J>::fresh(size);
    if events.len() > 0 {
        let earlier = events.drop_last();
        lemma_run_accepts::<J>(size, earlier);
        lemma_fresh_wf::<J>(size);
        lemma_run_wf(start, earlier);
        if shut_down(earlier) {
            let k = choose|k: int| 0 <= k < earlier.len() && earlier[k] is Shutdown;
            assert(events[k] is Shutdown);
        } else if events.last() is Shutdown {
            assert(events[events.len() - 1] is Shutdown);
        } else if shut_down(events) {
            let k = choose|k: int| 0 <= k < events.len() && events[k] is Shutdown;
            assert(earlier[k] is Shutdown);
        }
    }
}

/// Every job runs exactly once. Take a fresh pool and any sequence of
/// submissions, workers coming back, and shutdowns. If at its end every
/// worker has stopped, then each job submitted before the first shutdown has
/// been handed out once, in the order of submission, and has run to
/// completion once; nothing waits and nothing is still running.
pub proof fn lemma_every_job_runs_once<J>(size: nat, events: Seq<Event<J>>)
    requires
        1 <= size <= u32::MAX,
        PoolView::<J>::fresh(size).run(events).all_stopped(),
    ensures
        shut_down(events),
        PoolView::<J>::fresh(size).run(events).queue.pending.len() == 0,
        PoolView::<J>::fresh(size).run(events).queue.delivered == accepted(events),
        PoolView::<J>::fresh(size).run(events).log.no_duplicates(),
        PoolView::<J>::fresh(size).run(events).log.len() == accepted(events).len(),
        PoolView::<J>::fresh(size).run(events).log.to_set() == tickets_below(
            accepted(events).len(),
        ),
{
    let end = PoolView::<J>::fresh(size).run(events);
    lemma_fresh_wf::<J>(size);
    lemma_run_wf(PoolView::<J>::fresh(size), events);
    lemma_run_accepts::<J>(size, events);
    lemma_all_stopped_all_done(end);
}

/// The job a worker is handed is the oldest one not handed out before, and
/// its ticket is its place in the order of submission.
pub proof fn lemma_ticket_names_the_job<J>(s: PoolView<J>, id: int)
    requires
        s.wf(),
        0 <= id < s.size(),
        s.step(id) is Run,
    ensures
        s.dispatched() < s.queue.sent.len(),
        s.step(id) == Step::Run(s.queue.sent[s.dispatched() as int]),
        s.next(id).running[id] == Some(s.dispatched()),
        s.next(id).dispatched() == s.dispatched() + 1,
        s.next(id).queue.sent == s.queue.sent,
{
    lemma_first_in_first_out(s.queue);
    assert(s.queue.pending[0] == s.queue.sent[s.queue.delivered.len() as int + 0]);
}

/// Stopping is final: a stopped worker that comes back is told to exit
/// again, and nothing in the pool changes.
pub proof fn lemma_stopped_is_final<J>(s: PoolView<J>, id: int)
    requires
        s.wf(),
        0 <= id < s.size(),
        s.workers[id].state == WorkerState::Stopped,
    ensures
        s.step(id) == Step::<J>::Exit,
        s.next(id) == s,
{
    assert(s.next(id).workers =~= s.workers);
}

/// Closing is final: neither a submission nor a worker coming back nor a
/// further shutdown opens the queue again.
pub proof fn lemma_closed_stays_closed<J>(s: PoolView<J>, id: int, job: J)
    requires
        s.wf(),
        0 <= id < s.size(),
        !s.queue.open,
    ensures
        s.submit(job) == s,
        !s.next(id).queue.open,
        !s.shut().queue.open,
{
}

/// After a shutdown no worker is ever told to wait, so none can block
/// forever: each time a running worker comes back it either takes one of the
/// jobs still waiting, which leaves one fewer, or it stops.
pub proof fn lemma_shutdown_makes_progress<J>(s: PoolView<J>, id: int)
    requires
        s.wf(),
        0 <= id < s.size(),
        !s.queue.open,
        s.workers[id].state == WorkerState::Running,
    ensures
        !(s.step(id) is Wait),
        s.queue.pending.len() > 0 ==> s.step(id) == Step::Run(s.queue.pending[0]),
        s.queue.pending.len() > 0 ==> s.next(id).queue.pending.len() == s.queue.pending.len() - 1,
        s.queue.pending.len() > 0 ==> s.next(id).workers[id].state == WorkerState::Running,
        s.queue.pending.len() == 0 ==> s.step(id) == Step::<J>::Exit,
        s.queue.pending.len() == 0 ==> s.next(id).workers[id].state == WorkerState::Stopped,
{
}

/// A second shutdown is harmless: it finds no thread left to wait for and
/// leaves the pool as the first shutdown left it.
pub proof fn lemma_shutdown_twice<J>(s: PoolView<J>)
    requires
        s.wf(),
    ensures
        s.shut().wf(),
        s.shut().claims() == Seq::<u32>::empty(),
        s.shut().shut() == s.shut(),
{
    lemma_shut_wf(s);
    lemma_claims(s.shut());
    assert(s.shut().shut().workers =~= s.shut().workers);
}

/// A shutdown loses no job: what was waiting still waits, what was running
/// is still running, and the log is as it was.
pub proof fn lemma_shutdown_keeps_jobs<J>(s: PoolView<J>)
    requires
        s.wf(),
    ensures
        s.shut().queue.pending == s.queue.pending,
        s.shut().queue.sent == s.queue.sent,
        s.shut().queue.delivered == s.queue.delivered,
        s.shut().running == s.running,
        s.shut().log == s.log,
{
}

/// A busy worker holds nobody up. While worker `busy` is still executing a
/// job, a further job can be submitted, an idle worker `idle` is handed it
/// at once, and when `idle` reports back that job is logged as complete
/// although `busy` has not returned.
pub proof fn lemma_busy_worker_holds_nobody_up<J>(s: PoolView<J>, busy: int, idle: int, job: J)
    requires
        s.wf(),
        s.queue.open,
        0 <= busy < s.size(),
        0 <= idle < s.size(),
        busy != idle,
        s.running[busy] is Some,
        s.queue.pending.len() == 0,
    ensures
        s.submit(job).step(idle) == Step::Run(job),
        s.submit(job).next(idle).running[idle] == Some(s.dispatched()),
        s.submit(job).next(idle).running[busy] == s.running[busy],
        s.submit(job).next(idle).next(idle).log.contains(s.dispatched()),
        s.submit(job).next(idle).next(idle).running[busy] == s.running[busy],
{
    let a = s.submit(job);
    assert(a.queue.pending[0] == job);
    let r = a.next(idle).report(idle);
    assert(r.log[r.log.len() - 1] == s.dispatched());
}

} // verus!
