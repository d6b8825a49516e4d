//! The worker pool: a fixed set of workers, the dispatcher they share, and
//! the lifecycle from construction through blocking shutdown.

use vstd::prelude::*;

use crate::dispatcher::Dispatcher;
use crate::message::Message;
use crate::message::jobs_of;
use crate::message::lemma_jobs_of_push;
use crate::message::lemma_terminate_at_end_counts;
use crate::message::lemma_terminate_count_push;
use crate::message::terminate_count;

verus! {

/// Why a pool could not be constructed.
#[derive(Clone, Copy, PartialEq, Eq, Structural, Debug)]
pub enum PoolError {
    /// A pool of zero workers could never process work: a configuration
    /// error, rejected before any worker exists.
    ZeroWorkers,
}

/// One pool slot: its ordinal identity and whether it has observed its
/// terminate sentinel and exited its loop.
#[derive(Clone, Copy, PartialEq, Eq, Structural, Debug)]
pub struct Worker {
    pub id: usize,
    pub terminated: bool,
}

impl Worker {
    /// A freshly spawned worker: identified by `id`, still in its loop.
    pub fn new(id: usize) -> (w: Worker)
        ensures
            w.id == id,
            !w.terminated,
    {
        Worker { id, terminated: false }
    }
}

/// How many of the workers in `ws` are still in their loops.
pub open spec fn live_count(ws: Seq<Worker>) -> nat
    decreases ws.len(),
{
    if ws.len() == 0 {
        0
    } else {
        (if ws[0].terminated {
            0nat
        } else {
            1nat
        }) + live_count(ws.skip(1))
    }
}

/// Adding a worker on the right adds its liveness to the count.
pub proof fn lemma_live_count_push(ws: Seq<Worker>, w: Worker)
    ensures
        live_count(ws.push(w)) == live_count(ws) + (if w.terminated {
            0nat
        } else {
            1nat
        }),
    decreases ws.len(),
{
    if ws.len() == 0 {
        assert(ws =~= Seq::<Worker>::empty());
        assert(ws.push(w)[0] == w);
        assert(ws.push(w).skip(1) =~= Seq::<Worker>::empty());
    } else {
        assert(ws.push(w)[0] == ws[0]);
        assert(ws.push(w).skip(1) =~= ws.skip(1).push(w));
        lemma_live_count_push(ws.skip(1), w);
    }
}

/// Marking one live worker terminated lowers the live count by exactly one.
pub proof fn lemma_live_count_terminate(ws: Seq<Worker>, i: int, w: Worker)
    requires
        0 <= i < ws.len(),
        !ws[i].terminated,
        w.terminated,
    ensures
        live_count(ws.update(i, w)) + 1 == live_count(ws),
    decreases ws.len(),
{
    if i == 0 {
        assert(ws.update(0, w)[0] == w);
        assert(ws.update(0, w).skip(1) =~= ws.skip(1));
    } else {
        assert(ws.update(i, w)[0] == ws[0]);
        assert(ws.update(i, w).skip(1) =~= ws.skip(1).update(i - 1, w));
        lemma_live_count_terminate(ws.skip(1), i - 1, w);
    }
}

/// No worker is live exactly when every worker has terminated.
pub proof fn lemma_live_count_zero(ws: Seq<Worker>)
    ensures
        live_count(ws) == 0 <==> (forall|i: int| 0 <= i < ws.len() ==> ws[i].terminated),
    decreases ws.len(),
{
    if ws.len() > 0 {
        lemma_live_count_zero(ws.skip(1));
        if live_count(ws) == 0 {
            assert forall|i: int| 0 <= i < ws.len() implies ws[i].terminated by {
                if i > 0 {
                    assert(ws.skip(1)[i - 1] == ws[i]);
                }
            }
        } else {
            if forall|i: int| 0 <= i < ws.len() ==> ws[i].terminated {
                assert forall|i: int| 0 <= i < ws.skip(1).len() implies ws.skip(1)[i].terminated by {
                    assert(ws.skip(1)[i] == ws[i + 1]);
                }
            }
        }
    }
}

/// One dispatch: worker `worker` pulled job `job` from the conduit. The pool
/// keeps these in dequeue order, so the log is the pool's whole dispatch
/// history.
#[derive(Clone, Copy, PartialEq, Eq, Structural, Debug)]
pub struct DispatchRecord {
    pub job: u64,
    pub worker: usize,
}

/// The job tokens of a dispatch history, in dispatch order.
pub open spec fn jobs_of_records(rs: Seq<DispatchRecord>) -> Seq<u64>
    decreases rs.len(),
{
    if rs.len() == 0 {
        Seq::empty()
    } else {
        seq![rs[0].job] + jobs_of_records(rs.skip(1))
    }
}

/// A dispatch history carries exactly one job token per record: dispatches
/// and dispatched jobs are counted alike.
pub proof fn lemma_jobs_of_records_len(rs: Seq<DispatchRecord>)
    ensures
        jobs_of_records(rs).len() == rs.len(),
    decreases rs.len(),
{
    if rs.len() > 0 {
        lemma_jobs_of_records_len(rs.skip(1));
    }
}

/// Recording one more dispatch appends its job token to the history's jobs.
pub proof fn lemma_jobs_of_records_push(rs: Seq<DispatchRecord>, r: DispatchRecord)
    ensures
        jobs_of_records(rs.push(r)) == jobs_of_records(rs).push(r.job),
    decreases rs.len(),
{
    if rs.len() == 0 {
        assert(rs =~= Seq::<DispatchRecord>::empty());
        assert(rs.push(r)[0] == r);
        assert(rs.push(r).skip(1) =~= Seq::<DispatchRecord>::empty());
        assert(seq![r.job] + Seq::<u64>::empty() =~= jobs_of_records(rs).push(r.job));
    } else {
        assert(rs.push(r)[0] == rs[0]);
        assert(rs.push(r).skip(1) =~= rs.skip(1).push(r));
        lemma_jobs_of_records_push(rs.skip(1), r);
        assert(seq![rs[0].job] + jobs_of_records(rs.skip(1)).push(r.job) =~= (seq![rs[0].job]
            + jobs_of_records(rs.skip(1))).push(r.job));
    }
}

/// The pool: the fixed set of workers, the dispatcher they share, and the
/// dispatch history. Construction validates the size and creates the workers;
/// submission enqueues one message; shutdown sends one terminate sentinel per
/// worker and then drives every worker to exit, which dispatches every job
/// still queued.
pub struct ThreadPool {
    workers: Vec<Worker>,
    dispatcher: Dispatcher,
    log: Vec<DispatchRecord>,
}

impl ThreadPool {
    /// The workers, indexed by their ordinal ids.
    pub closed spec fn workers_state(&self) -> Seq<Worker> {
        self.workers@
    }

    /// How many workers the pool owns.
    pub open spec fn worker_count(&self) -> nat {
        self.workers_state().len()
    }

    /// Whether worker `i` has observed its terminate sentinel and exited.
    pub open spec fn worker_terminated(&self, i: int) -> bool
        recommends
            0 <= i < self.worker_count(),
    {
        self.workers_state()[i].terminated
    }

    /// Whether every worker has exited its loop.
    pub open spec fn all_terminated(&self) -> bool {
        forall|i: int| 0 <= i < self.worker_count() ==> self.worker_terminated(i)
    }

    /// The messages still queued in the dispatcher, oldest first.
    pub closed spec fn queue(&self) -> Seq<Message> {
        self.dispatcher.messages()
    }

    /// Every dispatch the pool has performed, in dequeue order.
    pub closed spec fn dispatched(&self) -> Seq<DispatchRecord> {
        self.log@
    }

    /// The job tokens dispatched so far, in dequeue order.
    pub open spec fn dispatched_jobs(&self) -> Seq<u64> {
        jobs_of_records(self.dispatched())
    }

    /// Structural soundness: at least one worker, ordinal ids, and every
    /// recorded dispatch names a worker the pool owns.
    pub open spec fn wf(&self) -> bool {
        &&& self.worker_count() > 0
        &&& forall|i: int| 0 <= i < self.worker_count() ==> self.workers_state()[i].id == i
        &&& forall|i: int|
            0 <= i < self.dispatched().len() ==> self.dispatched()[i].worker < self.worker_count()
    }

    /// The pool in its accepting phase: well formed, every worker still in
    /// its loop, and no terminate sentinel queued. This holds from
    /// construction until shutdown begins.
    pub open spec fn accepting(&self) -> bool {
        &&& self.wf()
        &&& live_count(self.workers_state()) == self.worker_count()
        &&& terminate_count(self.queue()) == 0
    }

    /// Build a pool of `size` workers sharing one dispatcher. A size of zero
    /// is a configuration error: it is rejected up front and no worker is
    /// created.
    pub fn new(size: usize) -> (r: Result<ThreadPool, PoolError>)
        ensures
            match r {
                Ok(pool) => {
                    &&& size > 0
                    &&& pool.accepting()
                    &&& pool.worker_count() == size
                    &&& pool.queue() == Seq::<Message>::empty()
                    &&& pool.dispatched() == Seq::<DispatchRecord>::empty()
                },
                Err(e) => size == 0 && e == PoolError::ZeroWorkers,
            },
    {
        if size == 0 {
            return Err(PoolError::ZeroWorkers);
        }
        let dispatcher = Dispatcher::new();
        let mut workers: Vec<Worker> = Vec::new();
        let mut id: usize = 0;
        while id < size
            invariant
                id <= size,
                workers@.len() == id,
                forall|i: int| 0 <= i < id ==> workers@[i].id == i,
                forall|i: int| 0 <= i < id ==> !workers@[i].terminated,
                live_count(workers@) == id,
            decreases size - id,
        {
            let w = Worker::new(id);
            proof {
                lemma_live_count_push(workers@, w);
            }
            workers.push(w);
            id = id + 1;
        }
        Ok(ThreadPool { workers, dispatcher, log: Vec::new() })
    }

    /// Submit one unit of work, identified by `job`. This is a single
    /// enqueue at the back of the dispatcher — nothing else about the pool
    /// changes, however many messages are queued and however busy the
    /// workers are — so the submitting caller is never held up.
    pub fn execute(&mut self, job: u64)
        requires
            old(self).accepting(),
        ensures
            final(self).accepting(),
            final(self).queue() == old(self).queue().push(Message::NewJob(job)),
            final(self).workers_state() == old(self).workers_state(),
            final(self).dispatched() == old(self).dispatched(),
    {
        proof {
            lemma_terminate_count_push(self.queue(), Message::NewJob(job));
        }
        self.dispatcher.send(Message::NewJob(job));
        proof {
            assert forall|i: int|
                0 <= i < self.dispatched().len() implies self.dispatched()[i].worker
                < self.worker_count() by {
                assert(old(self).dispatched()[i].worker < old(self).worker_count());
            }
        }
    }

    /// One turn of worker `w`'s loop: take the receive side, pop exactly one
    /// message, release it, and act. A job is recorded as dispatched to `w`;
    /// a terminate sentinel makes `w` exit its loop for good. With the queue
    /// empty nothing changes — a real worker blocks there. Because each turn
    /// pops exactly one message, no message is ever lost or observed by two
    /// workers.
    pub fn dispatch_next(&mut self, w: usize) -> (r: Option<Message>)
        requires
            old(self).wf(),
            w < old(self).worker_count(),
            !old(self).worker_terminated(w as int),
        ensures
            final(self).wf(),
            final(self).worker_count() == old(self).worker_count(),
            old(self).accepting() ==> final(self).accepting(),
            match r {
                None => {
                    &&& old(self).queue().len() == 0
                    &&& final(self).queue() == old(self).queue()
                    &&& final(self).workers_state() == old(self).workers_state()
                    &&& final(self).dispatched() == old(self).dispatched()
                },
                Some(m) => {
                    &&& old(self).queue().len() > 0
                    &&& m == old(self).queue()[0]
                    &&& final(self).queue() == old(self).queue().skip(1)
                    &&& match m {
                        Message::NewJob(j) => {
                            &&& final(self).workers_state() == old(self).workers_state()
                            &&& final(self).dispatched() == old(self).dispatched().push(
                                DispatchRecord { job: j, worker: w },
                            )
                        },
                        Message::Terminate => {
                            &&& final(self).workers_state() == old(self).workers_state().update(
                                w as int,
                                Worker { id: w, terminated: true },
                            )
                            &&& final(self).dispatched() == old(self).dispatched()
                        },
                    }
                },
            },
    {
        let r = self.dispatcher.recv();
        match r {
            None => None,
            Some(m) => {
                match m {
                    Message::NewJob(j) => {
                        self.log.push(DispatchRecord { job: j, worker: w });
                    },
                    Message::Terminate => {
                        self.workers[w] = Worker { id: w, terminated: true };
                    },
                }
                proof {
                    assert forall|i: int|
                        0 <= i < self.dispatched().len() implies self.dispatched()[i].worker
                        < self.worker_count() by {
                        if i < old(self).dispatched().len() {
                            assert(old(self).dispatched()[i].worker < old(self).worker_count());
                        }
                    }
                    assert forall|i: int|
                        0 <= i < self.worker_count() implies self.workers_state()[i].id == i by {
                        assert(old(self).workers_state()[i].id == i);
                    }
                }
                Some(m)
            },
        }
    }

    /// How many workers the pool owns.
    pub fn num_workers(&self) -> (n: usize)
        ensures
            n == self.worker_count(),
    {
        self.workers.len()
    }

    /// How many messages are still queued in the dispatcher.
    pub fn queued_len(&self) -> (n: usize)
        ensures
            n == self.queue().len(),
    {
        self.dispatcher.len()
    }

    /// The dispatch history so far, in dequeue order.
    pub fn dispatch_log(&self) -> (r: &Vec<DispatchRecord>)
        ensures
            r@ == self.dispatched(),
    {
        &self.log
    }

    /// Whether worker `w` has observed its terminate sentinel and exited.
    pub fn is_terminated(&self, w: usize) -> (b: bool)
        requires
            w < self.worker_count(),
        ensures
            b == self.worker_terminated(w as int),
    {
        self.workers[w].terminated
    }

    /// The ordinal of some worker still in its loop, or `None` when every
    /// worker has exited.
    fn first_live_worker(&self) -> (r: Option<usize>)
        ensures
            match r {
                Some(w) => w < self.worker_count() && !self.worker_terminated(w as int),
                None => self.all_terminated(),
            },
    {
        let n = self.workers.len();
        let mut i: usize = 0;
        while i < n
            invariant
                i <= n,
                n == self.worker_count(),
                forall|k: int| 0 <= k < i ==> self.workers_state()[k].terminated,
            decreases n - i,
        {
            if !self.workers[i].terminated {
                return Some(i);
            }
            i = i + 1;
        }
        None
    }

    /// Tear the pool down: enqueue one terminate sentinel per worker — all of
    /// them before waiting on any worker — then keep giving live workers
    /// turns until every one has observed its sentinel and exited. The call
    /// returns only once the conduit is drained: every job submitted before
    /// shutdown began has been dispatched, in submission order, each to
    /// exactly one worker, and every worker has terminated.
    pub fn shutdown(&mut self)
        requires
            old(self).accepting(),
        ensures
            final(self).wf(),
            final(self).worker_count() == old(self).worker_count(),
            final(self).all_terminated(),
            final(self).queue().len() == 0,
            final(self).dispatched().len() >= old(self).dispatched().len(),
            forall|i: int|
                0 <= i < old(self).dispatched().len() ==> final(self).dispatched()[i] == old(
                    self,
                ).dispatched()[i],
            final(self).dispatched_jobs() == old(self).dispatched_jobs() + jobs_of(
                old(self).queue(),
            ),
            final(self).dispatched().len() == old(self).dispatched().len() + jobs_of(
                old(self).queue(),
            ).len(),
    {
        let n = self.workers.len();
        let ghost q0 = self.queue();
        let ghost ws0 = self.workers_state();
        let ghost log0 = self.dispatched();

        // Phase one: one terminate sentinel per worker, all enqueued before
        // any worker is waited on.
        let mut i: usize = 0;
        while i < n
            invariant
                i <= n,
                n == self.worker_count(),
                self.workers_state() == ws0,
                self.dispatched() == log0,
                old(self).wf(),
                ws0 == old(self).workers_state(),
                log0 == old(self).dispatched(),
                n == old(self).worker_count(),
                live_count(ws0) == n,
                terminate_count(q0) == 0,
                q0 == old(self).queue(),
                terminate_count(self.queue()) == i,
                jobs_of(self.queue()) == jobs_of(q0),
                i > 0 ==> self.queue().len() > 0 && self.queue().last() == Message::Terminate,
            decreases n - i,
        {
            proof {
                lemma_terminate_count_push(self.queue(), Message::Terminate);
                lemma_jobs_of_push(self.queue(), Message::Terminate);
            }
            self.dispatcher.send(Message::Terminate);
            i = i + 1;
        }

        // Phase two: drive live workers, one popped message per turn, until
        // all have observed their sentinels. Exactly as many sentinels are
        // queued as workers are live, so a live worker always finds a
        // message, and the conduit is empty exactly when the last worker
        // exits.
        loop
            invariant
                n == self.worker_count(),
                n == old(self).worker_count(),
                n > 0,
                self.wf(),
                log0 == old(self).dispatched(),
                q0 == old(self).queue(),
                terminate_count(self.queue()) == live_count(self.workers_state()),
                self.queue().len() > 0 ==> self.queue().last() == Message::Terminate,
                self.dispatched_jobs() + jobs_of(self.queue()) == jobs_of_records(log0) + jobs_of(
                    q0,
                ),
                self.dispatched().len() >= log0.len(),
                forall|k: int| 0 <= k < log0.len() ==> self.dispatched()[k] == log0[k],
            ensures
                n == self.worker_count(),
                self.wf(),
                self.all_terminated(),
                terminate_count(self.queue()) == 0,
                self.queue().len() > 0 ==> self.queue().last() == Message::Terminate,
                self.dispatched_jobs() + jobs_of(self.queue()) == jobs_of_records(log0) + jobs_of(
                    q0,
                ),
                self.dispatched().len() >= log0.len(),
                forall|k: int| 0 <= k < log0.len() ==> self.dispatched()[k] == log0[k],
            decreases self.queue().len(),
        {
            let picked = self.first_live_worker();
            match picked {
                None => {
                    proof {
                        lemma_live_count_zero(self.workers_state());
                        assert forall|k: int|
                            0 <= k < self.workers_state().len() implies self.workers_state()[k].terminated by {
                            assert(self.worker_terminated(k));
                        }
                        assert(live_count(self.workers_state()) == 0);
                    }
                    break;
                },
                Some(w) => {
                    proof {
                        lemma_live_count_zero(self.workers_state());
                        assert(live_count(self.workers_state()) > 0);
                    }
                    let ghost q_pre = self.queue();
                    let ghost log_pre = self.dispatched();
                    let ghost ws_pre = self.workers_state();
                    let m = self.dispatch_next(w);
                    proof {
                        let m0 = q_pre[0];
                        assert(self.queue() == q_pre.skip(1));
                        if q_pre.len() > 1 {
                            assert(q_pre.skip(1).last() == q_pre.last());
                        }
                        match m0 {
                            Message::NewJob(j) => {
                                let r = DispatchRecord { job: j, worker: w };
                                lemma_jobs_of_records_push(log_pre, r);
                                assert(jobs_of(q_pre) == seq![j] + jobs_of(q_pre.skip(1)));
                                assert(jobs_of_records(log_pre).push(j) + jobs_of(q_pre.skip(1))
                                    =~= jobs_of_records(log_pre) + (seq![j] + jobs_of(
                                    q_pre.skip(1),
                                )));
                            },
                            Message::Terminate => {
                                lemma_live_count_terminate(
                                    ws_pre,
                                    w as int,
                                    Worker { id: w, terminated: true },
                                );
                                assert(terminate_count(q_pre) == 1 + terminate_count(
                                    q_pre.skip(1),
                                ));
                                assert(jobs_of(q_pre) == jobs_of(q_pre.skip(1)));
                            },
                        }
                        assert forall|k: int| 0 <= k < log0.len() implies self.dispatched()[k]
                            == log0[k] by {
                            assert(log_pre[k] == log0[k]);
                        }
                    }
                },
            }
        }
        proof {
            // No live worker is left, so no sentinel is queued; and were any
            // message left, the last one would be a sentinel. So the conduit
            // is drained.
            if self.queue().len() > 0 {
                lemma_terminate_at_end_counts(self.queue());
            }
            assert(self.queue() =~= Seq::<Message>::empty());
            assert(self.dispatched_jobs() + Seq::<u64>::empty() =~= self.dispatched_jobs());
            assert(jobs_of(q0) == jobs_of(old(self).queue()));
            lemma_jobs_of_records_len(self.dispatched());
            lemma_jobs_of_records_len(log0);
        }
    }
}

} // verus!
