//! The pool itself: construction, submission, stepping, and the two-phase
//! shutdown protocol, together with the laws the protocol guarantees.

use crate::channel::Channel;
use crate::message::Message;
use crate::message::all_terminates;
use crate::message::jobs_of;
use crate::message::jobs_then_terminates;
use crate::message::terminate_count;
use crate::worker::Worker;
use crate::worker::WorkerState;
use crate::worker::num_running;
use vstd::prelude::*;

verus! {

/// The mathematical state of a pool: what the contracts speak of.
#[verifier::ext_equal]
pub ghost struct PoolModel<J> {
    /// The workers, in spawn order; the worker with ordinal `i` sits at `i`.
    pub workers: Seq<Worker>,
    /// The messages waiting in the work channel, oldest first.
    pub queue: Seq<Message<J>>,
    /// The payloads of the jobs invoked so far, in invocation order.
    pub invoked: Seq<J>,
    /// Whether disposal has completed.
    pub disposed: bool,
}

/// A fixed-size worker pool. `J` is the job payload: whatever a submitted job
/// carries, opaque to the pool. The pool owns the work channel; workers
/// consume from it one message at a time, and disposal sends one terminate
/// signal per worker before joining each worker exactly once.
pub struct Threadpool<J> {
    /// The workers, created at construction and never added to or removed.
    pub workers: Vec<Worker>,
    /// The work channel both ends of which the model holds in one place.
    pub channel: Channel<J>,
    /// The record of every job invoked so far, in invocation order.
    pub invoked: Vec<J>,
    /// Set once disposal has completed.
    pub disposed: bool,
}

impl<J> View for Threadpool<J> {
    type V = PoolModel<J>;

    open spec fn view(&self) -> PoolModel<J> {
        PoolModel {
            workers: self.workers@,
            queue: self.channel@,
            invoked: self.invoked@,
            disposed: self.disposed,
        }
    }
}

/// The pool's invariant. Workers carry their spawn ordinal. Before disposal
/// no terminate signal sits in the channel (shutdown is the only sender of
/// those) and every worker still owns its thread handle; after disposal no
/// worker runs and every handle has been taken for its one join.
pub open spec fn wf_model<J>(p: PoolModel<J>) -> bool {
    &&& forall|i: int| 0 <= i < p.workers.len() ==> (#[trigger] p.workers[i]).id == i
    &&& if p.disposed {
        &&& num_running(p.workers) == 0
        &&& forall|i: int| 0 <= i < p.workers.len() ==> (#[trigger] p.workers[i]).thread is None
    } else {
        &&& terminate_count(p.queue) == 0
        &&& forall|i: int| 0 <= i < p.workers.len() ==> (#[trigger] p.workers[i]).thread is Some
    }
}

/// The state of a pool fresh from construction: `s` running workers with
/// their handles, an empty channel, nothing invoked.
pub open spec fn spec_new<J>(s: nat) -> PoolModel<J> {
    PoolModel {
        workers: Seq::new(
            s,
            |i: int|
                Worker {
                    id: i as usize,
                    state: WorkerState::Running,
                    thread: Some(crate::worker::ThreadHandle {}),
                },
        ),
        queue: Seq::empty(),
        invoked: Seq::empty(),
        disposed: false,
    }
}

/// What submission does: one job message joins the back of the queue.
pub open spec fn spec_execute<J>(p: PoolModel<J>, job: J) -> PoolModel<J> {
    PoolModel { queue: p.queue.push(Message::NewJob(job)), ..p }
}

/// A worker whose loop has exited: same identity, same handle slot, stopped.
pub open spec fn spec_stopped(w: Worker) -> Worker {
    Worker { id: w.id, state: WorkerState::Stopped, thread: w.thread }
}

/// A worker after shutdown joined its thread: stopped, with the handle slot
/// cleared so the thread can never be joined twice.
pub open spec fn spec_joined(w: Worker) -> Worker {
    Worker { id: w.id, state: WorkerState::Stopped, thread: None }
}

/// `n` terminate signals, as sent by the shutdown protocol.
pub open spec fn terminates_seq<J>(n: nat) -> Seq<Message<J>> {
    Seq::new(n, |i: int| Message::Terminate)
}

/// What disposal does to a pool satisfying `wf_model`. A disposed pool is
/// left untouched: disposal is idempotent. Otherwise every worker ends
/// stopped with its thread joined and its handle slot cleared, and — as long
/// as at least one worker was still running — every pending job is invoked,
/// in queue order, before disposal completes, leaving one unconsumed
/// terminate signal for each worker that had already stopped on its own. If
/// no worker was running at all, nothing can consume, and the queue keeps the
/// pending jobs plus the terminate signals; joining still succeeds, since
/// every thread has already exited.
pub open spec fn spec_dispose<J>(p: PoolModel<J>) -> PoolModel<J> {
    if p.disposed {
        p
    } else {
        let n = p.workers.len();
        let r = num_running(p.workers);
        PoolModel {
            workers: Seq::new(n, |i: int| spec_joined(p.workers[i])),
            queue: if r > 0 {
                terminates_seq((n - r) as nat)
            } else {
                p.queue + terminates_seq(n)
            },
            invoked: if r > 0 {
                p.invoked + jobs_of(p.queue)
            } else {
                p.invoked
            },
            disposed: true,
        }
    }
}

/// What one scheduling step does: worker `w` dequeues the oldest message and
/// acts on it. A job message is invoked — into the log when it completes,
/// stopping the worker (and only that worker) when the job's body fails. A
/// terminate signal stops the worker.
pub open spec fn spec_step<J>(p: PoolModel<J>, w: int, job_ok: bool) -> PoolModel<J> {
    if p.queue.len() == 0 {
        p
    } else {
        match p.queue[0] {
            Message::NewJob(j) => PoolModel {
                workers: if job_ok {
                    p.workers
                } else {
                    p.workers.update(w, spec_stopped(p.workers[w]))
                },
                queue: p.queue.drop_first(),
                invoked: if job_ok {
                    p.invoked.push(j)
                } else {
                    p.invoked
                },
                disposed: p.disposed,
            },
            Message::Terminate => PoolModel {
                workers: p.workers.update(w, spec_stopped(p.workers[w])),
                queue: p.queue.drop_first(),
                invoked: p.invoked,
                disposed: p.disposed,
            },
        }
    }
}

impl<J> Threadpool<J> {
    /// Whether the pool satisfies its invariant.
    pub open spec fn wf(&self) -> bool {
        wf_model(self@)
    }

    /// Build a pool of `s` workers, all running, bound to a fresh, empty work
    /// channel.
    pub fn new(s: usize) -> (pool: Threadpool<J>)
        ensures
            pool@ == spec_new::<J>(s as nat),
            pool.wf(),
    {
        let mut workers: Vec<Worker> = Vec::new();
        let mut id: usize = 0;
        while id < s
            invariant
                id <= s,
                workers@.len() == id,
                forall|i: int| 0 <= i < id ==> #[trigger] workers@[i] == spec_new::<J>(
                    s as nat,
                ).workers[i],
            decreases s - id,
        {
            workers.push(Worker::new(id));
            id = id + 1;
        }
        let pool = Threadpool {
            workers,
            channel: Channel::new(),
            invoked: Vec::new(),
            disposed: false,
        };
        proof {
            assert(pool@.workers =~= spec_new::<J>(s as nat).workers);
        }
        pool
    }

    /// Submit one job: wrap it as a job message and send it on the channel.
    /// Some worker will dequeue and invoke it exactly once, at a later step.
    /// Submitting to a disposed pool is the one misuse the channel cannot
    /// carry, so it is ruled out here.
    pub fn execute(&mut self, job: J)
        requires
            old(self).wf(),
            !old(self).disposed,
        ensures
            final(self)@ == spec_execute(old(self)@, job),
            final(self).wf(),
    {
        proof {
            crate::message::lemma_push(self.channel@, Message::NewJob(job));
        }
        self.channel.send(Message::NewJob(job));
    }

    /// One scheduling step outside disposal: worker `w`, idle and running,
    /// dequeues the oldest message under the channel's lock, releases the
    /// lock, and acts. Before disposal the channel holds job messages only,
    /// so the step invokes the dequeued job. The pool cannot see inside a
    /// job, so the caller reports in `job_ok` whether the job's body ran to
    /// completion; a failing job stops the invoking worker and no other —
    /// invocation is isolated, a failure cannot take the shared channel down
    /// with it.
    pub fn step_worker(&mut self, w: usize, job_ok: bool)
        requires
            old(self).wf(),
            !old(self).disposed,
            w < old(self)@.workers.len(),
            old(self)@.workers[w as int].state is Running,
            old(self)@.queue.len() > 0,
        ensures
            final(self)@ == spec_step(old(self)@, w as int, job_ok),
            final(self).wf(),
    {
        let m = self.channel.receive();
        match m {
            Message::NewJob(j) => {
                if job_ok {
                    self.invoked.push(j);
                } else {
                    let mut wk = self.workers[w];
                    wk.stop();
                    self.workers[w] = wk;
                }
            },
            Message::Terminate => {
                let mut wk = self.workers[w];
                wk.stop();
                self.workers[w] = wk;
            },
        }
        proof {
            assert(terminate_count(self.channel@) == 0);
            assert forall|i: int| 0 <= i < self@.workers.len() implies (
            #[trigger] self@.workers[i]).id == i && self@.workers[i].thread is Some by {
                assert(old(self)@.workers[i].id == i);
                assert(old(self)@.workers[i].thread is Some);
            }
        }
    }

    /// The lowest-numbered worker still running, if any. Which idle worker
    /// wins the race for the next message is unspecified in the running
    /// system; the model always picks the first.
    fn first_running(&self) -> (r: Option<usize>)
        ensures
            match r {
                Option::Some(i) => i < self@.workers.len() && self@.workers[i as int].state
                    is Running,
                Option::None => num_running(self@.workers) == 0,
            },
    {
        let n = self.workers.len();
        let mut i: usize = 0;
        while i < n
            invariant
                i <= n,
                n == self@.workers.len(),
                forall|j: int| 0 <= j < i ==> !((#[trigger] self@.workers[j]).state is Running),
            decreases n - i,
        {
            let w = self.workers[i];
            match w.state {
                WorkerState::Running => {
                    return Option::Some(i);
                },
                WorkerState::Stopped => {},
            }
            i = i + 1;
        }
        proof {
            crate::worker::lemma_num_running_zero(self.workers@);
        }
        Option::None
    }

    /// Dispose of the pool: the two-phase shutdown protocol. Phase one sends
    /// exactly one terminate signal per worker — the channel is first-in
    /// first-out and every running worker comes back for the next message
    /// after finishing its current one, so each running worker eventually
    /// receives exactly one signal and none starves. Phase two joins every
    /// worker thread, taking each handle out of its slot exactly once, so a
    /// second disposal finds nothing left to do and returns at once.
    pub fn dispose(&mut self)
        requires
            old(self).wf(),
        ensures
            final(self)@ == spec_dispose(old(self)@),
            final(self).wf(),
    {
        if self.disposed {
            return ;
        }
        let n = self.workers.len();
        let ghost q0 = self.channel@;
        let ghost inv0 = self.invoked@;
        let ghost ws0 = self.workers@;
        let ghost r0 = num_running(ws0);
        proof {
            crate::worker::lemma_num_running_le_len(ws0);
        }
        // Phase one: one terminate signal per worker.
        let mut k: usize = 0;
        while k < n
            invariant
                k <= n,
                n == ws0.len(),
                self.workers@ == ws0,
                self.invoked@ == inv0,
                self.disposed == false,
                self.channel@ == q0 + terminates_seq::<J>(k as nat),
            decreases n - k,
        {
            self.channel.send(Message::Terminate);
            proof {
                assert(self.channel@ =~= q0 + terminates_seq::<J>((k + 1) as nat));
            }
            k = k + 1;
        }
        let ghost qstart = q0 + terminates_seq::<J>(n as nat);
        let ghost jall = inv0 + jobs_of(qstart);
        proof {
            crate::message::lemma_concat(q0, terminates_seq::<J>(n as nat));
            crate::message::lemma_all_terminates(terminates_seq::<J>(n as nat));
            crate::message::lemma_terminate_count_zero(q0);
            assert(jobs_of(qstart) =~= jobs_of(q0));
            assert(jobs_then_terminates(qstart)) by {
                assert forall|a: int, b: int|
                    #![trigger qstart[a], qstart[b]]
                    0 <= a < b < qstart.len() && qstart[a] is Terminate implies qstart[b]
                    is Terminate by {
                    assert(a >= q0.len());
                }
            }
        }
        // The running workers drain the channel: each dequeues jobs until its
        // terminate signal arrives, then exits its loop.
        loop
            invariant
                self.disposed == false,
                self.workers@.len() == ws0.len(),
                forall|i: int|
                    0 <= i < ws0.len() ==> (#[trigger] self.workers@[i]).id == ws0[i].id
                        && self.workers@[i].thread == ws0[i].thread,
                r0 == num_running(ws0),
                r0 <= ws0.len(),
                num_running(self.workers@) <= r0,
                jobs_then_terminates(self.channel@),
                self.invoked@ + jobs_of(self.channel@) == jall,
                terminate_count(self.channel@) + r0 == ws0.len() + num_running(self.workers@),
                (r0 > 0 && num_running(self.workers@) == 0) ==> all_terminates(self.channel@),
                r0 == 0 ==> self.channel@ == qstart && self.invoked@ == inv0,
            ensures
                num_running(self.workers@) == 0,
            decreases self.channel@.len(),
        {
            let next = self.first_running();
            match next {
                Option::None => { break ; },
                Option::Some(i) => {
                    proof {
                        crate::worker::lemma_num_running_zero(self.workers@);
                        assert(num_running(self.workers@) >= 1);
                        if self.channel@.len() == 0 {
                            assert(terminate_count(self.channel@) == 0);
                        }
                    }
                    let ghost q_pre = self.channel@;
                    let ghost inv_pre = self.invoked@;
                    let ghost ws_pre = self.workers@;
                    let m = self.channel.receive();
                    match m {
                        Message::NewJob(j) => {
                            self.invoked.push(j);
                            proof {
                                assert(jobs_of(q_pre) == seq![j] + jobs_of(self.channel@));
                                assert(self.invoked@ + jobs_of(self.channel@) =~= inv_pre + (
                                seq![j] + jobs_of(self.channel@)));
                                assert(num_running(self.workers@) >= 1);
                                assert forall|a: int, b: int|
                                    #![trigger self.channel@[a], self.channel@[b]]
                                    0 <= a < b < self.channel@.len() && self.channel@[a]
                                        is Terminate implies self.channel@[b] is Terminate by {
                                    assert(self.channel@[a] == q_pre[a + 1]);
                                    assert(self.channel@[b] == q_pre[b + 1]);
                                }
                            }
                        },
                        Message::Terminate => {
                            let mut wk = self.workers[i];
                            wk.stop();
                            self.workers[i] = wk;
                            proof {
                                crate::worker::lemma_num_running_update(ws_pre, i as int, wk);
                                assert forall|a: int, b: int|
                                    #![trigger self.channel@[a], self.channel@[b]]
                                    0 <= a < b < self.channel@.len() && self.channel@[a]
                                        is Terminate implies self.channel@[b] is Terminate by {
                                    assert(self.channel@[a] == q_pre[a + 1]);
                                    assert(self.channel@[b] == q_pre[b + 1]);
                                }
                                if num_running(self.workers@) == 0 {
                                    assert forall|b: int|
                                        0 <= b < self.channel@.len() implies (
                                    #[trigger] self.channel@[b]) is Terminate by {
                                        assert(q_pre[0] is Terminate);
                                        assert(self.channel@[b] == q_pre[b + 1]);
                                    }
                                }
                            }
                        },
                    }
                },
            }
        }
        let ghost qd = self.channel@;
        let ghost invd = self.invoked@;
        proof {
            if r0 > 0 {
                crate::message::lemma_all_terminates(qd);
                assert(invd + Seq::<J>::empty() =~= invd);
                assert(qd.len() == ws0.len() - r0);
            }
            crate::worker::lemma_num_running_zero(self.workers@);
        }
        // Phase two: join every worker thread, taking each handle exactly
        // once; the real join happens where the real threads live.
        let mut i: usize = 0;
        while i < n
            invariant
                i <= n,
                n == ws0.len(),
                self.workers@.len() == ws0.len(),
                self.disposed == false,
                self.channel@ == qd,
                self.invoked@ == invd,
                forall|j: int|
                    0 <= j < ws0.len() ==> !((#[trigger] self.workers@[j]).state is Running),
                forall|j: int| 0 <= j < i ==> #[trigger] self.workers@[j] == spec_joined(ws0[j]),
                forall|j: int|
                    i <= j < ws0.len() ==> (#[trigger] self.workers@[j]).id == ws0[j].id,
            decreases n - i,
        {
            let mut wk = self.workers[i];
            let _ = wk.take_thread();
            self.workers[i] = wk;
            i = i + 1;
        }
        self.disposed = true;
        proof {
            crate::worker::lemma_num_running_zero(self.workers@);
            assert(self@.workers =~= spec_dispose(old(self)@).workers);
            if r0 > 0 {
                assert(self@.queue =~= spec_dispose(old(self)@).queue);
                assert(self@.invoked == spec_dispose(old(self)@).invoked);
            }
        }
    }
}

/// A whole run of submissions: each job of `jobs`, in order, submitted to the
/// pool.
pub open spec fn spec_execute_all<J>(p: PoolModel<J>, jobs: Seq<J>) -> PoolModel<J>
    decreases jobs.len(),
{
    if jobs.len() == 0 {
        p
    } else {
        spec_execute_all(spec_execute(p, jobs[0]), jobs.drop_first())
    }
}

/// Submissions only grow the queue: a run of submissions appends one job
/// message per job, in submission order, and changes nothing else.
pub proof fn lemma_execute_all<J>(p: PoolModel<J>, jobs: Seq<J>)
    ensures
        spec_execute_all(p, jobs) == (PoolModel {
            queue: p.queue + jobs.map_values(|j: J| Message::NewJob(j)),
            ..p
        }),
    decreases jobs.len(),
{
    let msgs = jobs.map_values(|j: J| Message::NewJob(j));
    if jobs.len() == 0 {
        assert(p.queue + msgs =~= p.queue);
        assert(spec_execute_all(p, jobs) =~= (PoolModel { queue: p.queue + msgs, ..p }));
    } else {
        let p1 = spec_execute(p, jobs[0]);
        lemma_execute_all(p1, jobs.drop_first());
        let tailmsgs = jobs.drop_first().map_values(|j: J| Message::NewJob(j));
        assert(p1.queue + tailmsgs =~= p.queue + msgs);
        assert(spec_execute_all(p, jobs) =~= (PoolModel { queue: p.queue + msgs, ..p }));
    }
}

/// A queue made of job messages only carries exactly those jobs, in order.
pub proof fn lemma_jobs_of_job_messages<J>(jobs: Seq<J>)
    ensures
        jobs_of(jobs.map_values(|j: J| Message::NewJob(j))) == jobs,
    decreases jobs.len(),
{
    let msgs = jobs.map_values(|j: J| Message::NewJob(j));
    if jobs.len() == 0 {
        assert(jobs_of(msgs) =~= jobs);
    } else {
        lemma_jobs_of_job_messages(jobs.drop_first());
        assert(msgs.drop_first() =~= jobs.drop_first().map_values(|j: J| Message::NewJob(j)));
        assert(msgs[0] == Message::NewJob(jobs[0]));
        assert(jobs_of(msgs) == seq![jobs[0]] + jobs.drop_first());
        assert(seq![jobs[0]] + jobs.drop_first() =~= jobs);
    }
}

/// Law: every job submitted to a live pool is invoked exactly once by the
/// time disposal completes — no job lost, none run twice. For any pool size
/// `s >= 1` and any finite sequence of submissions `jobs`, the invocation log
/// after disposal is exactly `jobs`: each submitted job appears in it with
/// the multiplicity it was submitted with.
pub proof fn law_every_job_invoked_exactly_once<J>(s: usize, jobs: Seq<J>)
    requires
        1 <= s,
    ensures
        spec_dispose(spec_execute_all(spec_new::<J>(s as nat), jobs)).invoked == jobs,
{
    let p0 = spec_new::<J>(s as nat);
    lemma_execute_all(p0, jobs);
    let p1 = spec_execute_all(p0, jobs);
    assert(forall|i: int|
        0 <= i < p0.workers.len() ==> (#[trigger] p0.workers[i]).state is Running);
    crate::worker::lemma_num_running_full(p0.workers);
    assert(num_running(p1.workers) == s);
    lemma_jobs_of_job_messages(jobs);
    assert(p1.queue =~= jobs.map_values(|j: J| Message::NewJob(j)));
    assert(spec_dispose(p1).invoked =~= jobs);
}

/// Law: a pool of one worker is a strict first-in first-out single-consumer
/// queue — jobs are invoked in submission order. (The model hands every
/// dequeue out in channel order, so the log preserves submission order for
/// every pool size; one worker is the case in which the running system, too,
/// has no concurrent invocations that could finish out of order.)
pub proof fn law_single_worker_fifo<J>(jobs: Seq<J>)
    ensures
        spec_dispose(spec_execute_all(spec_new::<J>(1), jobs)).invoked == jobs,
{
    law_every_job_invoked_exactly_once::<J>(1, jobs);
}

/// Law: once disposal returns, no worker is running and every worker's
/// thread has been joined — its handle slot is empty. Disposal itself always
/// terminates: every loop of `dispose` carries a decreases measure, which
/// Verus checks, so no schedule of prior submissions can deadlock it.
pub proof fn law_disposal_stops_and_joins_all<J>(p: PoolModel<J>)
    requires
        wf_model(p),
    ensures
        num_running(spec_dispose(p).workers) == 0,
        spec_dispose(p).disposed,
        forall|i: int|
            0 <= i < spec_dispose(p).workers.len() ==> (#[trigger] spec_dispose(
                p,
            ).workers[i]).state is Stopped && spec_dispose(p).workers[i].thread is None,
{
    let q = spec_dispose(p);
    if p.disposed {
        crate::worker::lemma_num_running_zero(p.workers);
    } else {
        assert(forall|i: int|
            0 <= i < q.workers.len() ==> (#[trigger] q.workers[i]) == spec_joined(p.workers[i]));
        crate::worker::lemma_num_running_zero(q.workers);
    }
}

/// Law: disposing a pool with zero pending jobs still cleanly joins all `s`
/// worker threads: nothing is invoked, the channel ends empty, and every
/// handle slot is cleared.
pub proof fn law_dispose_empty_pool<J>(s: usize)
    ensures
        spec_dispose(spec_new::<J>(s as nat)).invoked == Seq::<J>::empty(),
        spec_dispose(spec_new::<J>(s as nat)).queue == Seq::<Message<J>>::empty(),
        forall|i: int|
            0 <= i < s ==> (#[trigger] spec_dispose(spec_new::<J>(s as nat)).workers[i]).thread
                is None,
{
    let p = spec_new::<J>(s as nat);
    crate::worker::lemma_num_running_full(p.workers);
    crate::message::lemma_all_terminates(terminates_seq::<J>(0));
    if s == 0 {
        assert(spec_dispose(p).queue =~= Seq::<Message<J>>::empty());
    } else {
        assert(spec_dispose(p).queue =~= Seq::<Message<J>>::empty());
        assert(spec_dispose(p).invoked =~= Seq::<J>::empty());
    }
}

/// Law: disposal is idempotent — disposing an already-disposed pool changes
/// nothing, so a second disposal is a safe no-op.
pub proof fn law_dispose_idempotent<J>(p: PoolModel<J>)
    ensures
        spec_dispose(spec_dispose(p)) == spec_dispose(p),
{
}

/// Law: no step loses or duplicates work. The jobs already invoked together
/// with the jobs still queued are preserved by every step whose job runs to
/// completion, and by disposing a pool that still has a running worker — so
/// under any schedule of steps ending in disposal, every submitted job is
/// invoked exactly once.
pub proof fn law_steps_preserve_work<J>(p: PoolModel<J>, w: int)
    requires
        0 <= w < p.workers.len(),
    ensures
        spec_step(p, w, true).invoked + jobs_of(spec_step(p, w, true).queue) == p.invoked
            + jobs_of(p.queue),
        !p.disposed && num_running(p.workers) > 0 ==> spec_dispose(p).invoked + jobs_of(
            spec_dispose(p).queue,
        ) == p.invoked + jobs_of(p.queue),
{
    if p.queue.len() > 0 {
        match p.queue[0] {
            Message::NewJob(j) => {
                assert(p.invoked.push(j) + jobs_of(p.queue.drop_first()) =~= p.invoked + (seq![j]
                    + jobs_of(p.queue.drop_first())));
            },
            Message::Terminate => {},
        }
    }
    if !p.disposed && num_running(p.workers) > 0 {
        let n = p.workers.len();
        let r = num_running(p.workers);
        crate::message::lemma_all_terminates(terminates_seq::<J>((n - r) as nat));
        assert((p.invoked + jobs_of(p.queue)) + Seq::<J>::empty() =~= p.invoked + jobs_of(
            p.queue,
        ));
    }
}

/// Law: a job whose body fails stops the worker that invoked it — and only
/// that worker. Invocation is isolated: the failure neither reaches the
/// shared channel nor any other worker's state, so the rest of the pool keeps
/// dequeuing.
pub proof fn law_failed_job_stops_only_its_worker<J>(p: PoolModel<J>, w: int)
    requires
        0 <= w < p.workers.len(),
        p.queue.len() > 0,
        p.queue[0] is NewJob,
    ensures
        spec_step(p, w, false).workers[w].state is Stopped,
        forall|i: int|
            0 <= i < p.workers.len() && i != w ==> spec_step(p, w, false).workers[i]
                == p.workers[i],
        spec_step(p, w, false).invoked == p.invoked,
        spec_step(p, w, false).queue == p.queue.drop_first(),
{
}

} // verus!
