//! One worker of the pool: its state machine and its thread-handle slot.

use vstd::prelude::*;

verus! {

/// Stands for ownership of one worker's execution thread. The real handle
/// lives with the unverified runtime; here the value only records who may
/// still join that thread.
#[derive(Clone, Copy)]
pub struct ThreadHandle {}

/// A worker either still loops on the channel or has seen its terminate
/// signal and exited the loop.
#[derive(Clone, Copy)]
pub enum WorkerState {
    Running,
    Stopped,
}

/// One worker: an ordinal identity for diagnostics, the state of its loop,
/// and an owned, cleared-on-take slot for its thread handle. The slot is what
/// makes joining idempotent: once the handle is taken for a join, a second
/// disposal finds the slot empty and does nothing.
#[derive(Clone, Copy)]
pub struct Worker {
    pub id: usize,
    pub state: WorkerState,
    pub thread: Option<ThreadHandle>,
}

/// How many workers of the sequence are still running.
pub open spec fn num_running(ws: Seq<Worker>) -> nat
    decreases ws.len(),
{
    if ws.len() == 0 {
        0
    } else {
        (if ws[0].state is Running {
            1nat
        } else {
            0nat
        }) + num_running(ws.drop_first())
    }
}

/// One where the worker is running, zero where it is not.
pub open spec fn running_one(w: Worker) -> nat {
    if w.state is Running {
        1
    } else {
        0
    }
}

/// Replacing one worker changes the running count by exactly the difference
/// between the new worker's state and the old one's.
pub proof fn lemma_num_running_update(ws: Seq<Worker>, i: int, w: Worker)
    requires
        0 <= i < ws.len(),
    ensures
        num_running(ws.update(i, w)) + running_one(ws[i]) == num_running(ws) + running_one(w),
    decreases ws.len(),
{
    if i == 0 {
        assert(ws.update(0, w).drop_first() =~= ws.drop_first());
    } else {
        assert(ws.update(i, w).drop_first() =~= ws.drop_first().update(i - 1, w));
        lemma_num_running_update(ws.drop_first(), i - 1, w);
    }
}

/// No worker is running exactly when the running count is zero.
pub proof fn lemma_num_running_zero(ws: Seq<Worker>)
    ensures
        num_running(ws) == 0 <==> (forall|i: int|
            0 <= i < ws.len() ==> !((#[trigger] ws[i]).state is Running)),
    decreases ws.len(),
{
    if ws.len() > 0 {
        lemma_num_running_zero(ws.drop_first());
        if num_running(ws) == 0 {
            assert forall|i: int|
                0 <= i < ws.len() implies !((#[trigger] ws[i]).state is Running) by {
                if i > 0 {
                    assert(ws[i] == ws.drop_first()[i - 1]);
                }
            }
        } else {
            if ws[0].state is Running {
            } else {
                let k = choose|i: int|
                    0 <= i < ws.drop_first().len() && (#[trigger] ws.drop_first()[i]).state
                        is Running;
                assert(ws[k + 1].state is Running);
            }
        }
    }
}

/// When every worker is running, the running count is the worker count.
pub proof fn lemma_num_running_full(ws: Seq<Worker>)
    requires
        forall|i: int| 0 <= i < ws.len() ==> (#[trigger] ws[i]).state is Running,
    ensures
        num_running(ws) == ws.len(),
    decreases ws.len(),
{
    if ws.len() > 0 {
        assert(forall|i: int|
            0 <= i < ws.drop_first().len() ==> #[trigger] ws.drop_first()[i] == ws[i + 1]);
        lemma_num_running_full(ws.drop_first());
    }
}

/// The running count never exceeds the worker count.
pub proof fn lemma_num_running_le_len(ws: Seq<Worker>)
    ensures
        num_running(ws) <= ws.len(),
    decreases ws.len(),
{
    if ws.len() > 0 {
        lemma_num_running_le_len(ws.drop_first());
    }
}

impl Worker {
    /// A freshly spawned worker: running, with its thread handle in the slot.
    pub fn new(id: usize) -> (w: Worker)
        ensures
            w == (Worker { id, state: WorkerState::Running, thread: Some(ThreadHandle {}) }),
    {
        Worker { id, state: WorkerState::Running, thread: Some(ThreadHandle {}) }
    }

    /// The worker's loop exits: it received its terminate signal, or its job
    /// failed and took the thread down. The thread handle stays in the slot
    /// until the shutdown protocol joins it.
    pub fn stop(&mut self)
        ensures
            *final(self) == (Worker {
                id: old(self).id,
                state: WorkerState::Stopped,
                thread: old(self).thread,
            }),
    {
        self.state = WorkerState::Stopped;
    }

    /// Take the thread handle out for joining. The slot is cleared, so taking
    /// it a second time yields nothing: repeated disposal never joins the
    /// same thread twice.
    pub fn take_thread(&mut self) -> (h: Option<ThreadHandle>)
        ensures
            *final(self) == (Worker { id: old(self).id, state: old(self).state, thread: None }),
            h == old(self).thread,
    {
        let h = self.thread;
        self.thread = None;
        h
    }
}

} // verus!
