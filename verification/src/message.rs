//! The unit carried by the work channel: a job to run, or the instruction to
//! stop, together with the spec-level accounting of message queues that the
//! shutdown proof rests on.

use vstd::prelude::*;

verus! {

/// What the work channel transports. `J` is the job payload, opaque to the
/// pool: the pool never looks inside a job, it only hands it to exactly one
/// worker.
pub enum Message<J> {
    /// A job for some worker to invoke exactly once.
    NewJob(J),
    /// The instruction for exactly one worker to stop consuming and exit.
    Terminate,
}

/// The job payloads of a queue, in queue order, with terminate signals
/// skipped.
pub open spec fn jobs_of<J>(q: Seq<Message<J>>) -> Seq<J>
    decreases q.len(),
{
    if q.len() == 0 {
        Seq::empty()
    } else {
        match q[0] {
            Message::NewJob(j) => seq![j] + jobs_of(q.drop_first()),
            Message::Terminate => jobs_of(q.drop_first()),
        }
    }
}

/// How many terminate signals a queue holds.
pub open spec fn terminate_count<J>(q: Seq<Message<J>>) -> nat
    decreases q.len(),
{
    if q.len() == 0 {
        0
    } else {
        (if q[0] is Terminate {
            1nat
        } else {
            0nat
        }) + terminate_count(q.drop_first())
    }
}

/// Every message of the queue is a terminate signal.
pub open spec fn all_terminates<J>(q: Seq<Message<J>>) -> bool {
    forall|i: int| 0 <= i < q.len() ==> q[i] is Terminate
}

/// No job follows a terminate signal: the queue is a block of jobs followed
/// by a block of terminate signals. This is the shape the channel has during
/// shutdown, when the pool appends its terminate signals after all pending
/// jobs.
pub open spec fn jobs_then_terminates<J>(q: Seq<Message<J>>) -> bool {
    forall|i: int, j: int|
        #![trigger q[i], q[j]]
        0 <= i < j < q.len() && q[i] is Terminate ==> q[j] is Terminate
}

/// A queue of one message carries that message's payload, if any, and one
/// terminate signal exactly when the message is one.
pub proof fn lemma_singleton<J>(m: Message<J>)
    ensures
        jobs_of(seq![m]) == (match m {
            Message::NewJob(j) => seq![j],
            Message::Terminate => Seq::<J>::empty(),
        }),
        terminate_count(seq![m]) == (if m is Terminate {
            1nat
        } else {
            0nat
        }),
{
    let s = seq![m];
    assert(s.drop_first() =~= Seq::<Message<J>>::empty());
    assert(jobs_of(s.drop_first()) == Seq::<J>::empty());
    assert(terminate_count(s.drop_first()) == 0);
    match m {
        Message::NewJob(j) => {
            assert(jobs_of(s) == seq![j] + jobs_of(s.drop_first()));
            assert(seq![j] + Seq::<J>::empty() =~= seq![j]);
        },
        Message::Terminate => {
            assert(jobs_of(s) == jobs_of(s.drop_first()));
        },
    }
}

/// The job log and the terminate count both distribute over concatenation.
pub proof fn lemma_concat<J>(a: Seq<Message<J>>, b: Seq<Message<J>>)
    ensures
        jobs_of(a + b) == jobs_of(a) + jobs_of(b),
        terminate_count(a + b) == terminate_count(a) + terminate_count(b),
    decreases a.len(),
{
    if a.len() == 0 {
        assert(a + b =~= b);
        assert(jobs_of(a) + jobs_of(b) =~= jobs_of(b));
    } else {
        assert((a + b).drop_first() =~= a.drop_first() + b);
        lemma_concat(a.drop_first(), b);
        assert((a + b)[0] == a[0]);
        match a[0] {
            Message::NewJob(j) => {
                assert(jobs_of(a + b) == seq![j] + (jobs_of(a.drop_first()) + jobs_of(b)));
                assert(seq![j] + (jobs_of(a.drop_first()) + jobs_of(b)) =~= (seq![j] + jobs_of(
                    a.drop_first(),
                )) + jobs_of(b));
            },
            Message::Terminate => {
                assert(jobs_of(a + b) == jobs_of(a.drop_first()) + jobs_of(b));
            },
        }
    }
}

/// Appending one message extends the job log by that message's payload, if
/// any, and the terminate count by one exactly when the message is a
/// terminate signal.
pub proof fn lemma_push<J>(q: Seq<Message<J>>, m: Message<J>)
    ensures
        jobs_of(q.push(m)) == jobs_of(q) + (match m {
            Message::NewJob(j) => seq![j],
            Message::Terminate => Seq::<J>::empty(),
        }),
        terminate_count(q.push(m)) == terminate_count(q) + (if m is Terminate {
            1nat
        } else {
            0nat
        }),
{
    assert(q.push(m) =~= q + seq![m]);
    lemma_concat(q, seq![m]);
    lemma_singleton(m);
}

/// A queue without terminate signals holds jobs only.
pub proof fn lemma_terminate_count_zero<J>(q: Seq<Message<J>>)
    requires
        terminate_count(q) == 0,
    ensures
        forall|i: int| 0 <= i < q.len() ==> q[i] is NewJob,
    decreases q.len(),
{
    if q.len() > 0 {
        lemma_terminate_count_zero(q.drop_first());
        assert forall|i: int| 0 <= i < q.len() implies q[i] is NewJob by {
            if i > 0 {
                assert(q[i] == q.drop_first()[i - 1]);
            }
        }
    }
}

/// A queue of terminate signals only carries no jobs, and its terminate count
/// is its length.
pub proof fn lemma_all_terminates<J>(q: Seq<Message<J>>)
    requires
        all_terminates(q),
    ensures
        jobs_of(q) == Seq::<J>::empty(),
        terminate_count(q) == q.len(),
    decreases q.len(),
{
    if q.len() > 0 {
        assert forall|i: int|
            0 <= i < q.drop_first().len() implies (#[trigger] q.drop_first()[i]) is Terminate by {
            assert(q.drop_first()[i] == q[i + 1]);
        }
        lemma_all_terminates(q.drop_first());
        assert(q[0] is Terminate);
        assert(jobs_of(q) =~= Seq::<J>::empty());
    }
}

} // verus!
