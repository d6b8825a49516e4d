//! Messages carried by the dispatcher, and the spec-level accounting of a
//! message stream: which job tokens it carries and how many terminate
//! sentinels it holds.

use vstd::prelude::*;

verus! {

/// One message flowing from submitters to workers: either a unit of work,
/// identified by the token the caller supplied, or the sentinel that tells
/// exactly one worker to exit its loop.
#[derive(Clone, Copy, PartialEq, Eq, Structural, Debug)]
pub enum Message {
    NewJob(u64),
    Terminate,
}

/// The job tokens carried by the `NewJob` messages of `s`, in stream order.
pub open spec fn jobs_of(s: Seq<Message>) -> Seq<u64>
    decreases s.len(),
{
    if s.len() == 0 {
        Seq::empty()
    } else {
        match s[0] {
            Message::NewJob(j) => seq![j] + jobs_of(s.skip(1)),
            Message::Terminate => jobs_of(s.skip(1)),
        }
    }
}

/// How many terminate sentinels `s` holds.
pub open spec fn terminate_count(s: Seq<Message>) -> nat
    decreases s.len(),
{
    if s.len() == 0 {
        0
    } else {
        (match s[0] {
            Message::NewJob(_) => 0nat,
            Message::Terminate => 1nat,
        }) + terminate_count(s.skip(1))
    }
}

/// What one received message tells a worker to do: run the job it carries,
/// exactly once, or exit the worker loop for good.
#[derive(Clone, Copy, PartialEq, Eq, Structural, Debug)]
pub enum Action {
    Run(u64),
    Exit,
}

/// The worker-loop decision, taken once per received message, after the
/// receive side has been released: a job message is run — never while the
/// shared receive side is held — and the terminate sentinel ends the loop.
pub fn worker_action(m: Message) -> (a: Action)
    ensures
        a == (match m {
            Message::NewJob(j) => Action::Run(j),
            Message::Terminate => Action::Exit,
        }),
{
    match m {
        Message::NewJob(j) => Action::Run(j),
        Message::Terminate => Action::Exit,
    }
}

/// Appending a message on the right extends the job accounting on the right.
pub proof fn lemma_jobs_of_push(s: Seq<Message>, m: Message)
    ensures
        jobs_of(s.push(m)) == (match m {
            Message::NewJob(j) => jobs_of(s).push(j),
            Message::Terminate => jobs_of(s),
        }),
    decreases s.len(),
{
    if s.len() == 0 {
        assert(s =~= Seq::<Message>::empty());
        assert(s.push(m)[0] == m);
        assert(s.push(m).skip(1) =~= Seq::<Message>::empty());
        match m {
            Message::NewJob(j) => {
                assert(jobs_of(s.push(m)) == seq![j] + jobs_of(Seq::<Message>::empty()));
                assert(seq![j] + Seq::<u64>::empty() =~= jobs_of(s).push(j));
            },
            Message::Terminate => {},
        }
    } else {
        assert(s.push(m)[0] == s[0]);
        assert(s.push(m).skip(1) =~= s.skip(1).push(m));
        lemma_jobs_of_push(s.skip(1), m);
        match s[0] {
            Message::NewJob(j0) => {
                match m {
                    Message::NewJob(j) => {
                        assert(jobs_of(s.push(m)) == seq![j0] + jobs_of(s.skip(1)).push(j));
                        assert(seq![j0] + jobs_of(s.skip(1)).push(j) =~= (seq![j0] + jobs_of(
                            s.skip(1),
                        )).push(j));
                    },
                    Message::Terminate => {},
                }
            },
            Message::Terminate => {},
        }
    }
}

/// Appending a message on the right extends the sentinel count on the right.
pub proof fn lemma_terminate_count_push(s: Seq<Message>, m: Message)
    ensures
        terminate_count(s.push(m)) == terminate_count(s) + (match m {
            Message::NewJob(_) => 0nat,
            Message::Terminate => 1nat,
        }),
    decreases s.len(),
{
    if s.len() == 0 {
        assert(s =~= Seq::<Message>::empty());
        assert(s.push(m)[0] == m);
        assert(s.push(m).skip(1) =~= Seq::<Message>::empty());
    } else {
        assert(s.push(m)[0] == s[0]);
        assert(s.push(m).skip(1) =~= s.skip(1).push(m));
        lemma_terminate_count_push(s.skip(1), m);
    }
}

/// Law: whatever is already queued, submitting the jobs of `js` in order
/// leaves a conduit whose job stream is the old one followed by `js` itself.
/// Every submitted job therefore enters the dispatch stream exactly once, in
/// submission order; paired with the shutdown contract, which dispatches the
/// whole remaining job stream, each submitted job is dispatched exactly once.
pub proof fn lemma_submissions_enqueue_each_job_once(q: Seq<Message>, js: Seq<u64>)
    ensures
        jobs_of(q + js.map_values(|j: u64| Message::NewJob(j))) == jobs_of(q) + js,
    decreases js.len(),
{
    if js.len() == 0 {
        assert(q + js.map_values(|j: u64| Message::NewJob(j)) =~= q);
        assert(jobs_of(q) + js =~= jobs_of(q));
    } else {
        let head = js.drop_last();
        let m = Message::NewJob(js.last());
        lemma_submissions_enqueue_each_job_once(q, head);
        lemma_jobs_of_push(q + head.map_values(|j: u64| Message::NewJob(j)), m);
        assert(q + js.map_values(|j: u64| Message::NewJob(j)) =~= (q + head.map_values(
            |j: u64| Message::NewJob(j),
        )).push(m));
        assert(jobs_of(q) + js =~= (jobs_of(q) + head).push(js.last()));
    }
}

/// A stream whose last message is a terminate sentinel holds at least one.
pub proof fn lemma_terminate_at_end_counts(s: Seq<Message>)
    requires
        s.len() > 0,
        s.last() == Message::Terminate,
    ensures
        terminate_count(s) >= 1,
    decreases s.len(),
{
    if s.len() == 1 {
    } else {
        assert(s.skip(1).last() == s.last());
        lemma_terminate_at_end_counts(s.skip(1));
    }
}

} // verus!
