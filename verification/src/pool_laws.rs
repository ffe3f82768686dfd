//! What holds of a worker pool under every schedule.

use vstd::prelude::*;
use crate::job::{Job, Outcome, job_ids, result_ids};
use crate::pool::{
    PoolView, Turn, WorkerState, after_crash, after_publish, after_take, after_turns, crashed,
    in_flight, lemma_in_flight_update, lemma_none_in_flight,
};

verus! {

broadcast use {vstd::multiset::group_multiset_axioms, vstd::seq_lib::group_to_multiset_ensures};

/// Asking for a job changes neither the set of accepted jobs nor their
/// order, and keeps a consistent pool consistent, whichever worker asks.
pub proof fn lemma_take_keeps_consistency(v: PoolView, w: int)
    requires
        v.consistent(),
        0 <= w < v.workers.len(),
    ensures
        after_take(v, w).consistent(),
        after_take(v, w).accepted() == v.accepted(),
        after_take(v, w).results == v.results,
        after_take(v, w).closed == v.closed,
{
    let n = after_take(v, w);
    if v.workers[w] == WorkerState::Idle && !v.poisoned {
        if v.pending.len() > 0 {
            lemma_in_flight_update(v.workers, w, WorkerState::Busy(v.pending[0]));
            assert(n.answered.to_multiset().add(in_flight(n.workers)) =~= n.taken.to_multiset());
            assert(n.accepted() =~= v.accepted());
        } else if v.closed {
            lemma_in_flight_update(v.workers, w, WorkerState::Terminated);
            assert(in_flight(n.workers) =~= in_flight(v.workers));
        }
    }
}

/// Publishing a result keeps a consistent pool consistent, whatever the
/// handler returned, and touches neither the queue nor the jobs taken.
pub proof fn lemma_publish_keeps_consistency(v: PoolView, w: int, outcome: Outcome)
    requires
        v.consistent(),
        0 <= w < v.workers.len(),
    ensures
        after_publish(v, w, outcome).consistent(),
        after_publish(v, w, outcome).accepted() == v.accepted(),
        after_publish(v, w, outcome).pending == v.pending,
        after_publish(v, w, outcome).closed == v.closed,
{
    let n = after_publish(v, w, outcome);
    match v.workers[w] {
        WorkerState::Busy(job) => {
            lemma_in_flight_update(v.workers, w, WorkerState::Idle);
            assert(result_ids(n.results) =~= result_ids(v.results).push(job.id));
            assert(job_ids(n.answered) =~= job_ids(v.answered).push(job.id));
            assert(n.answered.to_multiset().add(in_flight(n.workers)) =~= n.taken.to_multiset());
        },
        _ => {},
    }
}

/// A worker's crash keeps a consistent pool consistent and loses no job:
/// what the worker held is still counted among the jobs in flight, and the
/// queue, the jobs taken and the results are as before.
pub proof fn lemma_crash_keeps_consistency(v: PoolView, w: int, held_receiver_lock: bool)
    requires
        v.consistent(),
        0 <= w < v.workers.len(),
    ensures
        after_crash(v, w, held_receiver_lock).consistent(),
        after_crash(v, w, held_receiver_lock).accepted() == v.accepted(),
        after_crash(v, w, held_receiver_lock).results == v.results,
        after_crash(v, w, held_receiver_lock).closed == v.closed,
        in_flight(after_crash(v, w, held_receiver_lock).workers) == in_flight(v.workers),
        v.workers[w] == WorkerState::Idle || v.workers[w] is Busy ==> after_crash(
            v,
            w,
            held_receiver_lock,
        ).any_crashed(),
{
    let n = after_crash(v, w, held_receiver_lock);
    match v.workers[w] {
        WorkerState::Idle => {
            lemma_in_flight_update(v.workers, w, WorkerState::Crashed);
            assert(crashed(n.workers[w]));
        },
        WorkerState::Busy(job) => {
            lemma_in_flight_update(v.workers, w, WorkerState::CrashedHolding(job));
            assert(crashed(n.workers[w]));
        },
        _ => {},
    }
}

/// Whatever the schedule, a consistent pool stays consistent, accepts
/// nothing and loses nothing, keeps its workers, and stays closed once it
/// is closed.
pub proof fn lemma_schedule_keeps_consistency(v: PoolView, schedule: Seq<Turn>)
    requires
        v.consistent(),
    ensures
        after_turns(v, schedule).consistent(),
        after_turns(v, schedule).accepted() == v.accepted(),
        after_turns(v, schedule).workers.len() == v.workers.len(),
        after_turns(v, schedule).closed == v.closed,
    decreases schedule.len(),
{
    if schedule.len() > 0 {
        lemma_schedule_keeps_consistency(v, schedule.drop_last());
        let before = after_turns(v, schedule.drop_last());
        match schedule.last() {
            Turn::Take { worker } => {
                if 0 <= worker < before.workers.len() {
                    lemma_take_keeps_consistency(before, worker);
                }
            },
            Turn::Publish { worker, outcome } => {
                if 0 <= worker < before.workers.len() {
                    lemma_publish_keeps_consistency(before, worker, outcome);
                }
            },
            Turn::Crash { worker, held_receiver_lock } => {
                if 0 <= worker < before.workers.len() {
                    lemma_crash_keeps_consistency(before, worker, held_receiver_lock);
                }
            },
        }
    }
}

/// If a pool is closed while jobs remain buffered, then under every
/// schedule all of them are taken by workers before any worker sees the
/// channel closed: in a state in which a worker has terminated, the queue is
/// empty and the jobs taken are all the jobs ever accepted.
pub proof fn lemma_closed_backlog_is_delivered(v: PoolView, schedule: Seq<Turn>, w: int)
    requires
        v.consistent(),
        0 <= w < v.workers.len(),
        after_turns(v, schedule).workers[w] == WorkerState::Terminated,
    ensures
        after_turns(v, schedule).closed,
        after_turns(v, schedule).pending.len() == 0,
        after_turns(v, schedule).taken == v.accepted(),
{
    lemma_schedule_keeps_consistency(v, schedule);
    let n = after_turns(v, schedule);
    assert(n.accepted() =~= n.taken);
}

/// Under every schedule that drains the queue and leaves no worker busy,
/// each job accepted has exactly one result: there are as many results as
/// accepted jobs, and each identifier appears in the results exactly as
/// often as among the accepted jobs.
pub proof fn lemma_every_schedule_answers_every_job(v: PoolView, schedule: Seq<Turn>)
    requires
        v.consistent(),
        after_turns(v, schedule).pending.len() == 0,
        after_turns(v, schedule).none_in_flight(),
    ensures
        after_turns(v, schedule).results.len() == v.accepted().len(),
        result_ids(after_turns(v, schedule).results).to_multiset() == job_ids(
            v.accepted(),
        ).to_multiset(),
        job_ids(v.accepted()).no_duplicates() ==> result_ids(
            after_turns(v, schedule).results,
        ).no_duplicates(),
{
    lemma_schedule_keeps_consistency(v, schedule);
    lemma_one_result_per_job(after_turns(v, schedule));
}

/// A worker terminates once: under every schedule, a worker that has
/// terminated stays terminated, and one that has crashed stays crashed.
pub proof fn lemma_terminated_for_good(v: PoolView, schedule: Seq<Turn>, w: int)
    requires
        0 <= w < v.workers.len(),
        v.workers[w] == WorkerState::Terminated || crashed(v.workers[w]),
    ensures
        after_turns(v, schedule).workers.len() == v.workers.len(),
        after_turns(v, schedule).workers[w] == v.workers[w],
    decreases schedule.len(),
{
    if schedule.len() > 0 {
        lemma_terminated_for_good(v, schedule.drop_last(), w);
    }
}

/// Two sequences of jobs that hold the same jobs, each as often as the
/// other, hold the same identifiers, each as often as the other.
pub proof fn lemma_same_jobs_same_ids(first: Seq<Job>, second: Seq<Job>)
    requires
        first.to_multiset() == second.to_multiset(),
    ensures
        job_ids(first).to_multiset() == job_ids(second).to_multiset(),
    decreases first.len(),
{
    assert(first.len() == first.to_multiset().len());
    assert(second.len() == second.to_multiset().len());
    if first.len() == 0 {
        assert(job_ids(first) =~= job_ids(second));
    } else {
        let x = first.last();
        assert(first.contains(x));
        assert(second.to_multiset().count(x) > 0);
        assert(second.contains(x));
        let j = choose|j: int| 0 <= j < second.len() && second[j] == x;
        let rest = second.remove(j);
        assert(first.drop_last() =~= first.remove(first.len() - 1));
        assert(first.drop_last().to_multiset() =~= rest.to_multiset());
        lemma_same_jobs_same_ids(first.drop_last(), rest);
        assert(job_ids(first) =~= job_ids(first.drop_last()).push(x.id));
        assert(job_ids(rest) =~= job_ids(second).remove(j));
        assert(job_ids(second)[j] == x.id);
        assert(job_ids(second).to_multiset() =~= job_ids(rest).to_multiset().insert(x.id));
    }
}

/// No loss and no duplication: once the backlog of a consistent pool is
/// drained and no worker holds a job, there are exactly as many results as
/// accepted jobs, and each identifier appears in the results exactly as
/// often as among the accepted jobs. Where the accepted jobs have distinct
/// identifiers, each identifier appears in exactly one result.
pub proof fn lemma_one_result_per_job(v: PoolView)
    requires
        v.consistent(),
        v.pending.len() == 0,
        v.none_in_flight(),
    ensures
        v.results.len() == v.accepted().len(),
        result_ids(v.results).to_multiset() == job_ids(v.accepted()).to_multiset(),
        job_ids(v.accepted()).no_duplicates() ==> result_ids(v.results).no_duplicates(),
{
    assert(v.accepted() =~= v.taken);
    lemma_none_in_flight(v.workers);
    assert(v.answered.to_multiset() =~= v.taken.to_multiset());
    lemma_same_jobs_same_ids(v.answered, v.taken);
    assert(v.answered.len() == v.answered.to_multiset().len());
    assert(v.taken.len() == v.taken.to_multiset().len());
    assert(result_ids(v.results).len() == job_ids(v.answered).len());
    if job_ids(v.accepted()).no_duplicates() {
        job_ids(v.accepted()).lemma_multiset_has_no_duplicates();
        result_ids(v.results).lemma_multiset_has_no_duplicates_conv();
    }
}

/// A worker sees `Closed` only after the backlog: while a job is buffered,
/// no worker of a consistent pool has terminated, and an idle worker that
/// asks gets the job at the head and does not terminate.
pub proof fn lemma_backlog_before_termination(v: PoolView, w: int)
    requires
        v.consistent(),
        0 <= w < v.workers.len(),
        v.pending.len() > 0,
    ensures
        forall|u: int| 0 <= u < v.workers.len() ==> v.workers[u] != WorkerState::Terminated,
        forall|u: int|
            0 <= u < v.workers.len() ==> after_take(v, w).workers[u] != WorkerState::Terminated,
        v.workers[w] == WorkerState::Idle && !v.poisoned ==> after_take(v, w).workers[w]
            == WorkerState::Busy(v.pending[0]) && after_take(v, w).pending.len() == v.pending.len()
            - 1,
{
}

} // verus!
