//! Orderly termination: close the input, drain the backlog, join every worker.

use vstd::prelude::*;
use crate::channel::ChannelView;
use crate::job::{DispatchError, Job, JobResult, Outcome};
use crate::pool::{PoolView, WorkerPool, WorkerState, crashed, handled_by, holds_job, spawn_pool};

verus! {

/// The aggregate statistics that a shutdown returns.
#[derive(Clone, Copy, Debug, PartialEq, Eq, Structural)]
pub struct ShutdownSummary {
    /// The number of jobs processed over the pool's whole life.
    pub jobs_processed: usize,
    /// The value of the shared counter once every worker has terminated.
    pub final_counter_value: i64,
    /// The number of workers that were joined.
    pub workers_joined: usize,
}

/// The summary that shutting down a pool in state `v` returns.
pub open spec fn summary_after_shutdown(v: PoolView) -> ShutdownSummary {
    ShutdownSummary {
        jobs_processed: v.accepted().len() as usize,
        final_counter_value: v.accepted().len() as i64,
        workers_joined: v.workers.len() as usize,
    }
}

/// Closes the pool's channel, lets the workers finish the jobs that they
/// hold and drain the backlog in turn, and joins each of them once it has
/// seen the channel closed and empty.
///
/// No buffered job is discarded: when the call returns a summary, every job
/// that the pool has ever accepted has its result, and every worker has
/// terminated. Where no job was in flight at the call and the results so
/// far had come in arrival order, all results are in arrival order.
///
/// The call fails, after it has closed the channel and without taking any
/// job or running the handler, with `LockUnavailable` if the receiver's
/// lock is poisoned, and else with `JoinFailure` if a worker has ended
/// abnormally, whether it held a job then or not.
pub fn close_and_join<H: Fn(Job) -> Outcome>(pool: &mut WorkerPool<H>) -> (r: Result<
    ShutdownSummary,
    DispatchError,
>)
    requires
        old(pool).wf(),
        old(pool)@.accepted().len() <= i64::MAX,
    ensures
        final(pool).wf(),
        final(pool).handler() == old(pool).handler(),
        final(pool)@.closed,
        final(pool)@.accepted() == old(pool)@.accepted(),
        final(pool).channel() == (ChannelView {
            pending: final(pool)@.pending,
            closed: true,
            ..old(pool).channel()
        }),
        old(pool)@.poisoned ==> r == Err::<ShutdownSummary, DispatchError>(
            DispatchError::LockUnavailable,
        ),
        !old(pool)@.poisoned && old(pool)@.any_crashed() ==> r == Err::<
            ShutdownSummary,
            DispatchError,
        >(DispatchError::JoinFailure),
        !old(pool)@.poisoned && !old(pool)@.any_crashed() ==> r == Ok::<
            ShutdownSummary,
            DispatchError,
        >(summary_after_shutdown(old(pool)@)),
        r is Err ==> final(pool)@ == (PoolView { closed: true, ..old(pool)@ }),
        r is Ok ==> {
            &&& final(pool)@.pending.len() == 0
            &&& final(pool)@.taken == old(pool)@.accepted()
            &&& final(pool)@.counter == old(pool)@.accepted().len()
            &&& final(pool)@.workers.len() == old(pool)@.workers.len()
            &&& final(pool)@.all_terminated()
            &&& final(pool)@.results.len() == old(pool)@.accepted().len()
            &&& final(pool)@.answered.len() == old(pool)@.accepted().len()
            &&& final(pool)@.answered.to_multiset() == old(pool)@.accepted().to_multiset()
            &&& old(pool)@.answered == old(pool)@.taken ==> final(pool)@.answered == old(
                pool,
            )@.accepted()
            &&& final(pool)@.results.subrange(0, old(pool)@.results.len() as int) == old(
                pool,
            )@.results
            &&& forall|i: int|
                0 <= i < final(pool)@.results.len() ==> handled_by(
                    old(pool).handler(),
                    final(pool)@.answered[i],
                    #[trigger] final(pool)@.results[i],
                )
        },
{
    proof {
        pool.lemma_wf();
    }
    pool.close();
    if pool.is_poisoned() {
        return Err(DispatchError::LockUnavailable);
    }
    if pool.any_crashed() {
        return Err(DispatchError::JoinFailure);
    }
    let worker_count = pool.worker_count();
    let mut finished: usize = 0;
    while finished < worker_count
        invariant
            pool.wf(),
            pool.handler() == old(pool).handler(),
            pool@.closed,
            pool.channel() == (ChannelView {
                pending: pool@.pending,
                closed: true,
                ..old(pool).channel()
            }),
            !pool@.poisoned,
            !pool@.any_crashed(),
            pool@.pending == old(pool)@.pending,
            pool@.taken == old(pool)@.taken,
            worker_count == pool@.workers.len(),
            worker_count == old(pool)@.workers.len(),
            finished <= worker_count,
            forall|w: int| 0 <= w < finished ==> !(pool@.workers[w] is Busy),
            old(pool)@.results.len() <= pool@.results.len(),
            pool@.results.subrange(0, old(pool)@.results.len() as int) == old(pool)@.results,
            old(pool)@.answered == old(pool)@.taken ==> pool@.answered == pool@.taken,
            old(pool)@.accepted().len() <= i64::MAX,
        decreases worker_count - finished,
    {
        let ghost before = pool@;
        proof {
            pool.lemma_wf();
            assert(before.accepted().len() == before.taken.len() + before.pending.len());
            if before.answered == before.taken {
                assert(!(before.workers[finished as int] is Busy));
            }
        }
        let done = pool.finish(finished);
        proof {
            pool.lemma_wf();
            assert(pool@.results.subrange(0, old(pool)@.results.len() as int)
                =~= before.results.subrange(0, old(pool)@.results.len() as int));
            assert forall|w: int| 0 <= w < pool@.workers.len() implies !crashed(
                #[trigger] pool@.workers[w],
            ) by {
                assert(!crashed(before.workers[w]));
            }
        }
        finished = finished + 1;
    }
    proof {
        assert forall|w: int| 0 <= w < pool@.workers.len() implies !holds_job(
            #[trigger] pool@.workers[w],
        ) by {
            assert(!crashed(pool@.workers[w]));
            assert(!(pool@.workers[w] is Busy));
        }
    }
    let mut turn: usize = 0;
    while pool.backlog() > 0
        invariant
            pool.wf(),
            pool.handler() == old(pool).handler(),
            pool@.closed,
            pool.channel() == (ChannelView {
                pending: pool@.pending,
                closed: true,
                ..old(pool).channel()
            }),
            !pool@.poisoned,
            !pool@.any_crashed(),
            pool@.none_in_flight(),
            pool@.accepted() == old(pool)@.accepted(),
            worker_count == pool@.workers.len(),
            worker_count == old(pool)@.workers.len(),
            turn < worker_count,
            old(pool)@.results.len() <= pool@.results.len(),
            pool@.results.subrange(0, old(pool)@.results.len() as int) == old(pool)@.results,
            old(pool)@.answered == old(pool)@.taken ==> pool@.answered == pool@.taken,
            old(pool)@.accepted().len() <= i64::MAX,
        decreases pool@.pending.len(),
    {
        let ghost before = pool@;
        proof {
            pool.lemma_wf();
            assert(before.accepted().len() == before.taken.len() + before.pending.len());
            assert(!crashed(before.workers[turn as int]));
            assert(!holds_job(before.workers[turn as int]));
            assert(before.workers[turn as int] == WorkerState::Idle);
        }
        let taken = pool.step(turn);
        proof {
            pool.lemma_wf();
            assert(taken is Ok);
            assert(pool@.workers =~= before.workers);
            assert(pool@.results.subrange(0, old(pool)@.results.len() as int)
                =~= before.results.subrange(0, old(pool)@.results.len() as int));
        }
        turn = if turn + 1 < worker_count {
            turn + 1
        } else {
            0
        };
    }
    let mut joined: usize = 0;
    while joined < worker_count
        invariant
            pool.wf(),
            pool.handler() == old(pool).handler(),
            pool@.closed,
            pool.channel() == (ChannelView {
                pending: pool@.pending,
                closed: true,
                ..old(pool).channel()
            }),
            !pool@.poisoned,
            !pool@.any_crashed(),
            pool@.none_in_flight(),
            pool@.pending.len() == 0,
            pool@.accepted() == old(pool)@.accepted(),
            worker_count == pool@.workers.len(),
            worker_count == old(pool)@.workers.len(),
            joined <= worker_count,
            forall|w: int| 0 <= w < joined ==> pool@.workers[w] == WorkerState::Terminated,
            old(pool)@.results.len() <= pool@.results.len(),
            pool@.results.subrange(0, old(pool)@.results.len() as int) == old(pool)@.results,
            old(pool)@.answered == old(pool)@.taken ==> pool@.answered == pool@.taken,
            old(pool)@.accepted().len() <= i64::MAX,
        decreases worker_count - joined,
    {
        let ghost before = pool@;
        proof {
            pool.lemma_wf();
            assert(!crashed(before.workers[joined as int]));
            assert(!holds_job(before.workers[joined as int]));
        }
        let seen = pool.step(joined);
        proof {
            pool.lemma_wf();
            assert forall|w: int| 0 <= w < pool@.workers.len() implies !crashed(
                #[trigger] pool@.workers[w],
            ) && !holds_job(pool@.workers[w]) by {
                assert(!crashed(before.workers[w]));
                assert(!holds_job(before.workers[w]));
            }
        }
        joined = joined + 1;
    }
    proof {
        pool.lemma_wf();
        assert(pool@.accepted() =~= pool@.taken);
        crate::pool::lemma_none_in_flight(pool@.workers);
        assert(pool@.answered.to_multiset() =~= pool@.taken.to_multiset());
    }
    Ok(
        ShutdownSummary {
            jobs_processed: pool.jobs_processed(),
            final_counter_value: pool.counter_value(),
            workers_joined: joined,
        },
    )
}

/// The whole life of an engine: starts `worker_count` workers around
/// `handler`, submits `jobs` in order, closes the input and joins the
/// workers. Exactly one result comes back for each job, at the job's
/// position and with the job's identifier: no job is lost and none is
/// processed twice.
pub fn run_jobs<H: Fn(Job) -> Outcome>(jobs: &Vec<Job>, worker_count: usize, handler: H) -> (done: (
    ShutdownSummary,
    Vec<JobResult>,
))
    requires
        worker_count > 0,
        jobs@.len() <= i64::MAX,
        forall|job: Job| call_requires(handler, (job,)),
    ensures
        done.0 == (ShutdownSummary {
            jobs_processed: jobs@.len() as usize,
            final_counter_value: jobs@.len() as i64,
            workers_joined: worker_count,
        }),
        done.1@.len() == jobs@.len(),
        forall|i: int| 0 <= i < jobs@.len() ==> handled_by(handler, jobs@[i], #[trigger] done.1@[i]),
{
    let mut pool = spawn_pool(worker_count, handler);
    let mut sent: usize = 0;
    while sent < jobs.len()
        invariant
            sent <= jobs@.len(),
            pool.wf(),
            pool.handler() == handler,
            pool.channel().capacity.is_none(),
            !pool@.closed,
            pool@.pending == jobs@.take(sent as int),
            pool@.taken.len() == 0,
            pool@.answered.len() == 0,
            pool@.results.len() == 0,
            !pool@.poisoned,
            pool@.workers == Seq::new(worker_count as nat, |w: int| WorkerState::Idle),
        decreases jobs@.len() - sent,
    {
        proof {
            pool.lemma_wf();
        }
        let accepted = pool.submit(jobs[sent]);
        assert(accepted is Ok);
        sent = sent + 1;
        assert(pool@.pending =~= jobs@.take(sent as int));
    }
    proof {
        assert(jobs@.take(jobs@.len() as int) =~= jobs@);
        assert(pool@.accepted() =~= jobs@);
    }
    proof {
        assert(!pool@.any_crashed());
        assert(pool@.answered =~= pool@.taken);
    }
    match close_and_join(&mut pool) {
        Ok(summary) => {
            let results = pool.into_results();
            (summary, results)
        },
        Err(_) => vstd::pervasive::unreached(),
    }
}

/// Shutting down a pool whose workers were started on a closed, empty
/// channel joins each of its workers and reports that nothing was processed.
/// (`close_and_join` returns this summary where no worker has crashed.)
pub proof fn lemma_shutdown_of_idle_pool(v: PoolView)
    requires
        v.consistent(),
        v.closed,
        v.pending.len() == 0,
        v.taken.len() == 0,
    ensures
        summary_after_shutdown(v).jobs_processed == 0,
        summary_after_shutdown(v).final_counter_value == 0,
        summary_after_shutdown(v).workers_joined == v.workers.len() as usize,
{
}

} // verus!
