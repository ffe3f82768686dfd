//! A fixed set of workers that compete for the jobs of one channel.
//!
//! A worker's loop has two atomic steps. In [`WorkerPool::take`] it takes at
//! most one job from the shared receiving end: this is the only step that a
//! host runs under the receiver's lock. The worker then runs the handler on
//! the job while it holds no lock, and hands the outcome to
//! [`WorkerPool::publish`]. [`WorkerPool::step`] is one whole turn: take, run
//! the handler, publish. A worker may also end abnormally at any point of its
//! loop: its host says so with [`WorkerPool::report_crash`], and the job that
//! the worker held, if any, stays on record without a result. Which worker
//! takes which step is up to the caller, and what holds under every schedule
//! of such steps is proved in `pool_laws`.

use vstd::prelude::*;
use vstd::multiset::Multiset;
use crate::channel::{Channel, ChannelView, Received};
use crate::counter::SharedCounter;
use crate::job::{DispatchError, Job, JobResult, Outcome, job_ids, result_ids};

verus! {

broadcast use {vstd::multiset::group_multiset_axioms, vstd::seq_lib::group_to_multiset_ensures};

/// Where a worker is in its loop.
#[derive(Clone, Copy, Debug, PartialEq, Eq, Structural)]
pub enum WorkerState {
    /// The worker holds no job and will ask for one.
    Idle,
    /// The worker has taken this job and runs the handler on it.
    Busy(Job),
    /// The worker has seen the channel closed and empty, and has left its loop for good.
    Terminated,
    /// The worker ended abnormally while it held no job, as its host reported.
    Crashed,
    /// The worker ended abnormally while it held this job, as its host
    /// reported. The job has no result and will get none.
    CrashedHolding(Job),
}

/// What a worker got when it asked for a job.
#[derive(Clone, Copy, Debug, PartialEq, Eq, Structural)]
pub enum Taken {
    /// The job at the head of the queue, which the worker now owns.
    Job(Job),
    /// The queue is empty and the channel open: the worker has to wait.
    Waiting,
    /// The worker saw the channel closed and empty, and terminated.
    Terminated,
    /// The worker is not idle: it is busy, or has terminated or crashed. Nothing happened.
    NotIdle,
}

/// What one whole turn of a worker did.
#[derive(Clone, Copy, Debug, PartialEq, Eq, Structural)]
pub enum StepOutcome {
    /// The worker took the job at the head of the queue and published this result.
    Processed(JobResult),
    /// The queue is empty and the channel open: the worker has to wait.
    Waiting,
    /// The worker saw the channel closed and empty, and terminated.
    Terminated,
    /// The worker is not idle: it is busy, or has terminated or crashed. Nothing happened.
    NotIdle,
}

/// What a pool is, as a mathematical value.
pub struct PoolView {
    /// The jobs that wait in the channel, oldest first.
    pub pending: Seq<Job>,
    /// Whether the channel has been closed.
    pub closed: bool,
    /// The jobs that workers have taken so far, in the order in which they left the queue.
    pub taken: Seq<Job>,
    /// The jobs whose results have been published, in the order of publication.
    pub answered: Seq<Job>,
    /// The results published so far, in the order of publication.
    pub results: Seq<JobResult>,
    /// The state of each worker.
    pub workers: Seq<WorkerState>,
    /// The value of the shared counter: the number of jobs processed.
    pub counter: int,
    /// Whether a worker ended abnormally while it held the receiver's lock.
    pub poisoned: bool,
}

/// A fixed-size set of workers around one shared receiving end.
pub struct WorkerPool<H: Fn(Job) -> Outcome> {
    channel: Channel,
    workers: Vec<WorkerState>,
    results: Vec<JobResult>,
    counter: SharedCounter,
    handler: H,
    poisoned: bool,
    taken: Ghost<Seq<Job>>,
    answered: Ghost<Seq<Job>>,
}

/// Whether a worker in this state holds a job that has no result yet.
pub open spec fn holds_job(state: WorkerState) -> bool {
    state is Busy || state is CrashedHolding
}

/// Whether a worker in this state has ended abnormally.
pub open spec fn crashed(state: WorkerState) -> bool {
    state == WorkerState::Crashed || state is CrashedHolding
}

/// The job that a worker in this state holds, if any.
pub open spec fn load(state: WorkerState) -> Multiset<Job> {
    match state {
        WorkerState::Busy(job) => Multiset::singleton(job),
        WorkerState::CrashedHolding(job) => Multiset::singleton(job),
        _ => Multiset::empty(),
    }
}

/// The jobs that the workers hold, crashed workers included: taken, and
/// not answered.
pub open spec fn in_flight(workers: Seq<WorkerState>) -> Multiset<Job>
    decreases workers.len(),
{
    if workers.len() == 0 {
        Multiset::empty()
    } else {
        in_flight(workers.drop_last()).add(load(workers.last()))
    }
}

impl PoolView {
    /// Every job that the pool has accepted so far, in arrival order.
    pub open spec fn accepted(self) -> Seq<Job> {
        self.taken + self.pending
    }

    /// Whether every worker has terminated.
    pub open spec fn all_terminated(self) -> bool {
        forall|w: int| 0 <= w < self.workers.len() ==> self.workers[w] == WorkerState::Terminated
    }

    /// Whether some worker has ended abnormally.
    pub open spec fn any_crashed(self) -> bool {
        exists|w: int| 0 <= w < self.workers.len() && crashed(#[trigger] self.workers[w])
    }

    /// Whether no worker holds a job: none is busy, and none crashed with a
    /// job in its hands.
    pub open spec fn none_in_flight(self) -> bool {
        forall|w: int| 0 <= w < self.workers.len() ==> !holds_job(#[trigger] self.workers[w])
    }

    /// What holds of a pool in every state: each published result carries
    /// the identifier of the job that it answers; the jobs taken are those
    /// answered and those still held by workers, each as often as it was
    /// taken; the counter has counted the results; and a worker has
    /// terminated only once the channel was closed and empty.
    pub open spec fn consistent(self) -> bool {
        &&& self.workers.len() > 0
        &&& result_ids(self.results) == job_ids(self.answered)
        &&& self.answered.to_multiset().add(in_flight(self.workers)) == self.taken.to_multiset()
        &&& self.counter == self.results.len()
        &&& forall|w: int|
            0 <= w < self.workers.len() && self.workers[w] == WorkerState::Terminated ==> self.closed
                && self.pending.len() == 0
    }
}

/// The pool after worker `w` has asked for a job.
pub open spec fn after_take(v: PoolView, w: int) -> PoolView {
    if v.workers[w] != WorkerState::Idle || v.poisoned {
        v
    } else if v.pending.len() > 0 {
        PoolView {
            pending: v.pending.subrange(1, v.pending.len() as int),
            taken: v.taken.push(v.pending[0]),
            workers: v.workers.update(w, WorkerState::Busy(v.pending[0])),
            ..v
        }
    } else if v.closed {
        PoolView { workers: v.workers.update(w, WorkerState::Terminated), ..v }
    } else {
        v
    }
}

/// The pool after worker `w` has published `outcome` for the job that it holds.
pub open spec fn after_publish(v: PoolView, w: int, outcome: Outcome) -> PoolView {
    match v.workers[w] {
        WorkerState::Busy(job) => PoolView {
            answered: v.answered.push(job),
            results: v.results.push(JobResult { job_id: job.id, outcome }),
            counter: v.counter + 1,
            workers: v.workers.update(w, WorkerState::Idle),
            ..v
        },
        _ => v,
    }
}

/// The pool after a whole turn of the idle worker `w` in which the handler,
/// if it ran, gave `outcome`.
pub open spec fn after_step(v: PoolView, w: int, outcome: Outcome) -> PoolView {
    if v.workers[w] == WorkerState::Idle {
        after_publish(after_take(v, w), w, outcome)
    } else {
        v
    }
}

/// The pool after the host has reported that worker `w` ended abnormally,
/// with or without the receiver's lock in its hands. A worker that was idle
/// or busy counts as crashed from then on, and a busy one keeps its job,
/// which stays without a result; the lock is poisoned if the worker held it.
/// For a worker that had terminated or crashed before, nothing changes.
pub open spec fn after_crash(v: PoolView, w: int, held_receiver_lock: bool) -> PoolView {
    match v.workers[w] {
        WorkerState::Idle => PoolView {
            workers: v.workers.update(w, WorkerState::Crashed),
            poisoned: v.poisoned || held_receiver_lock,
            ..v
        },
        WorkerState::Busy(job) => PoolView {
            workers: v.workers.update(w, WorkerState::CrashedHolding(job)),
            poisoned: v.poisoned || held_receiver_lock,
            ..v
        },
        _ => v,
    }
}

/// One atomic step of one worker.
pub enum Turn {
    /// The worker asks for a job.
    Take { worker: int },
    /// The worker publishes this outcome for the job that it holds.
    Publish { worker: int, outcome: Outcome },
    /// The worker ends abnormally.
    Crash { worker: int, held_receiver_lock: bool },
}

/// The pool after one step.
pub open spec fn after_turn(v: PoolView, turn: Turn) -> PoolView {
    match turn {
        Turn::Take { worker } => if 0 <= worker < v.workers.len() {
            after_take(v, worker)
        } else {
            v
        },
        Turn::Publish { worker, outcome } => if 0 <= worker < v.workers.len() {
            after_publish(v, worker, outcome)
        } else {
            v
        },
        Turn::Crash { worker, held_receiver_lock } => if 0 <= worker < v.workers.len() {
            after_crash(v, worker, held_receiver_lock)
        } else {
            v
        },
    }
}

/// The pool after the steps of a schedule, in order.
pub open spec fn after_turns(v: PoolView, schedule: Seq<Turn>) -> PoolView
    decreases schedule.len(),
{
    if schedule.len() == 0 {
        v
    } else {
        after_turn(after_turns(v, schedule.drop_last()), schedule.last())
    }
}

/// Whether `result` is what `handler` makes of `job`.
pub open spec fn handled_by<H: Fn(Job) -> Outcome>(handler: H, job: Job, result: JobResult) -> bool {
    result.job_id == job.id && call_ensures(handler, (job,), result.outcome)
}

/// Changing one worker's state takes what that worker held out of the jobs
/// in flight and puts in what it holds now.
pub proof fn lemma_in_flight_update(workers: Seq<WorkerState>, w: int, state: WorkerState)
    requires
        0 <= w < workers.len(),
    ensures
        in_flight(workers.update(w, state)).add(load(workers[w])) == in_flight(workers).add(
            load(state),
        ),
        !holds_job(workers[w]) ==> in_flight(workers.update(w, state)) == in_flight(workers).add(
            load(state),
        ),
        !holds_job(state) ==> in_flight(workers.update(w, state)).add(load(workers[w]))
            == in_flight(workers),
        load(workers[w]) == load(state) ==> in_flight(workers.update(w, state)) == in_flight(
            workers,
        ),
    decreases workers.len(),
{
    let changed = workers.update(w, state);
    let rest = workers.drop_last();
    assert(in_flight(workers) == in_flight(rest).add(load(workers.last())));
    if w == workers.len() - 1 {
        assert(changed.drop_last() =~= rest);
        assert(changed.last() == state);
        assert(in_flight(changed) == in_flight(rest).add(load(state)));
    } else {
        lemma_in_flight_update(rest, w, state);
        assert(changed.drop_last() =~= rest.update(w, state));
        assert(changed.last() == workers.last());
        assert(in_flight(changed) == in_flight(rest.update(w, state)).add(load(workers.last())));
        assert(rest[w] == workers[w]);
    }
    assert(in_flight(changed).add(load(workers[w])) =~= in_flight(workers).add(load(state)));
    if !holds_job(workers[w]) {
        assert(in_flight(changed).add(load(workers[w])) =~= in_flight(changed));
    }
    if !holds_job(state) {
        assert(in_flight(workers).add(load(state)) =~= in_flight(workers));
    }
}

/// Where no worker holds a job, no job is in flight.
pub proof fn lemma_none_in_flight(workers: Seq<WorkerState>)
    requires
        forall|w: int| 0 <= w < workers.len() ==> !holds_job(#[trigger] workers[w]),
    ensures
        in_flight(workers) == Multiset::<Job>::empty(),
    decreases workers.len(),
{
    if workers.len() > 0 {
        assert(!holds_job(workers[workers.len() - 1]));
        assert forall|w: int| 0 <= w < workers.drop_last().len() implies !holds_job(
            #[trigger] workers.drop_last()[w],
        ) by {
            assert(workers.drop_last()[w] == workers[w]);
        }
        lemma_none_in_flight(workers.drop_last());
        assert(in_flight(workers) =~= Multiset::<Job>::empty());
    }
}

/// A busy worker's job is in flight.
pub proof fn lemma_busy_is_in_flight(workers: Seq<WorkerState>, w: int)
    requires
        0 <= w < workers.len(),
        workers[w] is Busy,
    ensures
        in_flight(workers).count(workers[w]->Busy_0) > 0,
    decreases workers.len(),
{
    if w < workers.len() - 1 {
        lemma_busy_is_in_flight(workers.drop_last(), w);
    }
}

impl<H: Fn(Job) -> Outcome> WorkerPool<H> {
    /// The pool as a mathematical value.
    pub closed spec fn view(&self) -> PoolView {
        PoolView {
            pending: self.channel@.pending,
            closed: self.channel@.closed,
            taken: self.taken@,
            answered: self.answered@,
            results: self.results@,
            workers: self.workers@,
            counter: self.counter@,
            poisoned: self.poisoned,
        }
    }

    /// The function that the workers run on each job.
    pub closed spec fn handler(&self) -> H {
        self.handler
    }

    /// The channel that the workers share.
    pub closed spec fn channel(&self) -> ChannelView {
        self.channel@
    }

    /// The pool's invariant: its state is consistent, the handler accepts
    /// every job, and each result is what the handler made of the job that
    /// it answers.
    pub closed spec fn wf(&self) -> bool {
        &&& self.channel.wf()
        &&& !self.counter.poisoned()
        &&& self@.consistent()
        &&& self.results@.len() == self.answered@.len()
        &&& forall|job: Job| call_requires(self.handler, (job,))
        &&& forall|i: int|
            0 <= i < self.results@.len() ==> handled_by(
                self.handler,
                self.answered@[i],
                #[trigger] self.results@[i],
            )
    }

    /// What `wf` says to the outside.
    pub proof fn lemma_wf(&self)
        requires
            self.wf(),
        ensures
            self@.consistent(),
            self@.results.len() == self@.answered.len(),
            self@.answered.len() <= self@.taken.len(),
            self@.none_in_flight() ==> self@.answered.len() == self@.taken.len(),
            forall|w: int|
                0 <= w < self@.workers.len() && #[trigger] self@.workers[w] is Busy
                    ==> self@.answered.len() < self@.taken.len(),
            self@.pending == self.channel().pending,
            self@.closed == self.channel().closed,
            forall|job: Job| call_requires(self.handler(), (job,)),
            forall|i: int|
                0 <= i < self@.results.len() ==> handled_by(
                    self.handler(),
                    self@.answered[i],
                    #[trigger] self@.results[i],
                ),
    {
        let v = self@;
        assert(v.answered.to_multiset().len() == v.answered.len());
        assert(v.taken.to_multiset().len() == v.taken.len());
        assert(v.answered.to_multiset().add(in_flight(v.workers)).len()
            == v.answered.to_multiset().len() + in_flight(v.workers).len());
        if v.none_in_flight() {
            lemma_none_in_flight(v.workers);
        }
        assert forall|w: int| 0 <= w < v.workers.len() && #[trigger] v.workers[w] is Busy implies v.answered.len()
            < v.taken.len() by {
            lemma_busy_is_in_flight(v.workers, w);
            assert(in_flight(v.workers).count(v.workers[w]->Busy_0) <= in_flight(v.workers).len());
        }
    }

    /// Starts `worker_count` workers on the receiving end `receiver`, with
    /// `handler` as what each of them runs on a job. Nothing has been taken
    /// or processed yet.
    pub fn spawn(worker_count: usize, receiver: Channel, handler: H) -> (pool: WorkerPool<H>)
        requires
            worker_count > 0,
            receiver.wf(),
            forall|job: Job| call_requires(handler, (job,)),
        ensures
            pool.wf(),
            pool.handler() == handler,
            pool.channel() == receiver@,
            pool@ == (PoolView {
                pending: receiver@.pending,
                closed: receiver@.closed,
                taken: Seq::<Job>::empty(),
                answered: Seq::<Job>::empty(),
                results: Seq::<JobResult>::empty(),
                workers: Seq::new(worker_count as nat, |w: int| WorkerState::Idle),
                counter: 0,
                poisoned: false,
            }),
    {
        let mut workers: Vec<WorkerState> = Vec::new();
        let mut started: usize = 0;
        while started < worker_count
            invariant
                started <= worker_count,
                workers@ == Seq::new(started as nat, |w: int| WorkerState::Idle),
            decreases worker_count - started,
        {
            workers.push(WorkerState::Idle);
            started = started + 1;
            assert(workers@ =~= Seq::new(started as nat, |w: int| WorkerState::Idle));
        }
        let pool = WorkerPool {
            channel: receiver,
            workers,
            results: Vec::new(),
            counter: SharedCounter::new(0),
            handler,
            poisoned: false,
            taken: Ghost(Seq::empty()),
            answered: Ghost(Seq::empty()),
        };
        proof {
            assert(result_ids(pool@.results) =~= job_ids(pool@.answered));
            lemma_none_in_flight(pool@.workers);
            assert(pool@.answered.to_multiset().add(in_flight(pool@.workers))
                =~= pool@.taken.to_multiset());
        }
        pool
    }

    /// Enqueues `job` for the workers. Fails with `ChannelClosed` once the
    /// pool's channel is closed, and with `ChannelFull` while a bounded
    /// channel is full.
    pub fn submit(&mut self, job: Job) -> (r: Result<(), DispatchError>)
        requires
            old(self).wf(),
        ensures
            final(self).wf(),
            final(self).handler() == old(self).handler(),
            old(self)@.closed ==> r == Err::<(), DispatchError>(DispatchError::ChannelClosed),
            !old(self)@.closed && !crate::channel::has_room(old(self).channel()) ==> r == Err::<
                (),
                DispatchError,
            >(DispatchError::ChannelFull),
            !old(self)@.closed && crate::channel::has_room(old(self).channel()) ==> r == Ok::<
                (),
                DispatchError,
            >(()),
            r is Ok ==> final(self)@ == (PoolView {
                pending: old(self)@.pending.push(job),
                ..old(self)@
            }) && final(self).channel() == (ChannelView {
                pending: old(self)@.pending.push(job),
                ..old(self).channel()
            }),
            r is Err ==> final(self)@ == old(self)@ && final(self).channel() == old(self).channel(),
    {
        self.channel.send(job)
    }

    /// Closes the pool's channel: no further job is accepted, and the
    /// buffered ones stay for the workers.
    pub fn close(&mut self)
        requires
            old(self).wf(),
        ensures
            final(self).wf(),
            final(self).handler() == old(self).handler(),
            final(self)@ == (PoolView { closed: true, ..old(self)@ }),
            final(self).channel() == (ChannelView { closed: true, ..old(self).channel() }),
    {
        self.channel.close();
    }

    /// Worker `worker` asks for a job: the step that a host runs under the
    /// receiver's lock. An idle worker gets the job at the head of the queue
    /// and is busy with it from now on; on an empty queue it waits while the
    /// channel is open and terminates once it is closed. A worker that is
    /// not idle gets nothing. Once the receiver's lock is poisoned, an idle
    /// worker's request fails with `LockUnavailable` and changes nothing.
    pub fn take(&mut self, worker: usize) -> (r: Result<Taken, DispatchError>)
        requires
            old(self).wf(),
            worker < old(self)@.workers.len(),
        ensures
            final(self).wf(),
            final(self).handler() == old(self).handler(),
            final(self).channel() == (ChannelView {
                pending: final(self)@.pending,
                ..old(self).channel()
            }),
            final(self)@ == after_take(old(self)@, worker as int),
            final(self)@.accepted() == old(self)@.accepted(),
            r == if old(self)@.workers[worker as int] != WorkerState::Idle {
                Ok::<Taken, DispatchError>(Taken::NotIdle)
            } else if old(self)@.poisoned {
                Err::<Taken, DispatchError>(DispatchError::LockUnavailable)
            } else if old(self)@.pending.len() > 0 {
                Ok::<Taken, DispatchError>(Taken::Job(old(self)@.pending[0]))
            } else if old(self)@.closed {
                Ok::<Taken, DispatchError>(Taken::Terminated)
            } else {
                Ok::<Taken, DispatchError>(Taken::Waiting)
            },
    {
        if self.workers[worker] != WorkerState::Idle {
            return Ok(Taken::NotIdle);
        }
        if self.poisoned {
            return Err(DispatchError::LockUnavailable);
        }
        let ghost before = self@;
        match self.channel.receive() {
            Received::Job(job) => {
                self.workers[worker] = WorkerState::Busy(job);
                proof {
                    self.taken@ = self.taken@.push(job);
                                lemma_in_flight_update(before.workers, worker as int, WorkerState::Busy(job));
                    assert(self@.answered.to_multiset().add(in_flight(self@.workers))
                        =~= self@.taken.to_multiset());
                    assert(self@.accepted() =~= before.accepted());
                }
                Ok(Taken::Job(job))
            },
            Received::Empty => Ok(Taken::Waiting),
            Received::Closed => {
                self.workers[worker] = WorkerState::Terminated;
                proof {
                    lemma_in_flight_update(before.workers, worker as int, WorkerState::Terminated);
                    assert(in_flight(self@.workers) =~= in_flight(before.workers));
                }
                Ok(Taken::Terminated)
            },
        }
    }

    /// Worker `worker` publishes what the handler made of the job that it
    /// holds. The result is recorded and counted, and the worker is idle
    /// again. For a worker that holds no job nothing happens.
    pub fn publish(&mut self, worker: usize, outcome: Outcome) -> (r: Option<JobResult>)
        requires
            old(self).wf(),
            worker < old(self)@.workers.len(),
            old(self)@.workers[worker as int] is Busy ==> old(self)@.results.len() < i64::MAX,
            old(self)@.workers[worker as int] matches WorkerState::Busy(job) ==> call_ensures(
                old(self).handler(),
                (job,),
                outcome,
            ),
        ensures
            final(self).wf(),
            final(self).handler() == old(self).handler(),
            final(self).channel() == old(self).channel(),
            final(self)@ == after_publish(old(self)@, worker as int, outcome),
            r == match old(self)@.workers[worker as int] {
                WorkerState::Busy(job) => Some(JobResult { job_id: job.id, outcome }),
                _ => None,
            },
    {
        let ghost before = self@;
        match self.workers[worker] {
            WorkerState::Busy(job) => {
                let result = JobResult::of(job, outcome);
                self.results.push(result);
                self.counter.increment(1);
                self.workers[worker] = WorkerState::Idle;
                proof {
                    self.answered@ = self.answered@.push(job);
                                lemma_in_flight_update(before.workers, worker as int, WorkerState::Idle);
                    assert(result_ids(self@.results) =~= result_ids(before.results).push(job.id));
                    assert(job_ids(self@.answered) =~= job_ids(before.answered).push(job.id));
                    assert(self@.answered.to_multiset().add(in_flight(self@.workers))
                        =~= self@.taken.to_multiset());
                }
                Some(result)
            },
            _ => None,
        }
    }

    /// One whole turn of worker `worker`: it asks for a job and, if it gets
    /// one, runs the handler on it and publishes the result.
    pub fn step(&mut self, worker: usize) -> (r: Result<StepOutcome, DispatchError>)
        requires
            old(self).wf(),
            worker < old(self)@.workers.len(),
            old(self)@.pending.len() > 0 ==> old(self)@.results.len() < i64::MAX,
        ensures
            final(self).wf(),
            final(self).handler() == old(self).handler(),
            final(self).channel() == (ChannelView {
                pending: final(self)@.pending,
                ..old(self).channel()
            }),
            final(self)@.accepted() == old(self)@.accepted(),
            old(self)@.answered == old(self)@.taken ==> final(self)@.answered
                == final(self)@.taken,
            match r {
                Ok(StepOutcome::Processed(result)) => {
                    &&& old(self)@.workers[worker as int] == WorkerState::Idle
                    &&& !old(self)@.poisoned
                    &&& old(self)@.pending.len() > 0
                    &&& handled_by(old(self).handler(), old(self)@.pending[0], result)
                    &&& final(self)@ == after_step(old(self)@, worker as int, result.outcome)
                },
                Ok(StepOutcome::Waiting) => {
                    &&& old(self)@.workers[worker as int] == WorkerState::Idle
                    &&& !old(self)@.poisoned
                    &&& old(self)@.pending.len() == 0
                    &&& !old(self)@.closed
                    &&& final(self)@ == old(self)@
                },
                Ok(StepOutcome::Terminated) => {
                    &&& old(self)@.workers[worker as int] == WorkerState::Idle
                    &&& !old(self)@.poisoned
                    &&& old(self)@.pending.len() == 0
                    &&& old(self)@.closed
                    &&& final(self)@ == (PoolView {
                        workers: old(self)@.workers.update(worker as int, WorkerState::Terminated),
                        ..old(self)@
                    })
                },
                Ok(StepOutcome::NotIdle) => {
                    &&& old(self)@.workers[worker as int] != WorkerState::Idle
                    &&& final(self)@ == old(self)@
                },
                Err(error) => {
                    &&& error == DispatchError::LockUnavailable
                    &&& old(self)@.workers[worker as int] == WorkerState::Idle
                    &&& old(self)@.poisoned
                    &&& final(self)@ == old(self)@
                },
            },
    {
        match self.take(worker) {
            Ok(Taken::Job(job)) => {
                let outcome = (self.handler)(job);
                match self.publish(worker, outcome) {
                    Some(result) => Ok(StepOutcome::Processed(result)),
                    None => vstd::pervasive::unreached(),
                }
            },
            Ok(Taken::Waiting) => Ok(StepOutcome::Waiting),
            Ok(Taken::Terminated) => Ok(StepOutcome::Terminated),
            Ok(Taken::NotIdle) => Ok(StepOutcome::NotIdle),
            Err(error) => Err(error),
        }
    }

    /// Lets worker `worker` finish the job that it holds, if it holds one:
    /// runs the handler on it and publishes the result.
    pub fn finish(&mut self, worker: usize) -> (r: Option<JobResult>)
        requires
            old(self).wf(),
            worker < old(self)@.workers.len(),
            old(self)@.workers[worker as int] is Busy ==> old(self)@.results.len() < i64::MAX,
        ensures
            final(self).wf(),
            final(self).handler() == old(self).handler(),
            final(self).channel() == old(self).channel(),
            match r {
                Some(result) => {
                    &&& old(self)@.workers[worker as int] matches WorkerState::Busy(job)
                    &&& handled_by(old(self).handler(), job, result)
                    &&& final(self)@ == after_publish(old(self)@, worker as int, result.outcome)
                },
                None => {
                    &&& !(old(self)@.workers[worker as int] is Busy)
                    &&& final(self)@ == old(self)@
                },
            },
    {
        match self.workers[worker] {
            WorkerState::Busy(job) => {
                let outcome = (self.handler)(job);
                self.publish(worker, outcome)
            },
            _ => None,
        }
    }

    /// Records what the host saw: worker `worker` ended abnormally, and
    /// `held_receiver_lock` says whether it held the receiver's lock then. A
    /// worker that was idle or busy counts as crashed from now on, and the
    /// lock as poisoned if the worker held it. A busy worker's job stays
    /// with the crashed worker: it is still counted among the jobs taken and
    /// in flight, it has no result, and nobody runs the handler on it again.
    /// For a worker that had terminated or crashed before, nothing changes.
    pub fn report_crash(&mut self, worker: usize, held_receiver_lock: bool)
        requires
            old(self).wf(),
            worker < old(self)@.workers.len(),
        ensures
            final(self).wf(),
            final(self).handler() == old(self).handler(),
            final(self).channel() == old(self).channel(),
            final(self)@ == after_crash(old(self)@, worker as int, held_receiver_lock),
            final(self)@.accepted() == old(self)@.accepted(),
            old(self)@.workers[worker as int] == WorkerState::Idle
                || old(self)@.workers[worker as int] is Busy ==> final(self)@.any_crashed(),
    {
        let ghost before = self@;
        match self.workers[worker] {
            WorkerState::Idle => {
                self.workers[worker] = WorkerState::Crashed;
                if held_receiver_lock {
                    self.poisoned = true;
                }
                proof {
                    lemma_in_flight_update(before.workers, worker as int, WorkerState::Crashed);
                    assert(crashed(self@.workers[worker as int]));
                }
            },
            WorkerState::Busy(job) => {
                self.workers[worker] = WorkerState::CrashedHolding(job);
                if held_receiver_lock {
                    self.poisoned = true;
                }
                proof {
                    lemma_in_flight_update(
                        before.workers,
                        worker as int,
                        WorkerState::CrashedHolding(job),
                    );
                    assert(crashed(self@.workers[worker as int]));
                }
            },
            _ => {},
        }
    }

    /// Whether some worker has ended abnormally.
    pub fn any_crashed(&self) -> (found: bool)
        ensures
            found == self@.any_crashed(),
    {
        let mut w: usize = 0;
        while w < self.workers.len()
            invariant
                w <= self.workers@.len(),
                forall|u: int| 0 <= u < w ==> !crashed(#[trigger] self.workers@[u]),
            decreases self.workers@.len() - w,
        {
            match self.workers[w] {
                WorkerState::Crashed => {
                    assert(crashed(self@.workers[w as int]));
                    return true;
                },
                WorkerState::CrashedHolding(_) => {
                    assert(crashed(self@.workers[w as int]));
                    return true;
                },
                _ => {},
            }
            w = w + 1;
        }
        false
    }

    /// Whether the receiver's lock is poisoned.
    pub fn is_poisoned(&self) -> (poisoned: bool)
        ensures
            poisoned == self@.poisoned,
    {
        self.poisoned
    }

    /// The number of workers, terminated ones included.
    pub fn worker_count(&self) -> (n: usize)
        ensures
            n == self@.workers.len(),
    {
        self.workers.len()
    }

    /// Whether worker `worker` has terminated.
    pub fn is_terminated(&self, worker: usize) -> (b: bool)
        requires
            worker < self@.workers.len(),
        ensures
            b == (self@.workers[worker as int] == WorkerState::Terminated),
    {
        self.workers[worker] == WorkerState::Terminated
    }

    /// The state of worker `worker`.
    pub fn worker_state(&self, worker: usize) -> (state: WorkerState)
        requires
            worker < self@.workers.len(),
        ensures
            state == self@.workers[worker as int],
    {
        self.workers[worker]
    }

    /// The number of jobs that wait in the channel.
    pub fn backlog(&self) -> (n: usize)
        ensures
            n == self@.pending.len(),
    {
        self.channel.len()
    }

    /// Whether the pool's channel has been closed.
    pub fn is_closed(&self) -> (b: bool)
        ensures
            b == self@.closed,
    {
        self.channel.is_closed()
    }

    /// The number of jobs processed so far.
    pub fn jobs_processed(&self) -> (n: usize)
        ensures
            n == self@.results.len(),
    {
        self.results.len()
    }

    /// The value of the shared counter.
    pub fn counter_value(&self) -> (value: i64)
        requires
            self.wf(),
        ensures
            value == self@.counter,
    {
        self.counter.read()
    }

    /// The results published so far, in the order of publication.
    pub fn results(&self) -> (results: &Vec<JobResult>)
        ensures
            results@ == self@.results,
    {
        &self.results
    }

    /// Gives up the pool and hands its results to the caller.
    pub fn into_results(self) -> (results: Vec<JobResult>)
        ensures
            results@ == self@.results,
    {
        self.results
    }
}

/// Builds the dispatch engine around `handler`: `worker_count` workers on a
/// fresh, open, unbounded channel.
pub fn spawn_pool<H: Fn(Job) -> Outcome>(worker_count: usize, handler: H) -> (pool: WorkerPool<H>)
    requires
        worker_count > 0,
        forall|job: Job| call_requires(handler, (job,)),
    ensures
        pool.wf(),
        pool.handler() == handler,
        pool.channel() == (ChannelView {
            pending: Seq::<Job>::empty(),
            closed: false,
            capacity: None,
            senders: 1,
        }),
        pool@ == (PoolView {
            pending: Seq::<Job>::empty(),
            closed: false,
            taken: Seq::<Job>::empty(),
            answered: Seq::<Job>::empty(),
            results: Seq::<JobResult>::empty(),
            workers: Seq::new(worker_count as nat, |w: int| WorkerState::Idle),
            counter: 0,
            poisoned: false,
        }),
{
    WorkerPool::spawn(worker_count, Channel::open(None), handler)
}

/// The producer-facing call: enqueues `job` in `pool`.
pub fn submit<H: Fn(Job) -> Outcome>(pool: &mut WorkerPool<H>, job: Job) -> (r: Result<
    (),
    DispatchError,
>)
    requires
        old(pool).wf(),
    ensures
        final(pool).wf(),
        final(pool).handler() == old(pool).handler(),
        old(pool)@.closed ==> r == Err::<(), DispatchError>(DispatchError::ChannelClosed),
        !old(pool)@.closed && !crate::channel::has_room(old(pool).channel()) ==> r == Err::<
            (),
            DispatchError,
        >(DispatchError::ChannelFull),
        !old(pool)@.closed && crate::channel::has_room(old(pool).channel()) ==> r == Ok::<
            (),
            DispatchError,
        >(()),
        r is Ok ==> final(pool)@ == (PoolView {
            pending: old(pool)@.pending.push(job),
            ..old(pool)@
        }) && final(pool).channel() == (ChannelView {
            pending: old(pool)@.pending.push(job),
            ..old(pool).channel()
        }),
        r is Err ==> final(pool)@ == old(pool)@ && final(pool).channel() == old(pool).channel(),
{
    pool.submit(job)
}

} // verus!
