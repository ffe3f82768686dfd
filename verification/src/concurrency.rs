//! Worked examples of the dispatch core: each runs one pattern on fixed
//! inputs and returns what the pattern yields.

use vstd::prelude::*;
use crate::channel::{Channel, Received};
use crate::counter::SharedCounter;
use crate::fan_out::{chunks_of, computed_from, fan_out};
use crate::job::{DispatchError, Job, JobResult, Outcome};
use crate::lock_order::LockTable;
use crate::pool::handled_by;
use crate::region::Region;
use crate::shutdown::{ShutdownSummary, run_jobs};
use crate::squares::{
    checked, lemma_square_sum_single, parallel_sum_of_squares, square_sum, sum_of_squares,
};

verus! {

/// What a handler that doubles the payload makes of `payload`.
pub open spec fn doubled(payload: i64) -> Outcome {
    if i64::MIN <= 2 * payload <= i64::MAX {
        Outcome::Completed((2 * payload) as i64)
    } else {
        Outcome::Failed
    }
}

/// A handler that doubles the payload, and fails where the double does not fit.
pub fn double(job: Job) -> (outcome: Outcome)
    ensures
        outcome == doubled(job.payload),
{
    match job.payload.checked_mul(2) {
        Some(value) => Outcome::Completed(value),
        None => Outcome::Failed,
    }
}

/// A handler that completes every job with its payload.
pub fn echo(job: Job) -> (outcome: Outcome)
    ensures
        outcome == Outcome::Completed(job.payload),
{
    Outcome::Completed(job.payload)
}

/// The job with the identifier `id` and the same number as payload.
pub open spec fn numbered(id: int) -> Job {
    Job { id: id as u64, payload: id as i64 }
}

/// The jobs `first`, `first + 1`, up to `first + count - 1`, each with its
/// identifier as its payload.
pub fn numbered_jobs(first: u32, count: u32) -> (jobs: Vec<Job>)
    ensures
        jobs@ == Seq::new(count as nat, |k: int| numbered(first + k)),
{
    let mut jobs: Vec<Job> = Vec::new();
    let mut k: u32 = 0;
    while k < count
        invariant
            k <= count,
            jobs@ == Seq::new(k as nat, |i: int| numbered(first + i)),
        decreases count - k,
    {
        let id: u64 = first as u64 + k as u64;
        jobs.push(Job::new(id, id as i64));
        k = k + 1;
        assert(jobs@ =~= Seq::new(k as nat, |i: int| numbered(first + i)));
    }
    jobs
}

/// One producer sends one job, the consumer receives it.
pub fn channel_basics() -> (received: Received)
    ensures
        received == Received::Job(numbered(1)),
{
    let mut channel = Channel::open(None);
    let sent = channel.send(Job::new(1, 1));
    channel.drop_sender();
    channel.receive()
}

/// One producer sends four jobs and goes away; the consumer receives until
/// the channel reports that it is closed.
pub fn channel_multiple_messages() -> (received: Vec<Job>)
    ensures
        received@ == seq![numbered(1), numbered(2), numbered(3), numbered(4)],
{
    let mut channel = Channel::open(None);
    let mut id: u64 = 1;
    while id <= 4
        invariant
            1 <= id <= 5,
            channel.wf(),
            !channel@.closed,
            channel@.capacity.is_none(),
            channel@.senders == 1,
            channel@.pending == Seq::new((id - 1) as nat, |k: int| numbered(1 + k)),
        decreases 5 - id,
    {
        let sent = channel.send(Job::new(id, id as i64));
        id = id + 1;
        assert(channel@.pending =~= Seq::new((id - 1) as nat, |k: int| numbered(1 + k)));
    }
    channel.drop_sender();
    let received = channel.drain();
    assert(received@ =~= seq![numbered(1), numbered(2), numbered(3), numbered(4)]);
    received
}

/// Two producers send two jobs each, in turn; the consumer takes four. The
/// jobs arrive in the order in which the queue saw them, so each producer's
/// jobs keep their order.
pub fn channel_multiple_producers() -> (received: Vec<Job>)
    ensures
        received@ == seq![numbered(11), numbered(21), numbered(12), numbered(22)],
{
    let mut channel = Channel::open(None);
    let cloned = channel.add_sender();
    let first = channel.send(Job::new(11, 11));
    let second = channel.send(Job::new(21, 21));
    let third = channel.send(Job::new(12, 12));
    let fourth = channel.send(Job::new(22, 22));
    let received = channel.receive_up_to(4);
    assert(received@ =~= seq![numbered(11), numbered(21), numbered(12), numbered(22)]);
    received
}

/// A counter behind a lock: it starts at five, and one holder adds one.
pub fn mutex_basics() -> (value: i64)
    ensures
        value == 6,
{
    let mut counter = SharedCounter::new(5);
    counter.increment(1)
}

/// Ten workers add one each to a shared counter that starts at zero.
pub fn arc_mutex() -> (value: i64)
    ensures
        value == 10,
{
    let mut counter = SharedCounter::new(0);
    let mut worker: u32 = 0;
    while worker < 10
        invariant
            worker <= 10,
            !counter.poisoned(),
            counter@ == worker,
        decreases 10 - worker,
    {
        let value = counter.increment(1);
        worker = worker + 1;
    }
    counter.read()
}

/// Four workers, four jobs numbered from zero: each result is the double of
/// its job's number.
pub fn thread_pool_concept() -> (results: Vec<JobResult>)
    ensures
        results@ == Seq::new(
            4,
            |k: int| (JobResult { job_id: k as u64, outcome: Outcome::Completed((2 * k) as i64) }),
        ),
{
    let jobs = numbered_jobs(0, 4);
    let (summary, results) = run_jobs(&jobs, 4, double);
    proof {
        assert forall|k: int| 0 <= k < 4 implies results@[k] == (JobResult {
            job_id: k as u64,
            outcome: Outcome::Completed((2 * k) as i64),
        }) by {
            assert(handled_by(double, jobs@[k], results@[k]));
        }
        assert(results@ =~= Seq::new(
            4,
            |k: int| (JobResult { job_id: k as u64, outcome: Outcome::Completed((2 * k) as i64) }),
        ));
    }
    results
}

/// What the two workers of `deadlock_prevention` met on their way.
#[derive(Clone, Copy, Debug, PartialEq, Eq, Structural)]
pub struct LockingTrace {
    /// Whether the second worker found the first lock taken and backed off.
    pub backed_off: bool,
    /// Whether both workers got both locks in the end.
    pub both_finished: bool,
}

/// Two workers need the same two locks and take them in the same order. The
/// second one finds the first lock taken, backs off, and gets both locks
/// once the first worker has released them.
pub fn deadlock_prevention() -> (trace: LockingTrace)
    ensures
        trace == (LockingTrace { backed_off: true, both_finished: true }),
{
    let mut table = LockTable::new(2);
    let a0 = table.try_acquire(0, 0);
    let backed_off = match table.try_acquire(1, 0) {
        Err(DispatchError::LockUnavailable) => true,
        _ => false,
    };
    let a1 = table.try_acquire(0, 1);
    let first_finished = a0.is_ok() && a1.is_ok();
    let r1 = table.release(0, 1);
    let r0 = table.release(0, 0);
    let b0 = table.try_acquire(1, 0);
    let b1 = table.try_acquire(1, 1);
    let second_finished = b0.is_ok() && b1.is_ok();
    let s1 = table.release(1, 1);
    let s0 = table.release(1, 0);
    LockingTrace { backed_off, both_finished: first_finished && second_finished }
}

/// The sum of the squares of `1`, `2`, up to `count` is
/// `count * (count + 1) * (2 * count + 1) / 6`.
pub proof fn lemma_sum_of_first_squares(items: Seq<i32>)
    requires
        forall|i: int| 0 <= i < items.len() ==> items[i] == i + 1,
    ensures
        6 * square_sum(items) == items.len() * (items.len() + 1) * (2 * items.len() + 1),
    decreases items.len(),
{
    if items.len() > 0 {
        lemma_sum_of_first_squares(items.drop_last());
        let n = items.len() as int;
        let before = square_sum(items.drop_last());
        assert(items.last() == n);
        assert(square_sum(items) == before + n * n);
        assert(6 * (before + n * n) == n * (n + 1) * (2 * n + 1)) by (nonlinear_arith)
            requires
                6 * before == (n - 1) * ((n - 1) + 1) * (2 * (n - 1) + 1),
        ;
    }
}

/// The sum of the squares of 1 to 100, by fan-out over chunks of 25.
pub fn parallel_computation() -> (total: Option<i64>)
    ensures
        total == Some(338350i64),
{
    let mut data: Vec<i32> = Vec::new();
    let mut next: i32 = 1;
    while next <= 100
        invariant
            1 <= next <= 101,
            data@.len() == next - 1,
            forall|i: int| 0 <= i < data@.len() ==> data@[i] == i + 1,
        decreases 101 - next,
    {
        data.push(next);
        next = next + 1;
    }
    proof {
        lemma_sum_of_first_squares(data@);
        let n = data@.len() as int;
        assert(n * (n + 1) * (2 * n + 1) == 2030100) by (nonlinear_arith)
            requires
                n == 100,
        ;
    }
    parallel_sum_of_squares(&data, 25)
}

/// What `scoped_threads_concept` yields.
pub struct ScopeResults {
    /// Whether the region could be left while its two tasks still ran.
    pub left_early: bool,
    /// The length of the data that each of the two tasks read.
    pub lengths_read: (usize, usize),
    /// The data after the region, with one more item.
    pub data: Vec<i32>,
}

/// Two tasks in one region read the data of their caller, which changes it
/// only after it has left the region.
pub fn scoped_threads_concept() -> (results: ScopeResults)
    ensures
        !results.left_early,
        results.lengths_read == (5usize, 5usize),
        results.data@ == seq![1i32, 2i32, 3i32, 4i32, 5i32, 6i32],
{
    let mut data: Vec<i32> = Vec::new();
    data.push(1);
    data.push(2);
    data.push(3);
    data.push(4);
    data.push(5);
    let mut region = Region::enter();
    let first = region.register();
    let second = region.register();
    let left_early = region.try_exit();
    let first_length = data.len();
    let first_done = region.complete();
    let second_length = data.len();
    let second_done = region.complete();
    let may_leave = region.try_exit();
    assert(may_leave);
    data.push(6);
    assert(data@ =~= seq![1i32, 2i32, 3i32, 4i32, 5i32, 6i32]);
    ScopeResults { left_early, lengths_read: (first_length, second_length), data }
}

/// What `practical_patterns` yields.
pub struct PatternResults {
    /// The summary of the worker pool that processed the jobs 1 to 9.
    pub pool: ShutdownSummary,
    /// The squares of 0, 1 and 2, each computed by a task of its own.
    pub squares: Vec<Option<i64>>,
}

/// Two patterns: a pool of three workers that processes nine jobs and is
/// shut down, and a fan-out of three tasks that square one number each.
pub fn practical_patterns() -> (results: PatternResults)
    ensures
        results.pool == (ShutdownSummary {
            jobs_processed: 9,
            final_counter_value: 9,
            workers_joined: 3,
        }),
        results.squares@ == seq![Some(0i64), Some(1i64), Some(4i64)],
{
    let jobs = numbered_jobs(1, 9);
    let (pool, processed) = run_jobs(&jobs, 3, echo);
    let mut numbers: Vec<i32> = Vec::new();
    numbers.push(0);
    numbers.push(1);
    numbers.push(2);
    let squares = fan_out(&numbers, 1, &sum_of_squares);
    proof {
        reveal_with_fuel(chunks_of, 4);
        let chunks = chunks_of(numbers@, 1);
        assert(numbers@.take(1) =~= seq![0i32]);
        assert(numbers@.skip(1).take(1) =~= seq![1i32]);
        assert(numbers@.skip(1).skip(1) =~= seq![2i32]);
        assert(chunks =~= seq![seq![0i32], seq![1i32], seq![2i32]]);
        assert forall|i: int| 0 <= i < 3 implies squares@[i] == checked(#[trigger] square_sum(chunks[i])) by {
            assert(computed_from(sum_of_squares, chunks[i], squares@[i]));
        }
        lemma_square_sum_single(0);
        lemma_square_sum_single(1);
        lemma_square_sum_single(2);
        assert(square_sum(chunks[0]) == 0);
        assert(square_sum(chunks[1]) == 1);
        assert(square_sum(chunks[2]) == 4);
        assert(squares@ =~= seq![Some(0i64), Some(1i64), Some(4i64)]);
    }
    PatternResults { pool, squares }
}

/// What the examples yield, one field for each.
pub struct ExampleResults {
    pub channel_basics: Received,
    pub channel_multiple_messages: Vec<Job>,
    pub channel_multiple_producers: Vec<Job>,
    pub mutex_basics: i64,
    pub arc_mutex: i64,
    pub thread_pool_concept: Vec<JobResult>,
    pub deadlock_prevention: LockingTrace,
    pub parallel_computation: Option<i64>,
    pub scoped_threads_concept: ScopeResults,
    pub practical_patterns: PatternResults,
}

/// Runs every example and collects what each of them yields.
pub fn run_all_examples() -> (results: ExampleResults)
    ensures
        results.channel_basics == Received::Job(numbered(1)),
        results.channel_multiple_messages@ == seq![
            numbered(1),
            numbered(2),
            numbered(3),
            numbered(4),
        ],
        results.channel_multiple_producers@ == seq![
            numbered(11),
            numbered(21),
            numbered(12),
            numbered(22),
        ],
        results.mutex_basics == 6,
        results.arc_mutex == 10,
        results.thread_pool_concept@ == Seq::new(
            4,
            |k: int| (JobResult { job_id: k as u64, outcome: Outcome::Completed((2 * k) as i64) }),
        ),
        results.deadlock_prevention == (LockingTrace { backed_off: true, both_finished: true }),
        results.parallel_computation == Some(338350i64),
        !results.scoped_threads_concept.left_early,
        results.scoped_threads_concept.lengths_read == (5usize, 5usize),
        results.scoped_threads_concept.data@ == seq![1i32, 2i32, 3i32, 4i32, 5i32, 6i32],
        results.practical_patterns.pool == (ShutdownSummary {
            jobs_processed: 9,
            final_counter_value: 9,
            workers_joined: 3,
        }),
        results.practical_patterns.squares@ == seq![Some(0i64), Some(1i64), Some(4i64)],
{
    ExampleResults {
        channel_basics: channel_basics(),
        channel_multiple_messages: channel_multiple_messages(),
        channel_multiple_producers: channel_multiple_producers(),
        mutex_basics: mutex_basics(),
        arc_mutex: arc_mutex(),
        thread_pool_concept: thread_pool_concept(),
        deadlock_prevention: deadlock_prevention(),
        parallel_computation: parallel_computation(),
        scoped_threads_concept: scoped_threads_concept(),
        practical_patterns: practical_patterns(),
    }
}

} // verus!
