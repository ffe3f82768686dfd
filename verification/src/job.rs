//! Jobs, their results, and the errors of the dispatch core.

use vstd::prelude::*;

verus! {

/// One unit of work: an identifier and a payload. A job is never changed once
/// it has been enqueued.
#[derive(Clone, Copy, Debug, PartialEq, Eq, Structural)]
pub struct Job {
    pub id: u64,
    pub payload: i64,
}

/// What a handler made of one job: a value, or the sign that it failed.
#[derive(Clone, Copy, Debug, PartialEq, Eq, Structural)]
pub enum Outcome {
    Completed(i64),
    Failed,
}

/// The outcome record of one job.
#[derive(Clone, Copy, Debug, PartialEq, Eq, Structural)]
pub struct JobResult {
    pub job_id: u64,
    pub outcome: Outcome,
}

/// The failures that the dispatch core reports to its host.
#[derive(Clone, Copy, Debug, PartialEq, Eq, Structural)]
pub enum DispatchError {
    /// A job was sent after the channel had been closed.
    ChannelClosed,
    /// A bounded channel is full: the producer has to wait.
    ChannelFull,
    /// A lock is held by another worker: the caller backs off and tries again.
    LockUnavailable,
    /// A worker asked for a lock that does not come after every lock it holds.
    LockOrderViolation,
    /// The handler failed on one job.
    JobProcessingError,
    /// A worker did not terminate cleanly.
    JoinFailure,
}

impl Job {
    /// A job with the given identifier and payload.
    pub fn new(id: u64, payload: i64) -> (job: Job)
        ensures
            job == (Job { id, payload }),
    {
        Job { id, payload }
    }
}

impl JobResult {
    /// The record of `job` with the outcome that its handler gave.
    pub fn of(job: Job, outcome: Outcome) -> (r: JobResult)
        ensures
            r == (JobResult { job_id: job.id, outcome }),
    {
        JobResult { job_id: job.id, outcome }
    }

    /// The computed value, or `JobProcessingError` for a job whose handler failed.
    pub fn into_result(self) -> (r: Result<i64, DispatchError>)
        ensures
            r == match self.outcome {
                Outcome::Completed(v) => Ok::<i64, DispatchError>(v),
                Outcome::Failed => Err::<i64, DispatchError>(DispatchError::JobProcessingError),
            },
    {
        match self.outcome {
            Outcome::Completed(v) => Ok(v),
            Outcome::Failed => Err(DispatchError::JobProcessingError),
        }
    }
}

/// The identifiers of a sequence of jobs, in order.
pub open spec fn job_ids(jobs: Seq<Job>) -> Seq<u64> {
    jobs.map_values(|j: Job| j.id)
}

/// The job identifiers of a sequence of results, in order.
pub open spec fn result_ids(results: Seq<JobResult>) -> Seq<u64> {
    results.map_values(|r: JobResult| r.job_id)
}

} // verus!
