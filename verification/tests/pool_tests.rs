use dispatch_core::channel::Channel;
use dispatch_core::job::{DispatchError, Job, JobResult, Outcome};
use dispatch_core::pool::{spawn_pool, submit, StepOutcome, Taken, WorkerPool, WorkerState};
use dispatch_core::shutdown::{close_and_join, run_jobs, ShutdownSummary};

fn triple(job: Job) -> Outcome {
    Outcome::Completed(job.payload * 3)
}

fn fail_on_odd(job: Job) -> Outcome {
    if job.payload % 2 == 0 {
        Outcome::Completed(job.payload / 2)
    } else {
        Outcome::Failed
    }
}

#[test]
fn every_job_gets_exactly_one_result() {
    let mut jobs = Vec::new();
    for id in 0..50u64 {
        jobs.push(Job::new(id, id as i64));
    }
    let (summary, results) = run_jobs(&jobs, 4, triple);
    assert_eq!(summary.jobs_processed, 50);
    assert_eq!(summary.final_counter_value, 50);
    assert_eq!(summary.workers_joined, 4);
    assert_eq!(results.len(), 50);
    for (i, result) in results.iter().enumerate() {
        assert_eq!(result.job_id, i as u64);
        assert_eq!(result.outcome, Outcome::Completed(3 * i as i64));
    }
}

#[test]
fn no_jobs_at_all() {
    let (summary, results) = run_jobs(&Vec::new(), 2, triple);
    assert_eq!(
        summary,
        ShutdownSummary { jobs_processed: 0, final_counter_value: 0, workers_joined: 2 }
    );
    assert!(results.is_empty());
}

#[test]
fn any_worker_may_take_the_head_of_the_queue() {
    let mut pool = spawn_pool(3, triple);
    for id in 1..=6u64 {
        submit(&mut pool, Job::new(id, id as i64)).unwrap();
    }
    let schedule = [2usize, 0, 0, 1, 2, 1];
    for (turn, worker) in schedule.iter().enumerate() {
        let id = turn as u64 + 1;
        assert_eq!(
            pool.step(*worker),
            Ok(StepOutcome::Processed(JobResult {
                job_id: id,
                outcome: Outcome::Completed(3 * id as i64)
            }))
        );
    }
    assert_eq!(pool.jobs_processed(), 6);
    assert_eq!(pool.counter_value(), 6);
    assert_eq!(pool.backlog(), 0);
    assert_eq!(pool.step(1), Ok(StepOutcome::Waiting));
}

#[test]
fn results_come_in_the_order_of_publication() {
    let mut pool = spawn_pool(3, triple);
    for id in 1..=3u64 {
        pool.submit(Job::new(id, id as i64)).unwrap();
    }
    assert_eq!(pool.take(0), Ok(Taken::Job(Job::new(1, 1))));
    assert_eq!(pool.take(1), Ok(Taken::Job(Job::new(2, 2))));
    assert_eq!(pool.take(1), Ok(Taken::NotIdle));
    assert_eq!(pool.worker_state(1), WorkerState::Busy(Job::new(2, 2)));
    assert_eq!(pool.take(2), Ok(Taken::Job(Job::new(3, 3))));
    assert_eq!(pool.take(2), Ok(Taken::NotIdle));
    assert_eq!(pool.jobs_processed(), 0);
    assert_eq!(
        pool.publish(2, triple(Job::new(3, 3))),
        Some(JobResult { job_id: 3, outcome: Outcome::Completed(9) })
    );
    assert_eq!(pool.publish(2, Outcome::Completed(0)), None);
    assert_eq!(pool.finish(0), Some(JobResult { job_id: 1, outcome: Outcome::Completed(3) }));
    assert_eq!(pool.finish(0), None);
    assert_eq!(pool.worker_state(0), WorkerState::Idle);
    assert_eq!(pool.step(1), Ok(StepOutcome::NotIdle));
    let summary = close_and_join(&mut pool).unwrap();
    assert_eq!(
        summary,
        ShutdownSummary { jobs_processed: 3, final_counter_value: 3, workers_joined: 3 }
    );
    let mut ids: Vec<u64> = pool.results().iter().map(|r| r.job_id).collect();
    assert_eq!(ids, vec![3, 1, 2]);
    ids.sort();
    assert_eq!(ids, vec![1, 2, 3]);
}

#[test]
fn backlog_is_drained_before_any_worker_sees_closed() {
    let mut pool = spawn_pool(2, triple);
    for id in 1..=3u64 {
        pool.submit(Job::new(id, 1)).unwrap();
    }
    pool.close();
    assert!(pool.is_closed());
    assert_eq!(pool.submit(Job::new(4, 1)), Err(DispatchError::ChannelClosed));
    for id in 1..=3u64 {
        match pool.step((id % 2) as usize) {
            Ok(StepOutcome::Processed(result)) => assert_eq!(result.job_id, id),
            other => panic!("expected a processed job, got {:?}", other),
        }
        assert!(!pool.is_terminated(0));
        assert!(!pool.is_terminated(1));
    }
    assert_eq!(pool.step(0), Ok(StepOutcome::Terminated));
    assert!(pool.is_terminated(0));
    assert_eq!(pool.step(0), Ok(StepOutcome::NotIdle));
    assert_eq!(pool.take(1), Ok(Taken::Terminated));
    assert_eq!(pool.take(1), Ok(Taken::NotIdle));
    assert_eq!(pool.jobs_processed(), 3);
}

#[test]
fn an_open_empty_channel_makes_the_worker_wait() {
    let mut pool = spawn_pool(1, triple);
    assert_eq!(pool.take(0), Ok(Taken::Waiting));
    assert_eq!(pool.worker_state(0), WorkerState::Idle);
}

#[test]
fn a_failing_job_leaves_the_worker_running() {
    let mut pool = spawn_pool(1, fail_on_odd);
    pool.submit(Job::new(1, 3)).unwrap();
    pool.submit(Job::new(2, 8)).unwrap();
    assert_eq!(
        pool.step(0),
        Ok(StepOutcome::Processed(JobResult { job_id: 1, outcome: Outcome::Failed }))
    );
    assert!(!pool.is_terminated(0));
    assert_eq!(
        pool.step(0),
        Ok(StepOutcome::Processed(JobResult { job_id: 2, outcome: Outcome::Completed(4) }))
    );
    let results = pool.results().clone();
    assert_eq!(results[0].into_result(), Err(DispatchError::JobProcessingError));
    assert_eq!(results[1].into_result(), Ok(4));
}

#[test]
fn shutdown_of_an_idle_pool_on_a_closed_channel() {
    for workers in 1..=8usize {
        let mut receiver = Channel::open(None);
        receiver.close();
        let mut pool = WorkerPool::spawn(workers, receiver, triple);
        let summary = close_and_join(&mut pool);
        assert_eq!(
            summary,
            Ok(ShutdownSummary { jobs_processed: 0, final_counter_value: 0, workers_joined: workers })
        );
        for w in 0..workers {
            assert!(pool.is_terminated(w));
        }
    }
}

#[test]
fn shutdown_processes_what_is_buffered() {
    let mut pool = spawn_pool(3, triple);
    for id in 10..20u64 {
        pool.submit(Job::new(id, id as i64)).unwrap();
    }
    assert_eq!(
        pool.step(1),
        Ok(StepOutcome::Processed(JobResult { job_id: 10, outcome: Outcome::Completed(30) }))
    );
    let summary = close_and_join(&mut pool).unwrap();
    assert_eq!(summary.jobs_processed, 10);
    assert_eq!(summary.final_counter_value, 10);
    assert_eq!(summary.workers_joined, 3);
    assert_eq!(pool.worker_count(), 3);
    assert_eq!(pool.backlog(), 0);
    let results = pool.into_results();
    let ids: Vec<u64> = results.iter().map(|r| r.job_id).collect();
    assert_eq!(ids, (10..20u64).collect::<Vec<u64>>());
}

#[test]
fn a_crashed_worker_fails_the_join() {
    let mut pool = spawn_pool(2, triple);
    pool.submit(Job::new(1, 1)).unwrap();
    assert!(!pool.any_crashed());
    pool.report_crash(1, false);
    assert!(pool.any_crashed());
    assert!(!pool.is_poisoned());
    assert_eq!(pool.worker_state(1), WorkerState::Crashed);
    assert_eq!(pool.step(1), Ok(StepOutcome::NotIdle));
    assert_eq!(close_and_join(&mut pool), Err(DispatchError::JoinFailure));
    assert!(pool.is_closed());
    assert_eq!(pool.backlog(), 1);
    assert_eq!(
        pool.step(0),
        Ok(StepOutcome::Processed(JobResult { job_id: 1, outcome: Outcome::Completed(3) }))
    );
}

#[test]
fn a_poisoned_receiver_lock_is_a_hard_error() {
    let mut pool = spawn_pool(2, triple);
    pool.submit(Job::new(1, 1)).unwrap();
    pool.report_crash(0, true);
    assert!(pool.is_poisoned());
    assert_eq!(pool.take(1), Err(DispatchError::LockUnavailable));
    assert_eq!(pool.step(1), Err(DispatchError::LockUnavailable));
    assert_eq!(pool.backlog(), 1);
    assert_eq!(close_and_join(&mut pool), Err(DispatchError::LockUnavailable));
    assert_eq!(pool.jobs_processed(), 0);
}

#[test]
fn a_busy_workers_crash_fails_the_join() {
    for workers in 1..=4usize {
        for crashing in 0..workers {
            let mut pool = spawn_pool(workers, triple);
            pool.submit(Job::new(1, 1)).unwrap();
            pool.submit(Job::new(2, 2)).unwrap();
            assert_eq!(pool.take(crashing), Ok(Taken::Job(Job::new(1, 1))));
            pool.report_crash(crashing, false);
            assert_eq!(pool.worker_state(crashing), WorkerState::CrashedHolding(Job::new(1, 1)));
            assert!(pool.any_crashed());
            assert!(!pool.is_poisoned());
            assert_eq!(pool.publish(crashing, Outcome::Completed(3)), None);
            assert_eq!(pool.finish(crashing), None);
            assert_eq!(pool.take(crashing), Ok(Taken::NotIdle));
            assert_eq!(close_and_join(&mut pool), Err(DispatchError::JoinFailure));
            assert!(pool.is_closed());
            assert_eq!(pool.jobs_processed(), 0);
            assert_eq!(pool.counter_value(), 0);
            assert_eq!(pool.backlog(), 1);
            assert_eq!(pool.worker_state(crashing), WorkerState::CrashedHolding(Job::new(1, 1)));
        }
    }
}

#[test]
fn a_busy_workers_crash_with_the_lock_poisons_it() {
    let mut pool = spawn_pool(2, triple);
    pool.submit(Job::new(1, 1)).unwrap();
    pool.submit(Job::new(2, 2)).unwrap();
    assert_eq!(pool.take(0), Ok(Taken::Job(Job::new(1, 1))));
    pool.report_crash(0, true);
    assert!(pool.is_poisoned());
    assert!(pool.any_crashed());
    assert_eq!(pool.take(1), Err(DispatchError::LockUnavailable));
    assert_eq!(close_and_join(&mut pool), Err(DispatchError::LockUnavailable));
    assert_eq!(pool.jobs_processed(), 0);
}

#[test]
fn a_second_report_changes_nothing() {
    let mut pool = spawn_pool(2, triple);
    pool.report_crash(0, false);
    pool.report_crash(0, true);
    assert_eq!(pool.worker_state(0), WorkerState::Crashed);
    assert!(!pool.is_poisoned());
    pool.close();
    assert_eq!(pool.take(1), Ok(Taken::Terminated));
    pool.report_crash(1, true);
    assert_eq!(pool.worker_state(1), WorkerState::Terminated);
    assert!(!pool.is_poisoned());
}

#[test]
fn a_pool_on_a_bounded_channel_pushes_back() {
    let mut pool = WorkerPool::spawn(1, Channel::open(Some(1)), triple);
    assert_eq!(pool.submit(Job::new(1, 1)), Ok(()));
    assert_eq!(pool.submit(Job::new(2, 2)), Err(DispatchError::ChannelFull));
    assert_eq!(
        pool.step(0),
        Ok(StepOutcome::Processed(JobResult { job_id: 1, outcome: Outcome::Completed(3) }))
    );
    assert_eq!(pool.submit(Job::new(2, 2)), Ok(()));
}

fn next_random(state: &mut u64) -> u64 {
    *state = state.wrapping_mul(6364136223846793005).wrapping_add(1442695040888963407);
    *state >> 33
}

#[test]
fn random_schedules_lose_and_duplicate_nothing() {
    for seed in 0..200u64 {
        let mut random = seed;
        let workers = 1 + (next_random(&mut random) % 5) as usize;
        let jobs = (next_random(&mut random) % 40) as u64;
        let mut pool = spawn_pool(workers, triple);
        let mut submitted = 0u64;
        let mut turns = 0;
        while submitted < jobs || pool.jobs_processed() < jobs as usize {
            turns += 1;
            assert!(turns < 100_000);
            let worker = (next_random(&mut random) % workers as u64) as usize;
            match next_random(&mut random) % 3 {
                0 if submitted < jobs => {
                    pool.submit(Job::new(submitted, submitted as i64)).unwrap();
                    submitted += 1;
                }
                1 => {
                    pool.take(worker).unwrap();
                }
                _ => {
                    if let WorkerState::Busy(job) = pool.worker_state(worker) {
                        assert!(pool.publish(worker, triple(job)).is_some());
                    }
                }
            }
        }
        let summary = close_and_join(&mut pool).unwrap();
        assert_eq!(summary.jobs_processed, jobs as usize);
        assert_eq!(summary.final_counter_value, jobs as i64);
        assert_eq!(summary.workers_joined, workers);
        let mut ids: Vec<u64> = pool.results().iter().map(|r| r.job_id).collect();
        ids.sort();
        assert_eq!(ids, (0..jobs).collect::<Vec<u64>>());
        for result in pool.results().iter() {
            assert_eq!(result.outcome, Outcome::Completed(3 * result.job_id as i64));
        }
    }
}
