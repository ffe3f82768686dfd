use dispatch_core::channel::Received;
use dispatch_core::concurrency::{
    arc_mutex, channel_basics, channel_multiple_messages, channel_multiple_producers,
    deadlock_prevention, double, echo, mutex_basics, numbered_jobs, parallel_computation,
    practical_patterns, run_all_examples, thread_pool_concept, LockingTrace,
};
use dispatch_core::job::{Job, JobResult, Outcome};
use dispatch_core::shutdown::ShutdownSummary;

#[test]
fn channel_examples() {
    assert_eq!(channel_basics(), Received::Job(Job::new(1, 1)));
    let ids: Vec<u64> = channel_multiple_messages().iter().map(|j| j.id).collect();
    assert_eq!(ids, vec![1, 2, 3, 4]);
    let ids: Vec<u64> = channel_multiple_producers().iter().map(|j| j.id).collect();
    assert_eq!(ids, vec![11, 21, 12, 22]);
}

#[test]
fn counter_examples() {
    assert_eq!(mutex_basics(), 6);
    assert_eq!(arc_mutex(), 10);
}

#[test]
fn pool_examples() {
    let results = thread_pool_concept();
    let expected: Vec<JobResult> = (0..4u64)
        .map(|k| JobResult { job_id: k, outcome: Outcome::Completed(2 * k as i64) })
        .collect();
    assert_eq!(results, expected);
    let patterns = practical_patterns();
    assert_eq!(
        patterns.pool,
        ShutdownSummary { jobs_processed: 9, final_counter_value: 9, workers_joined: 3 }
    );
    assert_eq!(patterns.squares, vec![Some(0), Some(1), Some(4)]);
}

#[test]
fn handlers() {
    assert_eq!(double(Job::new(1, 21)), Outcome::Completed(42));
    assert_eq!(double(Job::new(1, i64::MAX)), Outcome::Failed);
    assert_eq!(double(Job::new(1, i64::MIN / 2)), Outcome::Completed(i64::MIN));
    assert_eq!(echo(Job::new(1, -5)), Outcome::Completed(-5));
    assert_eq!(numbered_jobs(3, 2), vec![Job::new(3, 3), Job::new(4, 4)]);
    assert!(numbered_jobs(3, 0).is_empty());
}

#[test]
fn lock_and_fan_out_examples() {
    assert_eq!(deadlock_prevention(), LockingTrace { backed_off: true, both_finished: true });
    assert_eq!(parallel_computation(), Some(338350));
}

#[test]
fn all_examples_together() {
    let all = run_all_examples();
    assert_eq!(all.mutex_basics, 6);
    assert_eq!(all.arc_mutex, 10);
    assert_eq!(all.parallel_computation, Some(338350));
    assert_eq!(all.channel_multiple_messages.len(), 4);
    assert_eq!(all.thread_pool_concept.len(), 4);
    assert_eq!(all.practical_patterns.pool.jobs_processed, 9);
    assert!(all.deadlock_prevention.both_finished);
}
