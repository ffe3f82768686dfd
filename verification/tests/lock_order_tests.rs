use dispatch_core::job::DispatchError;
use dispatch_core::lock_order::{acquisition_order, acquisition_plan, LockTable};

#[test]
fn keys_are_taken_in_ascending_order() {
    assert_eq!(acquisition_order(3, 9), (3, 9));
    assert_eq!(acquisition_order(9, 3), (3, 9));
    assert_eq!(acquisition_order(4, 4), (4, 4));
}

#[test]
fn two_workers_in_the_same_order_both_finish() {
    let schedules: [[usize; 8]; 4] = [
        [0, 0, 1, 1, 0, 1, 0, 1],
        [1, 0, 1, 0, 1, 0, 0, 1],
        [0, 1, 0, 1, 0, 1, 0, 1],
        [1, 1, 1, 0, 0, 0, 1, 0],
    ];
    for schedule in schedules.iter() {
        let mut table = LockTable::new(2);
        let mut held = [0usize; 2];
        let mut done = [false; 2];
        let mut turns = 0;
        while !(done[0] && done[1]) {
            let w = schedule[turns % 8];
            turns += 1;
            assert!(turns < 100);
            if done[w] {
                continue;
            }
            if held[w] == 2 {
                assert!(table.release(w, 1));
                assert!(table.release(w, 0));
                done[w] = true;
            } else if table.try_acquire(w, held[w]).is_ok() {
                held[w] += 1;
            }
        }
        assert_eq!(table.holder(0), None);
        assert_eq!(table.holder(1), None);
    }
}

#[test]
fn a_held_lock_is_unavailable() {
    let mut table = LockTable::new(3);
    assert_eq!(table.lock_count(), 3);
    assert_eq!(table.try_acquire(7, 1), Ok(()));
    assert_eq!(table.holder(1), Some(7));
    assert_eq!(table.try_acquire(8, 1), Err(DispatchError::LockUnavailable));
    assert_eq!(table.holder(1), Some(7));
    assert!(!table.release(8, 1));
    assert!(table.release(7, 1));
    assert_eq!(table.try_acquire(8, 1), Ok(()));
}

#[test]
fn a_lower_lock_after_a_higher_one_is_refused() {
    let mut table = LockTable::new(3);
    assert_eq!(table.try_acquire(0, 2), Ok(()));
    assert_eq!(table.try_acquire(0, 1), Err(DispatchError::LockOrderViolation));
    assert_eq!(table.try_acquire(0, 2), Err(DispatchError::LockOrderViolation));
    assert_eq!(table.holder(1), None);
    assert_eq!(table.try_acquire(1, 1), Ok(()));
    assert_eq!(table.try_acquire(1, 2), Err(DispatchError::LockUnavailable));
}

fn next_random(state: &mut u64) -> u64 {
    *state = state.wrapping_mul(6364136223846793005).wrapping_add(1442695040888963407);
    *state >> 33
}

#[test]
fn two_workers_never_deadlock_under_random_schedules() {
    for trial in 0..10_000u64 {
        let mut random = trial;
        let mut table = LockTable::new(2);
        let mut held = [0usize; 2];
        let mut done = [false; 2];
        let mut turns = 0;
        while !(done[0] && done[1]) {
            turns += 1;
            assert!(turns < 1_000, "stuck in trial {}", trial);
            let w = (next_random(&mut random) % 2) as usize;
            if done[w] {
                continue;
            }
            if held[w] == 2 {
                assert!(table.release(w, 1));
                assert!(table.release(w, 0));
                done[w] = true;
            } else {
                match table.try_acquire(w, held[w]) {
                    Ok(()) => held[w] += 1,
                    Err(error) => assert_eq!(error, DispatchError::LockUnavailable),
                }
            }
            let someone_can_move = (0..2).any(|u| {
                !done[u] && (held[u] == 2 || table.holder(held[u]).is_none())
            });
            assert!(done[0] && done[1] || someone_can_move);
        }
    }
}

#[test]
fn workers_with_different_plans_all_finish() {
    let plans: [&[usize]; 4] = [&[0, 2, 3], &[1, 2], &[0, 1, 3], &[3]];
    for trial in 0..500u64 {
        let mut random = trial;
        let mut table = LockTable::new(4);
        let mut held = [0usize; 4];
        let mut done = [false; 4];
        let mut turns = 0;
        while done.iter().any(|d| !d) {
            turns += 1;
            assert!(turns < 10_000, "stuck in trial {}", trial);
            let w = (next_random(&mut random) % 4) as usize;
            if done[w] {
                continue;
            }
            if held[w] == plans[w].len() {
                for key in plans[w].iter().rev() {
                    assert!(table.release(w, *key));
                }
                done[w] = true;
            } else if table.try_acquire(w, plans[w][held[w]]).is_ok() {
                held[w] += 1;
            }
        }
        for key in 0..4 {
            assert_eq!(table.holder(key), None);
        }
    }
}

#[test]
fn a_plan_holds_each_key_once_in_ascending_order() {
    assert_eq!(acquisition_plan(&vec![5, 1, 3, 1, 5, 0]), vec![0, 1, 3, 5]);
    assert_eq!(acquisition_plan(&vec![]), Vec::<usize>::new());
    assert_eq!(acquisition_plan(&vec![2, 2, 2]), vec![2]);
    assert_eq!(acquisition_plan(&vec![1, 2, 3]), vec![1, 2, 3]);
    assert_eq!(acquisition_plan(&vec![3, 2, 1]), vec![1, 2, 3]);
}

#[test]
fn all_locks_of_a_plan_or_none() {
    let mut table = LockTable::new(5);
    let plan = acquisition_plan(&vec![4, 0, 2]);
    assert_eq!(table.acquire_all(1, &plan), Ok(()));
    assert_eq!(table.holder(0), Some(1));
    assert_eq!(table.holder(1), None);
    assert_eq!(table.holder(2), Some(1));
    assert_eq!(table.holder(4), Some(1));

    let other = acquisition_plan(&vec![1, 2, 3]);
    assert_eq!(table.acquire_all(2, &other), Err(DispatchError::LockUnavailable));
    assert_eq!(table.holder(1), None);
    assert_eq!(table.holder(3), None);

    assert_eq!(table.acquire_all(1, &vec![3]), Err(DispatchError::LockOrderViolation));
    assert_eq!(table.acquire_all(1, &vec![]), Ok(()));

    table.release_all(1, &plan);
    for key in 0..5 {
        assert_eq!(table.holder(key), None);
    }
    assert_eq!(table.acquire_all(2, &other), Ok(()));
    table.release_all(1, &other);
    assert_eq!(table.holder(1), Some(2));
    table.release_all(2, &vec![1, 3]);
    assert_eq!(table.holder(1), None);
    assert_eq!(table.holder(2), Some(2));
    assert_eq!(table.holder(3), None);
}
