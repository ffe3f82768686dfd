use dispatch_core::counter::SharedCounter;
use dispatch_core::job::DispatchError;

#[test]
fn test_mutex() {
    let mut m = SharedCounter::new(5);
    {
        let current = m.read();
        m.increment(10 - current);
    }
    assert_eq!(m.read(), 10);
}

#[test]
fn increments_by_one_are_all_counted() {
    let mut counter = SharedCounter::new(0);
    for _ in 0..1000 {
        counter.increment(1);
    }
    assert_eq!(counter.read(), 1000);
}

#[test]
fn increment_returns_the_new_value() {
    let mut counter = SharedCounter::new(40);
    assert_eq!(counter.increment(2), 42);
    assert_eq!(counter.increment(-50), -8);
    assert_eq!(counter.read(), -8);
}

#[test]
fn order_of_increments_does_not_matter() {
    let deltas = [5i64, -3, 10, 1, -7, 2];
    let mut forward = SharedCounter::new(100);
    for d in deltas.iter() {
        forward.increment(*d);
    }
    let mut backward = SharedCounter::new(100);
    for d in deltas.iter().rev() {
        backward.increment(*d);
    }
    assert_eq!(forward.read(), 108);
    assert_eq!(backward.read(), 108);
}

#[test]
fn checked_increment_refuses_overflow() {
    let mut counter = SharedCounter::new(i64::MAX - 1);
    assert_eq!(counter.checked_increment(1), Some(i64::MAX));
    assert_eq!(counter.checked_increment(1), None);
    assert_eq!(counter.read(), i64::MAX);
    assert_eq!(counter.checked_increment(-1), Some(i64::MAX - 1));
    let mut low = SharedCounter::new(i64::MIN);
    assert_eq!(low.checked_increment(-1), None);
    assert_eq!(low.read(), i64::MIN);
}

#[test]
fn a_sound_counter_hands_out_its_value() {
    let mut counter = SharedCounter::new(3);
    assert!(!counter.is_poisoned());
    assert_eq!(counter.try_read(), Ok(3));
    assert_eq!(counter.try_increment(4), Ok(7));
    assert_eq!(counter.try_increment(-10), Ok(-3));
    assert_eq!(counter.try_read(), Ok(-3));
    assert_eq!(counter.read(), -3);
}

#[test]
fn a_poisoned_counter_is_a_hard_error() {
    let mut counter = SharedCounter::new(3);
    assert_eq!(counter.try_increment(1), Ok(4));
    counter.poison();
    assert!(counter.is_poisoned());
    assert_eq!(counter.try_increment(1), Err(DispatchError::LockUnavailable));
    assert_eq!(counter.try_read(), Err(DispatchError::LockUnavailable));
    counter.poison();
    assert!(counter.is_poisoned());
    assert_eq!(counter.try_increment(i64::MAX), Err(DispatchError::LockUnavailable));
    assert_eq!(counter.try_read(), Err(DispatchError::LockUnavailable));
}
