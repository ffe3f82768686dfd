use dispatch_core::concurrency::scoped_threads_concept;
use dispatch_core::region::Region;

#[test]
fn a_region_is_left_only_when_its_tasks_are_done() {
    let mut region = Region::enter();
    assert!(region.try_exit());
    assert_eq!(region.register(), Some(0));
    assert_eq!(region.register(), Some(1));
    assert_eq!(region.outstanding(), 2);
    assert!(!region.try_exit());
    assert!(region.complete());
    assert!(!region.try_exit());
    assert!(region.complete());
    assert!(region.try_exit());
    assert!(!region.complete());
    assert_eq!(region.outstanding(), 0);
}

#[test]
fn scoped_example() {
    let results = scoped_threads_concept();
    assert!(!results.left_early);
    assert_eq!(results.lengths_read, (5, 5));
    assert_eq!(results.data, vec![1, 2, 3, 4, 5, 6]);
}
