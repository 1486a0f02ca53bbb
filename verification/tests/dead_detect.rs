use os::dead_detect::{DeadDetector, DeadDetectorImpl, ResourceType, DEAD};

#[test]
fn empty_detector_is_safe() {
    let d = DeadDetectorImpl::new();
    assert!(d.is_safe());
}

#[test]
fn mutex_is_granted_once() {
    let mut d = DeadDetectorImpl::new();
    d.add_resource(1, ResourceType::Mutex);
    assert_eq!(d.alloc_resource(0, 1), Ok(()));
    assert_eq!(d.alloc_resource(1, 1), Err(DEAD));
    assert_eq!(d.free_resource(0, 1), Ok(()));
    assert_eq!(d.free_resource(0, 1), Err(-1));
    assert_eq!(d.alloc_resource(1, 1), Ok(()));
}

#[test]
fn unknown_resource_or_thread_is_refused() {
    let mut d = DeadDetectorImpl::new();
    d.add_resource(1, ResourceType::Mutex);
    assert_eq!(d.alloc_resource(0, 99), Err(-1));
    assert_eq!(d.free_resource(0, 99), Err(-1));
    assert_eq!(d.free_resource(5, 1), Err(-1));
}

#[test]
fn semaphore_requests_stop_below_count() {
    let mut d = DeadDetectorImpl::new();
    d.add_resource(2, ResourceType::Semaphore(2));
    assert_eq!(d.alloc_resource(0, 2), Ok(()));
    // a second request of the same thread would reach the count
    assert_eq!(d.alloc_resource(0, 2), Err(DEAD));
    assert_eq!(d.alloc_resource(1, 2), Ok(()));
    assert_eq!(d.alloc_resource(2, 2), Err(DEAD));
}

#[test]
fn unsafe_grant_is_refused_and_undone() {
    let mut d = DeadDetectorImpl::new();
    d.add_resource(5, ResourceType::Semaphore(3));
    assert_eq!(d.alloc_resource(0, 5), Ok(()));
    assert_eq!(d.alloc_resource(1, 5), Ok(()));
    assert_eq!(d.alloc_resource(2, 5), Ok(()));
    assert_eq!(d.alloc_resource(0, 5), Err(DEAD));
    assert_eq!(d.alloc_resource(1, 5), Err(DEAD));
    assert_eq!(d.free_resource(2, 5), Ok(()));
    // the unit is available, but every thread would then wait for one more
    assert_eq!(d.alloc_resource(2, 5), Err(DEAD));
    // the refused unit stayed available
    assert!(d.is_safe());
    assert_eq!(d.free_resource(2, 5), Err(-1));
    // each thread has reached the count of requests the semaphore allows
    assert_eq!(d.alloc_resource(0, 5), Err(DEAD));
}

#[test]
fn deadlocked_state_is_not_safe() {
    // Thread 1 holds mutex 10 and waits for 20; thread 2 holds 20 and waits for
    // 10: no order lets both finish.
    let mut d = DeadDetectorImpl::new();
    d.add_resource(10, ResourceType::Mutex);
    d.add_resource(20, ResourceType::Mutex);
    assert_eq!(d.alloc_resource(1, 10), Ok(()));
    assert_eq!(d.alloc_resource(2, 20), Ok(()));
    assert_eq!(d.alloc_resource(1, 20), Err(DEAD));
    assert_eq!(d.alloc_resource(2, 10), Err(DEAD));
    assert!(!d.is_safe());
}

#[test]
fn removing_a_thread_returns_its_units() {
    let mut d = DeadDetectorImpl::new();
    d.add_resource(1, ResourceType::Mutex);
    assert_eq!(d.alloc_resource(0, 1), Ok(()));
    assert_eq!(d.alloc_resource(1, 1), Err(DEAD));
    d.remove_thread(0);
    assert_eq!(d.free_resource(0, 1), Err(-1));
    assert_eq!(d.alloc_resource(1, 1), Ok(()));
    // removing an unknown thread changes nothing
    d.remove_thread(42);
    assert_eq!(d.alloc_resource(3, 1), Err(DEAD));
}

#[test]
fn re_adding_a_resource_resets_its_units() {
    let mut d = DeadDetectorImpl::new();
    d.add_resource(1, ResourceType::Semaphore(1));
    assert_eq!(d.alloc_resource(0, 1), Err(DEAD));
    d.add_resource(1, ResourceType::Semaphore(3));
    // the count of the first registration still bounds the requests
    assert_eq!(d.alloc_resource(0, 1), Err(DEAD));
    // a mutex with the same identifier is a different resource
    d.add_resource(1, ResourceType::Mutex);
    assert_eq!(d.alloc_resource(0, 1), Err(DEAD));
}

#[test]
fn add_thread_then_free_without_holding() {
    let mut d = DeadDetectorImpl::new();
    d.add_resource(7, ResourceType::Mutex);
    d.add_thread(3);
    assert_eq!(d.free_resource(3, 7), Err(-1));
    assert_eq!(d.free_resource(4, 7), Err(-1));
    assert!(d.is_safe());
}

#[test]
fn disabled_detector_answers_ok() {
    let mut d = DeadDetector::new();
    assert!(!d.enabled);
    assert_eq!(d.is_safe(), None);
    d.add_resource(1, ResourceType::Mutex);
    assert_eq!(d.alloc_resource(0, 1), Ok(()));
    assert_eq!(d.alloc_resource(1, 1), Ok(()));
    assert_eq!(d.free_resource(9, 1), Ok(()));
    d.set_enabled(true);
    assert_eq!(d.is_safe(), Some(true));
    // the disabled detector still recorded the grant to thread 0
    assert_eq!(d.alloc_resource(2, 1), Err(DEAD));
    assert_eq!(d.free_resource(0, 1), Ok(()));
    assert_eq!(d.alloc_resource(2, 1), Ok(()));
}

#[test]
fn enabled_detector_reports_refusals() {
    let mut d = DeadDetector::default();
    d.set_enabled(true);
    d.add_thread(0);
    d.add_resource(4, ResourceType::Mutex);
    assert_eq!(d.alloc_resource(0, 4), Ok(()));
    assert_eq!(d.alloc_resource(1, 4), Err(DEAD));
    assert_eq!(d.free_resource(1, 4), Err(-1));
    d.remove_thread(0);
    assert_eq!(d.alloc_resource(1, 4), Ok(()));
    assert_eq!(d.is_safe(), Some(true));
}

#[test]
fn grant_then_release_round_trip() {
    let mut d = DeadDetectorImpl::new();
    d.add_resource(3, ResourceType::Semaphore(4));
    assert_eq!(d.alloc_resource(0, 3), Ok(()));
    assert_eq!(d.free_resource(0, 3), Ok(()));
    assert_eq!(d.free_resource(0, 3), Err(-1));
    assert!(d.is_safe());
}

#[test]
fn adding_a_thread_twice_is_adding_it_once() {
    let mut d = DeadDetectorImpl::new();
    d.add_resource(1, ResourceType::Semaphore(3));
    d.add_thread(2);
    d.add_thread(2);
    assert_eq!(d.alloc_resource(2, 1), Ok(()));
    assert_eq!(d.alloc_resource(0, 1), Ok(()));
    assert_eq!(d.free_resource(1, 1), Err(-1));
    assert!(d.is_safe());
}

#[test]
fn disabled_then_enabled_detector() {
    let mut d = DeadDetector::new();
    d.add_resource(0, ResourceType::Mutex);
    assert_eq!(d.alloc_resource(0, 0), Ok(()));
    assert_eq!(d.alloc_resource(1, 0), Ok(()));
    d.set_enabled(true);
    assert_eq!(d.is_safe(), Some(true));
    // nothing was granted to thread 1
    assert_eq!(d.free_resource(1, 0), Err(-1));
}

#[test]
fn enabled_detector_refuses_held_mutex() {
    let mut d = DeadDetector::new();
    d.set_enabled(true);
    d.add_resource(0, ResourceType::Mutex);
    assert_eq!(d.alloc_resource(0, 0), Ok(()));
    assert_eq!(d.alloc_resource(1, 0), Err(DEAD));
}

#[test]
fn more_units_keep_a_safe_state_safe() {
    let mut d = DeadDetectorImpl::new();
    d.add_resource(1, ResourceType::Semaphore(3));
    assert_eq!(d.alloc_resource(0, 1), Ok(()));
    assert_eq!(d.alloc_resource(1, 1), Ok(()));
    assert!(d.is_safe());
    // resetting the count makes more units available
    d.add_resource(1, ResourceType::Semaphore(5));
    assert!(d.is_safe());
}

#[test]
fn adding_two_threads_adds_the_larger() {
    let mut d = DeadDetectorImpl::new();
    d.add_resource(1, ResourceType::Mutex);
    d.add_thread(4);
    d.add_thread(2);
    assert_eq!(d.free_resource(4, 1), Err(-1));
    assert_eq!(d.alloc_resource(4, 1), Ok(()));
    assert_eq!(d.free_resource(4, 1), Ok(()));
}
