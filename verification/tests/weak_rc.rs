use allocator::weak_rc::{DropOutcome, WeakRc};

#[test]
fn fresh_value_dropped_and_freed() {
    let mut rc = WeakRc::new();
    assert_eq!(rc.decr_strong(), DropOutcome::DropAndFree);
}

#[test]
fn extra_strong_reference_keeps_value() {
    let mut rc = WeakRc::new();
    rc.incr_strong();
    assert_eq!(rc.decr_strong(), DropOutcome::Kept);
    assert_eq!(rc.decr_strong(), DropOutcome::DropAndFree);
}

#[test]
fn downgrade_destructs_but_weak_keeps_memory() {
    let mut rc = WeakRc::new();
    // the weak reference clears the no-weak flag, then the last strong one goes
    assert_eq!(rc.downgrade(), DropOutcome::Destructed);
    // the last weak reference frees the memory
    assert!(rc.decr_weak());
}

#[test]
fn weak_round_trip_after_first_weak() {
    let mut rc = WeakRc::new();
    rc.incr_weak();
    rc.incr_weak();
    assert!(!rc.decr_weak());
    assert!(!rc.decr_weak());
    rc.incr_strong();
    assert_eq!(rc.decr_strong(), DropOutcome::Kept);
}

#[test]
fn upgrade_of_destructed_value_only_counts() {
    let mut rc = WeakRc::new();
    rc.incr_weak();
    assert_eq!(rc.decr_strong(), DropOutcome::Destructed);
    rc.upgrade();
    assert_eq!(rc.drop_slow(), DropOutcome::Kept);
    rc.get_mut();
    rc.into_inner();
}
