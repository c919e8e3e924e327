//! The split-tracking contract of the timer.

use gsplat_utils::timer::Timer;

#[test]
fn a_fresh_timer_has_no_splits() {
    let timer = Timer::new();
    assert!(timer.get_split("anything").is_none());
}

#[test]
fn split_records_under_its_name() {
    let mut timer = Timer::new();
    timer.split("first_operation");
    assert!(timer.get_split("first_operation").is_some());
    assert!(timer.get_split("second_operation").is_none());
    timer.split("second_operation");
    assert!(timer.get_split("first_operation").is_some());
    assert!(timer.get_split("second_operation").is_some());
}

#[test]
fn repeated_names_keep_one_entry() {
    let mut timer = Timer::new();
    timer.split("stage");
    let first = timer.get_split("stage").unwrap();
    timer.split("stage");
    let second = timer.get_split("stage").unwrap();
    // The later recording replaces the earlier one; both are real durations.
    assert!(second.as_nanos() <= first.as_nanos() + timer.elapsed().as_nanos());
}

#[test]
fn reset_forgets_all_splits() {
    let mut timer = Timer::new();
    timer.split("first_operation");
    timer.reset();
    assert!(timer.get_split("first_operation").is_none());
}

#[test]
fn elapsed_is_monotone() {
    let timer = Timer::new();
    let a = timer.elapsed();
    let b = timer.elapsed();
    assert!(b >= a);
}
