//! Tests for the cooperative timer.

use fri3d_runtime::timer::TimerState;

#[test]
fn timer_not_due_before_interval() {
    let mut timer = TimerState::new();
    timer.start(1000, 100);
    assert!(!timer.due(1000));
    assert!(!timer.due(1099));
    assert!(timer.due(1100));
}

#[test]
fn timer_catches_up_on_large_jump() {
    let mut timer = TimerState::new();
    timer.start(1000, 100);
    assert!(timer.due(1350));
    assert!(!timer.due(1399));
    assert!(timer.due(1400));
}

#[test]
fn timer_stop_disables_due() {
    let mut timer = TimerState::new();
    timer.start(500, 50);
    timer.stop();
    assert!(!timer.due(1000));
}

#[test]
fn starting_with_zero_interval_is_stopping() {
    let mut zeroed = TimerState::new();
    zeroed.start(1000, 0);
    assert_eq!(zeroed.next_ms(), None);
    assert!(!zeroed.due(5000));

    let mut stopped = TimerState::new();
    stopped.start(1000, 100);
    stopped.stop();
    assert_eq!(stopped.next_ms(), None);
    assert!(!stopped.due(5000));
}

#[test]
fn next_fire_advances_past_now() {
    let mut timer = TimerState::new();
    timer.start(0, 100);
    assert_eq!(timer.next_ms(), Some(100));
    assert!(timer.due(250));
    assert_eq!(timer.next_ms(), Some(300));
}
