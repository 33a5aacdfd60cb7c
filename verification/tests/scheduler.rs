use mboot::scheduler::{CooperativeScheduler, WaitState};

#[test]
fn emulation_preserves_but_does_not_extend_slice() {
    let mut scheduler = CooperativeScheduler::new();
    let runnable = [true, true];
    assert_eq!(scheduler.next_in_slice(&runnable, 100, 10), Some(0));
    scheduler.resume_after_emulation(0);
    assert_eq!(scheduler.next_in_slice(&runnable, 109, 10), Some(0));
    scheduler.resume_after_emulation(0);
    assert_eq!(scheduler.next_in_slice(&runnable, 110, 10), Some(1));
    assert_eq!(scheduler.next_in_slice(&runnable, 111, 10), Some(0));
    scheduler.resume_after_emulation(0);
    assert_eq!(scheduler.next_in_slice(&[false, true], 112, 10), Some(1));
}

#[test]
fn unknown_clock_disables_slice_continuation() {
    let mut scheduler = CooperativeScheduler::new();
    assert_eq!(scheduler.next_in_slice(&[true, true], 0, 0), Some(0));
    scheduler.resume_after_emulation(0);
    assert_eq!(scheduler.next_in_slice(&[true, true], 0, 0), Some(1));
}

#[test]
fn repeated_nonblocking_returns_cannot_starve_peer() {
    let mut scheduler = CooperativeScheduler::new();
    let runnable = [true, true];
    assert_eq!(scheduler.next_in_slice(&runnable, 0, 10), Some(0));
    for now in 1..10 {
        scheduler.resume_after_emulation(0);
        assert_eq!(scheduler.next_in_slice(&runnable, now, 10), Some(0));
    }
    scheduler.resume_after_emulation(0);
    assert_eq!(scheduler.next_in_slice(&runnable, 10, 10), Some(1));
    // An explicit yield does not request slice continuation.
    assert_eq!(scheduler.next_in_slice(&runnable, 11, 10), Some(0));
}

#[test]
fn device_irq_does_not_complete_event_wait() {
    let mut state = WaitState::EventChannel;
    assert!(!state.wake_for_interrupt());
    assert_eq!(state, WaitState::EventChannel);
    state = WaitState::Interrupt;
    assert!(state.wake_for_interrupt());
    assert_eq!(state, WaitState::Running);
    assert!(state.wake_for_interrupt());
}

#[test]
fn rotates_over_runnable_vcpus() {
    let mut scheduler = CooperativeScheduler::new();
    let runnable = [true, true, false];
    assert_eq!(scheduler.next(&runnable), Some(0));
    assert_eq!(scheduler.next(&runnable), Some(1));
    assert_eq!(scheduler.next(&runnable), Some(0));
}

#[test]
fn returns_none_when_all_vcpus_are_stopped() {
    let mut scheduler = CooperativeScheduler::new();
    assert_eq!(scheduler.next(&[false, false]), None);
}

#[test]
fn every_runnable_vcpu_gets_one_turn_in_each_round() {
    let mut scheduler = CooperativeScheduler::new();
    let runnable = [true, true, false, true];
    assert_eq!(scheduler.next(&runnable), Some(0));
    assert_eq!(scheduler.next(&runnable), Some(1));
    assert_eq!(scheduler.next(&runnable), Some(3));
    assert_eq!(scheduler.next(&[false; 4]), None);
    assert_eq!(scheduler.next(&runnable), Some(0));
    let round = [
        scheduler.next(&runnable),
        scheduler.next(&runnable),
        scheduler.next(&runnable),
    ];
    assert_eq!(round, [Some(1), Some(3), Some(0)]);
}
