use tracker_core::adv_scheduler::{AcquireDecision, AdvPriority, SchedulerState};

#[test]
fn scheduler_preemption() {
    let mut s = SchedulerState::new();
    assert_eq!(s.acquire(AdvPriority::FmdnAdv), AcquireDecision::Granted);
    // B asks at the connectable priority: A is told to yield, B waits
    assert_eq!(
        s.acquire(AdvPriority::MainAdv),
        AcquireDecision::Wait { preempt: Some(AdvPriority::FmdnAdv) }
    );
    assert_eq!(s.current_holder, Some(AdvPriority::FmdnAdv));
    // B retrying before A released still waits
    assert!(matches!(s.acquire(AdvPriority::MainAdv), AcquireDecision::Wait { .. }));
    // A releases: B is granted, and only B holds
    assert_eq!(s.release(AdvPriority::FmdnAdv), Some(AdvPriority::MainAdv));
    assert_eq!(s.current_holder, Some(AdvPriority::MainAdv));
    assert_eq!(s.acquire(AdvPriority::MainAdv), AcquireDecision::Granted);
}

#[test]
fn scheduler_round_robin() {
    let mut s = SchedulerState::new();
    assert_eq!(s.acquire(AdvPriority::FindMyAdv), AcquireDecision::Granted);
    assert_eq!(s.acquire(AdvPriority::FmdnAdv), AcquireDecision::Wait { preempt: None });
    assert_eq!(s.release(AdvPriority::FindMyAdv), Some(AdvPriority::FmdnAdv));
    // Find My ranks above FMDN: FMDN is asked to yield
    assert_eq!(
        s.acquire(AdvPriority::FindMyAdv),
        AcquireDecision::Wait { preempt: Some(AdvPriority::FmdnAdv) }
    );
    assert_eq!(s.release(AdvPriority::FmdnAdv), Some(AdvPriority::FindMyAdv));
    assert_eq!(s.release(AdvPriority::FindMyAdv), None);
    assert_eq!(s.current_holder, None);
}

#[test]
fn scheduler_release_by_non_holder_is_ignored() {
    let mut s = SchedulerState::new();
    s.acquire(AdvPriority::MainAdv);
    assert_eq!(s.release(AdvPriority::FindMyAdv), None);
    assert_eq!(s.current_holder, Some(AdvPriority::MainAdv));
    assert_eq!(AdvPriority::from_index(0), AdvPriority::MainAdv);
    assert_eq!(AdvPriority::from_index(2), AdvPriority::FindMyAdv);
    assert_eq!(AdvPriority::FmdnAdv.index(), 2);
}

#[test]
fn preempt_signal_reaches_lower_holder() {
    let mut s = SchedulerState::new();
    s.acquire(AdvPriority::FmdnAdv);
    assert!(!s.take_preempt(AdvPriority::FmdnAdv));
    s.acquire(AdvPriority::MainAdv);
    assert!(s.take_preempt(AdvPriority::FmdnAdv));
    assert!(!s.take_preempt(AdvPriority::FmdnAdv));
    assert_eq!(s.release(AdvPriority::FmdnAdv), Some(AdvPriority::MainAdv));
    // a lower-priority request never signals the holder
    s.acquire(AdvPriority::FindMyAdv);
    assert!(!s.take_preempt(AdvPriority::MainAdv));
}
